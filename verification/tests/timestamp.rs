//! Rational timestamps: rescaling, checked arithmetic and comparison.

use splica::timestamp::Timestamp;

fn ts(ticks: i64, timebase: u32) -> Timestamp {
    Timestamp::new(ticks, timebase).unwrap()
}

#[test]
fn test_that_timestamp_converts_to_seconds() {
    let t = ts(150, 30);

    let seconds = t.ticks() as f64 / t.timebase() as f64;

    assert!((seconds - 5.0).abs() < f64::EPSILON);
}

#[test]
fn test_that_timestamp_rescales_between_timebases() {
    // GIVEN — 5 seconds at 30fps
    let t = ts(150, 30);

    // WHEN — rescale to 48kHz audio timebase
    let rescaled = t.rescale(48000).unwrap();

    // THEN — 5 seconds * 48000 = 240000 ticks
    assert_eq!(rescaled.ticks(), 240000);
    assert_eq!(rescaled.timebase(), 48000);
}

#[test]
fn test_that_checked_add_returns_none_on_overflow() {
    let t = ts(i64::MAX, 1);

    let result = t.checked_add(ts(1, 1));

    assert!(result.is_none());
}

#[test]
fn test_that_timestamps_compare_across_timebases() {
    // GIVEN — 5 seconds in two different timebases
    let a = ts(150, 30);
    let b = ts(240000, 48000);

    assert_eq!(a, b);
}

#[test]
fn test_that_timestamp_ordering_works() {
    let earlier = ts(100, 30);
    let later = ts(200, 30);

    assert!(earlier < later);
}

#[test]
fn test_that_checked_add_works_across_timebases() {
    let a = ts(30, 30); // 1 second
    let b = ts(48000, 48000); // 1 second

    let result = a.checked_add(b).unwrap();

    // 2 seconds at timebase 30
    assert_eq!(result.ticks(), 60);
    assert_eq!(result.timebase(), 30);
}

#[test]
#[should_panic(expected = "timebase must be non-zero")]
fn test_that_zero_timebase_panics() {
    let _ = Timestamp::new(0, 0).expect("timebase must be non-zero");
}

#[test]
fn zero_timebase_is_refused() {
    assert!(Timestamp::new(5, 0).is_none());
    assert!(Timestamp::zero(0).is_none());
    assert_eq!(Timestamp::zero(90000).unwrap().ticks(), 0);
}

#[test]
fn rescale_rounds_toward_zero() {
    // 1 tick at 3 Hz in 2 Hz is 2/3 tick: truncated to 0; -1 tick to 0 too
    assert_eq!(ts(1, 3).rescale(2).unwrap().ticks(), 0);
    assert_eq!(ts(-1, 3).rescale(2).unwrap().ticks(), 0);
    assert_eq!(ts(-5, 3).rescale(2).unwrap().ticks(), -3);
}

#[test]
fn rescale_reports_overflow() {
    assert!(ts(i64::MAX, 1).rescale(1000).is_none());
}

#[test]
fn rescale_to_a_multiple_timebase_is_exact_and_equal() {
    let t = ts(7, 25);
    let r = t.rescale(100).unwrap();

    assert_eq!(r.ticks(), 28);
    assert_eq!(r, t);
}

#[test]
fn checked_sub_works_across_timebases() {
    let a = ts(90, 30); // 3 seconds
    let b = ts(48000, 48000); // 1 second

    let d = a.checked_sub(b).unwrap();

    assert_eq!(d.ticks(), 60);
    assert_eq!(d.timebase(), 30);
    assert!(ts(i64::MIN, 1).checked_sub(ts(1, 1)).is_none());
}

#[test]
fn equal_instants_are_neither_less_nor_greater() {
    let a = ts(1, 2);
    let b = ts(3, 6);

    assert!(!(a < b));
    assert!(!(a > b));
    assert!(a <= b && a >= b);
    assert_eq!(a.partial_cmp(&b), Some(std::cmp::Ordering::Equal));
}
