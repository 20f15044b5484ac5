//! SMPTE timecodes: drop-frame and non-drop-frame display and round trips.

use splica::media::FrameRate;
use splica::smpte::SmpteTimecode;
use splica::timestamp::Timestamp;

const DF_RATE: FrameRate = FrameRate { numerator: 30000, denominator: 1001 };
const NDF_RATE: FrameRate = FrameRate { numerator: 24, denominator: 1 };

/// A timestamp from a frame count at 29.97fps: timebase 30000, ticks
/// frame_count * 1001.
fn ts_from_frames_2997(frame_count: u64) -> Timestamp {
    Timestamp::new(frame_count as i64 * 1001, 30000).unwrap()
}

fn seconds(ts: Timestamp) -> f64 {
    ts.ticks() as f64 / ts.timebase() as f64
}

#[test]
fn test_that_drop_frame_displays_zero() {
    let tc = SmpteTimecode::from_timestamp(ts_from_frames_2997(0), DF_RATE, true);

    assert_eq!(tc.to_string(), "00:00:00;00");
}

#[test]
fn test_that_drop_frame_displays_last_frame_before_first_drop() {
    let tc = SmpteTimecode::from_timestamp(ts_from_frames_2997(1799), DF_RATE, true);

    assert_eq!(tc.to_string(), "00:00:59;29");
}

#[test]
fn test_that_drop_frame_skips_frames_0_and_1_at_minute_1() {
    let tc = SmpteTimecode::from_timestamp(ts_from_frames_2997(1800), DF_RATE, true);

    // jumps from ;29 to ;02
    assert_eq!(tc.to_string(), "00:01:00;02");
}

#[test]
fn test_that_drop_frame_does_not_skip_at_minute_10() {
    let tc = SmpteTimecode::from_timestamp(ts_from_frames_2997(17982), DF_RATE, true);

    assert_eq!(tc.to_string(), "00:10:00;00");
}

#[test]
fn test_that_drop_frame_displays_one_hour() {
    let tc = SmpteTimecode::from_timestamp(ts_from_frames_2997(107892), DF_RATE, true);

    assert_eq!(tc.to_string(), "01:00:00;00");
}

#[test]
fn test_that_non_drop_frame_uses_colon_separator() {
    // 90 seconds at 24fps = frame 2160
    let ts = Timestamp::new(2160, 24).unwrap();
    let tc = SmpteTimecode::from_timestamp(ts, NDF_RATE, false);

    assert_eq!(tc.to_string(), "00:01:30:00");
}

#[test]
fn test_that_drop_frame_round_trips_within_one_frame() {
    let frame_duration_secs = 1001.0 / 30000.0;

    for &frame_count in &[0u64, 1799, 1800, 1801, 17982, 107892, 53946] {
        let original_ts = ts_from_frames_2997(frame_count);
        let tc = SmpteTimecode::from_timestamp(original_ts, DF_RATE, true);
        let round_tripped = tc.to_timestamp(DF_RATE);

        let diff = (seconds(original_ts) - seconds(round_tripped)).abs();
        assert!(
            diff < frame_duration_secs,
            "frame {frame_count}: diff {diff} >= frame duration {frame_duration_secs}, tc={}",
            tc.to_string()
        );
    }
}

#[test]
fn test_that_non_drop_frame_round_trips_within_one_frame() {
    let frame_duration_secs = 1.0 / 24.0;

    for &frame_count in &[0u64, 23, 24, 1440, 86400] {
        let original_ts = Timestamp::new(frame_count as i64, 24).unwrap();
        let tc = SmpteTimecode::from_timestamp(original_ts, NDF_RATE, false);
        let round_tripped = tc.to_timestamp(NDF_RATE);

        let diff = (seconds(original_ts) - seconds(round_tripped)).abs();
        assert!(
            diff < frame_duration_secs,
            "frame {frame_count}: diff {diff} >= frame duration {frame_duration_secs}, tc={}",
            tc.to_string()
        );
    }
}

#[test]
fn test_that_timestamp_fields_are_unchanged() {
    let ts = Timestamp::new(150, 30).unwrap();

    assert_eq!(ts.ticks(), 150);
    assert_eq!(ts.timebase(), 30);
    assert!((seconds(ts) - 5.0).abs() < f64::EPSILON);
}

#[test]
fn drop_frame_timecode_round_trips_to_the_same_frame() {
    // frame 1800 shows as 00:01:00;02 and maps back to frame 1800 exactly
    let tc = SmpteTimecode::from_timestamp(ts_from_frames_2997(1800), DF_RATE, true);
    let back = tc.to_timestamp(DF_RATE);

    assert_eq!(back.ticks(), 1800 * 1001);
    assert_eq!(back.timebase(), 30000);
}

#[test]
fn non_drop_timecode_fields_split_hours_minutes_seconds_frames() {
    // 1h 2m 3s 4f at 24fps
    let fc = ((3600 + 2 * 60 + 3) * 24 + 4) as i64;
    let tc = SmpteTimecode::from_timestamp(Timestamp::new(fc, 24).unwrap(), NDF_RATE, false);

    assert_eq!((tc.hours, tc.minutes, tc.seconds, tc.frames), (1, 2, 3, 4));
    assert!(!tc.drop_frame);
    assert_eq!(tc.to_string(), "01:02:03:04");
}

#[test]
fn drop_frame_timecodes_stay_in_range() {
    for fc in (0u64..40_000).step_by(7) {
        let tc = SmpteTimecode::from_timestamp(ts_from_frames_2997(fc), DF_RATE, true);
        assert!(tc.drop_frame);
        assert!(tc.frames < 30 && tc.seconds < 60 && tc.minutes < 60);
        if tc.seconds == 0 && tc.minutes % 10 != 0 {
            assert!(tc.frames >= 2);
        }
        let back = tc.to_timestamp(DF_RATE);
        assert_eq!(back.ticks(), fc as i64 * 1001);
    }
}
