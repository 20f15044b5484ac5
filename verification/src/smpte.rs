//! SMPTE 12M timecode representation with drop-frame support.
//!
//! Professional video workflows use HH:MM:SS:FF timecodes rather than
//! millisecond timestamps. Drop-frame timecodes (29.97fps) skip frame
//! numbers 00 and 01 at each minute boundary except every 10th minute
//! to keep the timecode display roughly synchronized with wall-clock time.

use vstd::prelude::*;
use crate::media::FrameRate;
use crate::text::{dec2, push_char, push_dec2};
use crate::timestamp::Timestamp;

verus! {

/// A SMPTE 12M timecode with optional drop-frame counting.
///
/// Timecodes are displayed as `HH:MM:SS:FF` (non-drop-frame) or
/// `HH:MM:SS;FF` (drop-frame, using semicolon separator per SMPTE convention).
#[derive(Debug, Clone, Copy, PartialEq, Eq, Structural)]
pub struct SmpteTimecode {
    pub hours: u32,
    pub minutes: u32,
    pub seconds: u32,
    pub frames: u32,
    pub drop_frame: bool,
}

/// Nominal integer frame rate: the frame rate rounded up (30 for 30000/1001).
pub open spec fn nominal_fps(rate: FrameRate) -> int {
    (rate.numerator + rate.denominator - 1) / (rate.denominator as int)
}

/// Whole frames elapsed at `rate` by the time `ts` (negative times count as zero).
pub open spec fn frame_count_of(ts: Timestamp, rate: FrameRate) -> int {
    let t: int = if ts.ticks() < 0 { 0 } else { ts.ticks() as int };
    (t * rate.numerator) / (ts.timebase() * rate.denominator)
}

/// Hours before truncation to `u32`, of a non-drop-frame timecode.
pub open spec fn nondrop_total_hours(fc: int, fps: int) -> int {
    fc / fps / 60 / 60
}

/// The non-drop-frame timecode of frame `fc` at `fps` frames per second.
pub open spec fn nondrop_timecode(fc: int, fps: int) -> SmpteTimecode {
    SmpteTimecode {
        hours: nondrop_total_hours(fc, fps) as u32,
        minutes: (fc / fps / 60 % 60) as u32,
        seconds: (fc / fps % 60) as u32,
        frames: (fc % fps) as u32,
        drop_frame: false,
    }
}

/// Frame numbers in a dropped minute.
pub open spec fn frames_per_minute(fps: int) -> int {
    fps * 60 - 2
}

/// Frame numbers in a ten-minute block.
pub open spec fn frames_per_10min(fps: int) -> int {
    frames_per_minute(fps) * 10 + 2
}

/// Minute within the ten-minute block, and frame within that minute, of
/// frame `fc` in drop-frame counting.
pub open spec fn drop_minute_and_frame(fc: int, fps: int) -> (int, int) {
    let m = fc % frames_per_10min(fps);
    if m < fps * 60 {
        (0, m)
    } else {
        let m2 = m - fps * 60;
        (m2 / frames_per_minute(fps) + 1, m2 % frames_per_minute(fps))
    }
}

/// Minutes since zero, before truncation, of a drop-frame timecode.
pub open spec fn drop_total_minutes(fc: int, fps: int) -> int {
    (fc / frames_per_10min(fps)) * 10 + drop_minute_and_frame(fc, fps).0
}

/// The drop-frame timecode of frame `fc` at `fps` frames per second.
pub open spec fn drop_timecode(fc: int, fps: int) -> SmpteTimecode {
    let (mib, fim) = drop_minute_and_frame(fc, fps);
    let tm = drop_total_minutes(fc, fps);
    let shown = if mib > 0 { fim + 2 } else { fim };
    SmpteTimecode {
        hours: (tm / 60) as u32,
        minutes: (tm % 60) as u32,
        seconds: (shown / fps) as u32,
        frames: (shown % fps) as u32,
        drop_frame: true,
    }
}

/// The timecode of frame `fc` in the chosen counting.
pub open spec fn timecode_of(fc: int, fps: int, drop_frame: bool) -> SmpteTimecode {
    if drop_frame {
        drop_timecode(fc, fps)
    } else {
        nondrop_timecode(fc, fps)
    }
}

/// The frame number a non-drop-frame timecode names.
pub open spec fn nondrop_count(tc: SmpteTimecode, fps: int) -> int {
    tc.hours * 3600 * fps + tc.minutes * 60 * fps + tc.seconds * fps + tc.frames
}

/// The frame number a drop-frame timecode names.
pub open spec fn drop_count(tc: SmpteTimecode, fps: int) -> int {
    let tm = tc.hours * 60 + tc.minutes;
    let d = tm / 10;
    let mib = tm % 10;
    let fim = if mib > 0 { tc.seconds * fps + tc.frames - 2 } else { tc.seconds * fps + tc.frames };
    d * frames_per_10min(fps) + if mib == 0 { fim } else { fps * 60 + (mib - 1) * frames_per_minute(fps) + fim }
}

/// The frame number a timecode names, in its own counting.
pub open spec fn count_of(tc: SmpteTimecode, fps: int) -> int {
    if tc.drop_frame {
        drop_count(tc, fps)
    } else {
        nondrop_count(tc, fps)
    }
}

/// Whether converting `tc` to a frame number stays within `u64` and, in a
/// dropped minute, does not name one of the two dropped frame numbers.
pub open spec fn count_fits(tc: SmpteTimecode, fps: int) -> bool {
    &&& count_of(tc, fps) <= u64::MAX
    &&& (tc.drop_frame && (tc.hours * 60 + tc.minutes) % 10 > 0 ==> tc.seconds * fps + tc.frames >= 2)
}

/// The printed form `HH:MM:SS:FF`, or `HH:MM:SS;FF` for drop-frame.
pub open spec fn timecode_text(tc: SmpteTimecode) -> Seq<char> {
    dec2(tc.hours as nat) + seq![':'] + dec2(tc.minutes as nat) + seq![':'] + dec2(tc.seconds as nat)
        + seq![if tc.drop_frame { ';' } else { ':' }] + dec2(tc.frames as nat)
}

/// The nominal integer frame rate (numerator divided by denominator, rounded up).
fn nominal_rate(rate: FrameRate) -> (r: u64)
    requires
        rate.denominator > 0,
    ensures
        r == nominal_fps(rate),
{
    ((rate.numerator as u64) + (rate.denominator as u64) - 1) / (rate.denominator as u64)
}

/// `x == (x / d) * d + x % d` with `0 <= x % d < d`, for `x >= 0`, `d > 0`.
proof fn lemma_div_mod(x: int, d: int)
    requires
        x >= 0,
        d > 0,
    ensures
        x == (x / d) * d + x % d,
        0 <= x % d < d,
        x / d >= 0,
{
    assert(x == (x / d) * d + x % d && 0 <= x % d < d && x / d >= 0) by (nonlinear_arith)
        requires x >= 0, d > 0;
}

/// Converting a frame number to a non-drop-frame timecode and back gives the
/// same frame number, whenever the hours fit in `u32`.
pub proof fn lemma_nondrop_round_trip(fc: int, fps: int)
    requires
        fc >= 0,
        1 <= fps <= u32::MAX,
        nondrop_total_hours(fc, fps) <= u32::MAX,
    ensures
        nondrop_count(nondrop_timecode(fc, fps), fps) == fc,
{
    let q1 = fc / fps;
    let q2 = q1 / 60;
    let hh = q2 / 60;
    lemma_div_mod(fc, fps);
    lemma_div_mod(q1, 60);
    lemma_div_mod(q2, 60);
    let mm = q2 % 60;
    let ss = q1 % 60;
    let ff = fc % fps;
    let tc = nondrop_timecode(fc, fps);
    assert(tc.hours == hh && tc.minutes == mm && tc.seconds == ss && tc.frames == ff);
    assert(hh * 3600 * fps + mm * 60 * fps + ss * fps + ff == fc) by (nonlinear_arith)
        requires fc == q1 * fps + ff, q1 == q2 * 60 + ss, q2 == hh * 60 + mm;
}

/// Converting a frame number to a drop-frame timecode and back gives the
/// same frame number, whenever the hours fit in `u32`; the timecode never
/// names one of the two dropped frame numbers of a minute.
pub proof fn lemma_drop_round_trip(fc: int, fps: int)
    requires
        fc >= 0,
        1 <= fps <= u32::MAX,
        drop_total_minutes(fc, fps) / 60 <= u32::MAX,
    ensures
        drop_count(drop_timecode(fc, fps), fps) == fc,
        ({
            let tc = drop_timecode(fc, fps);
            (tc.hours * 60 + tc.minutes) % 10 > 0 ==> tc.seconds * fps + tc.frames >= 2
        }),
{
    let fpm = frames_per_minute(fps);
    let f10 = frames_per_10min(fps);
    assert(fpm >= 58 && f10 == fpm * 10 + 2);
    let d = fc / f10;
    let m = fc % f10;
    lemma_div_mod(fc, f10);
    let (mib, fim) = drop_minute_and_frame(fc, fps);
    let tm = drop_total_minutes(fc, fps);
    assert(tm == d * 10 + mib);
    if m < fps * 60 {
        assert(mib == 0 && fim == m);
    } else {
        let m2 = m - fps * 60;
        lemma_div_mod(m2, fpm);
        assert(m2 < fpm * 9) by (nonlinear_arith)
            requires m2 == m - fps * 60, m < f10, f10 == fpm * 10 + 2, fpm == fps * 60 - 2;
        assert(m2 / fpm < 9) by (nonlinear_arith)
            requires m2 < fpm * 9, fpm > 0, m2 >= 0, m2 == (m2 / fpm) * fpm + m2 % fpm, m2 % fpm >= 0;
        assert(mib == m2 / fpm + 1 && fim == m2 % fpm);
    }
    assert(0 <= mib <= 9);
    lemma_div_mod(tm, 60);
    lemma_div_mod(tm, 10);
    assert(tm / 10 == d && tm % 10 == mib) by (nonlinear_arith)
        requires tm == d * 10 + mib, 0 <= mib < 10, d >= 0,
            tm == (tm / 10) * 10 + tm % 10, 0 <= tm % 10 < 10;
    let shown = if mib > 0 { fim + 2 } else { fim };
    assert(fim >= 0);
    lemma_div_mod(shown, fps);
    let tc = drop_timecode(fc, fps);
    assert(shown < fps * 60);
    assert(shown / fps < 60) by (nonlinear_arith)
        requires shown >= 0, fps >= 1, shown == (shown / fps) * fps + shown % fps, shown % fps >= 0,
            shown < fps * 60;
    assert(tc.hours == tm / 60 && tc.minutes == tm % 60);
    assert(tc.seconds == shown / fps && tc.frames == shown % fps);
    assert(tc.hours * 60 + tc.minutes == tm);
    assert(tc.seconds * fps + tc.frames == shown);
}

/// A drop-frame timecode is always in range: frames below the nominal
/// rate, seconds and minutes below 60, and frame numbers 00 and 01 are
/// never shown at the start of a minute, except every tenth minute.
pub proof fn lemma_drop_timecode_ranges(fc: int, fps: int)
    requires
        fc >= 0,
        1 <= fps <= u32::MAX,
    ensures
        ({
            let tc = drop_timecode(fc, fps);
            &&& tc.drop_frame
            &&& tc.frames < fps
            &&& tc.seconds < 60
            &&& tc.minutes < 60
            &&& tc.seconds == 0 && tc.minutes % 10 != 0 ==> tc.frames >= 2
        }),
{
    let fpm = frames_per_minute(fps);
    let f10 = frames_per_10min(fps);
    assert(fpm >= 58 && f10 == fpm * 10 + 2);
    let d = fc / f10;
    let m = fc % f10;
    lemma_div_mod(fc, f10);
    let (mib, fim) = drop_minute_and_frame(fc, fps);
    let tm = drop_total_minutes(fc, fps);
    assert(tm == d * 10 + mib);
    if m < fps * 60 {
        assert(mib == 0 && fim == m);
    } else {
        let m2 = m - fps * 60;
        lemma_div_mod(m2, fpm);
        assert(m2 < fpm * 9) by (nonlinear_arith)
            requires m2 == m - fps * 60, m < f10, f10 == fpm * 10 + 2, fpm == fps * 60 - 2;
        assert(m2 / fpm < 9) by (nonlinear_arith)
            requires m2 < fpm * 9, fpm > 0, m2 >= 0, m2 == (m2 / fpm) * fpm + m2 % fpm, m2 % fpm >= 0;
        assert(mib == m2 / fpm + 1 && fim == m2 % fpm);
    }
    assert(0 <= mib <= 9);
    lemma_div_mod(tm, 60);
    lemma_div_mod(tm, 10);
    assert(tm / 10 == d && tm % 10 == mib) by (nonlinear_arith)
        requires tm == d * 10 + mib, 0 <= mib < 10, d >= 0,
            tm == (tm / 10) * 10 + tm % 10, 0 <= tm % 10 < 10;
    let mm = tm % 60;
    lemma_div_mod(mm, 10);
    assert(mm % 10 == tm % 10) by (nonlinear_arith)
        requires tm == (tm / 60) * 60 + mm, 0 <= mm < 60, mm == (mm / 10) * 10 + mm % 10, 0 <= mm % 10 < 10,
            tm == (tm / 10) * 10 + tm % 10, 0 <= tm % 10 < 10;
    let shown = if mib > 0 { fim + 2 } else { fim };
    assert(fim >= 0);
    lemma_div_mod(shown, fps);
    let tc = drop_timecode(fc, fps);
    assert(shown < fps * 60);
    assert(shown / fps < 60) by (nonlinear_arith)
        requires shown >= 0, fps >= 1, shown == (shown / fps) * fps + shown % fps, shown % fps >= 0,
            shown < fps * 60;
    assert(tc.minutes == mm && tc.seconds == shown / fps && tc.frames == shown % fps);
    if tc.seconds == 0 && tc.minutes % 10 != 0 {
        assert(mib > 0);
        assert(shown / fps == 0);
        assert(shown == shown % fps) by (nonlinear_arith)
            requires shown == (shown / fps) * fps + shown % fps, shown / fps == 0;
    }
}

/// A timestamp on a frame boundary (`n` frames at `rate`, in the rate's own
/// timebase) converts to the timecode of frame `n`, and that timecode names
/// frame `n` again, so converting it back gives the same ticks.
pub proof fn lemma_frame_aligned_round_trip(ts: Timestamp, rate: FrameRate, n: int, drop_frame: bool)
    requires
        rate.numerator > 0,
        rate.denominator > 0,
        0 <= n <= u64::MAX,
        ts.ticks() == n * rate.denominator,
        ts.timebase() == rate.numerator,
        drop_frame ==> drop_total_minutes(n, nominal_fps(rate)) / 60 <= u32::MAX,
        !drop_frame ==> nondrop_total_hours(n, nominal_fps(rate)) <= u32::MAX,
    ensures
        frame_count_of(ts, rate) == n,
        count_of(timecode_of(n, nominal_fps(rate), drop_frame), nominal_fps(rate)) == n,
        count_fits(timecode_of(n, nominal_fps(rate), drop_frame), nominal_fps(rate)),
{
    let b = rate.numerator * rate.denominator;
    assert(ts.ticks() * rate.numerator == n * b && b > 0 && ts.ticks() >= 0) by (nonlinear_arith)
        requires ts.ticks() == n * rate.denominator, n >= 0, rate.numerator > 0, rate.denominator > 0,
            b == rate.numerator * rate.denominator;
    vstd::arithmetic::div_mod::lemma_div_by_multiple(n, b);
    assert(frame_count_of(ts, rate) == n);
    lemma_timestamp_round_trip_within_one_frame(ts, rate, drop_frame);
}

/// A timestamp converted to a timecode and back lands on the start of the
/// frame that holds it: the timecode names the frame count exactly, and the
/// time `count * denominator / numerator` it denotes is no later than the
/// original and less than one frame earlier.
pub proof fn lemma_timestamp_round_trip_within_one_frame(ts: Timestamp, rate: FrameRate, drop_frame: bool)
    requires
        rate.numerator > 0,
        rate.denominator > 0,
        ts.timebase() > 0,
        ts.ticks() >= 0,
        frame_count_of(ts, rate) <= u64::MAX,
        drop_frame ==> drop_total_minutes(frame_count_of(ts, rate), nominal_fps(rate)) / 60 <= u32::MAX,
        !drop_frame ==> nondrop_total_hours(frame_count_of(ts, rate), nominal_fps(rate)) <= u32::MAX,
    ensures
        ({
            let fc = frame_count_of(ts, rate);
            let tc = timecode_of(fc, nominal_fps(rate), drop_frame);
            &&& count_of(tc, nominal_fps(rate)) == fc
            &&& count_fits(tc, nominal_fps(rate))
            &&& fc * rate.denominator * ts.timebase() <= ts.ticks() * rate.numerator
            &&& ts.ticks() * rate.numerator < (fc + 1) * rate.denominator * ts.timebase()
        }),
{
    let fps = nominal_fps(rate);
    assert(1 <= fps <= u32::MAX) by (nonlinear_arith)
        requires fps == (rate.numerator + rate.denominator - 1) / (rate.denominator as int),
            1 <= rate.numerator <= u32::MAX, rate.denominator >= 1;
    let t = ts.ticks() as int;
    let n = t * rate.numerator;
    let b = ts.timebase() * rate.denominator;
    assert(n >= 0 && b > 0) by (nonlinear_arith)
        requires t >= 0, rate.numerator > 0, ts.timebase() > 0, rate.denominator > 0, n == t * rate.numerator,
            b == ts.timebase() * rate.denominator;
    let fc = n / b;
    lemma_div_mod(n, b);
    assert(fc * rate.denominator * ts.timebase() <= n && n < (fc + 1) * rate.denominator * ts.timebase())
        by (nonlinear_arith)
        requires n == fc * b + n % b, 0 <= n % b < b, b == ts.timebase() * rate.denominator;
    if drop_frame {
        lemma_drop_round_trip(fc, fps);
    } else {
        lemma_nondrop_round_trip(fc, fps);
    }
}

impl SmpteTimecode {
    /// Converts a [`Timestamp`] to a SMPTE timecode at the given frame rate.
    ///
    /// The conversion computes the total frame count from the timestamp
    /// (negative timestamps count as zero), then maps it to HH:MM:SS:FF,
    /// with the SMPTE 12M drop-frame algorithm when `drop_frame` is set
    /// (meant for 30000/1001).
    pub fn from_timestamp(ts: Timestamp, rate: FrameRate, drop_frame: bool) -> (r: SmpteTimecode)
        requires
            rate.numerator > 0,
            rate.denominator > 0,
        ensures
            r == timecode_of((frame_count_of(ts, rate) as u64) as int, nominal_fps(rate), drop_frame),
    {
        let raw = ts.ticks();
        let ticks: u128 = if raw < 0 { 0 } else { raw as u128 };
        let num = rate.numerator as u128;
        let den = rate.denominator as u128;
        let tb = ts.timebase() as u128;
        proof {
            assert(ticks * num <= 0x8000_0000_0000_0000u128 * 0xffff_ffffu128) by (nonlinear_arith)
                requires ticks <= 0x8000_0000_0000_0000u128, num <= 0xffff_ffffu128;
            assert(tb * den <= 0xffff_ffffu128 * 0xffff_ffffu128) by (nonlinear_arith)
                requires tb <= 0xffff_ffffu128, den <= 0xffff_ffffu128;
            assert(tb * den > 0) by (nonlinear_arith)
                requires tb > 0, den > 0;
        }
        let q: u128 = ticks * num / (tb * den);
        let frame_count = q as u64;
        let fps = nominal_rate(rate);
        proof {
            assert(fps >= 1) by (nonlinear_arith)
                requires fps == (rate.numerator + rate.denominator - 1) / (rate.denominator as int),
                    rate.numerator >= 1, rate.denominator >= 1;
            assert(fps <= 0xffff_ffff) by (nonlinear_arith)
                requires fps == (rate.numerator + rate.denominator - 1) / (rate.denominator as int),
                    rate.numerator <= 0xffff_ffff, rate.denominator >= 1;
        }
        if drop_frame {
            Self::from_frame_count_drop(frame_count, fps)
        } else {
            Self::from_frame_count_nondrop(frame_count, fps)
        }
    }

    /// Converts this timecode back to a [`Timestamp`] in the timebase of the
    /// frame rate's numerator.
    ///
    /// The resulting timestamp is at the start of the frame identified
    /// by this timecode.
    pub fn to_timestamp(self, rate: FrameRate) -> (r: Timestamp)
        requires
            rate.numerator > 0,
            rate.denominator > 0,
            count_fits(self, nominal_fps(rate)),
            count_of(self, nominal_fps(rate)) * rate.denominator <= i64::MAX,
        ensures
            r.ticks() == count_of(self, nominal_fps(rate)) * rate.denominator,
            r.timebase() == rate.numerator,
    {
        let fps = nominal_rate(rate);
        proof {
            assert(fps >= 1) by (nonlinear_arith)
                requires fps == (rate.numerator + rate.denominator - 1) / (rate.denominator as int),
                    rate.numerator >= 1, rate.denominator >= 1;
            assert(fps <= 0xffff_ffff) by (nonlinear_arith)
                requires fps == (rate.numerator + rate.denominator - 1) / (rate.denominator as int),
                    rate.numerator <= 0xffff_ffff, rate.denominator >= 1;
        }
        let frame_count = if self.drop_frame {
            self.to_frame_count_drop(fps)
        } else {
            self.to_frame_count_nondrop(fps)
        };
        proof {
            assert(frame_count * rate.denominator >= 0) by (nonlinear_arith)
                requires frame_count >= 0, rate.denominator >= 0;
            assert(frame_count <= i64::MAX) by (nonlinear_arith)
                requires frame_count * rate.denominator <= i64::MAX, rate.denominator >= 1, frame_count >= 0;
        }
        let ticks = frame_count as i64 * rate.denominator as i64;
        match Timestamp::new(ticks, rate.numerator) {
            Some(t) => t,
            None => {
                assert(false);
                Timestamp::new(0, 1).unwrap()
            },
        }
    }

    /// Maps a frame number to HH:MM:SS:FF without dropped frame numbers.
    fn from_frame_count_nondrop(frame_count: u64, fps: u64) -> (r: SmpteTimecode)
        requires
            1 <= fps <= 0xffff_ffff,
        ensures
            r == nondrop_timecode(frame_count as int, fps as int),
    {
        let ff = (frame_count % fps) as u32;
        let total_seconds = frame_count / fps;
        let ss = (total_seconds % 60) as u32;
        let total_minutes = total_seconds / 60;
        let mm = (total_minutes % 60) as u32;
        let hh = (total_minutes / 60) as u32;
        SmpteTimecode { hours: hh, minutes: mm, seconds: ss, frames: ff, drop_frame: false }
    }

    /// Maps a frame number to HH:MM:SS;FF, skipping frame numbers 00 and 01
    /// at the start of each minute except every tenth.
    fn from_frame_count_drop(frame_count: u64, fps: u64) -> (r: SmpteTimecode)
        requires
            1 <= fps <= 0xffff_ffff,
        ensures
            r == drop_timecode(frame_count as int, fps as int),
    {
        let drop_frames: u64 = 2;
        let frames_per_minute = fps * 60 - drop_frames;
        let frames_per_10min = frames_per_minute * 10 + drop_frames;
        let d = frame_count / frames_per_10min;
        let m = frame_count % frames_per_10min;
        let (minute_in_block, frame_in_minute) = if m < fps * 60 {
            (0u64, m)
        } else {
            let m2 = m - fps * 60;
            (m2 / frames_per_minute + 1, m2 % frames_per_minute)
        };
        proof {
            assert(d * 582 <= frame_count) by (nonlinear_arith)
                requires d == frame_count / frames_per_10min, frames_per_10min >= 582;
            assert(minute_in_block <= 9) by (nonlinear_arith)
                requires
                    frames_per_minute == fps * 60 - 2,
                    frames_per_10min == frames_per_minute * 10 + 2,
                    m < frames_per_10min,
                    fps >= 1,
                    m >= fps * 60 ==> minute_in_block == (m - fps * 60) / (frames_per_minute as int) + 1,
                    m < fps * 60 ==> minute_in_block == 0;
            assert(frame_in_minute < frames_per_10min);
        }
        let total_minutes = d * 10 + minute_in_block;
        let hh = (total_minutes / 60) as u32;
        let mm = (total_minutes % 60) as u32;
        let (ss, ff) = if minute_in_block > 0 {
            let adjusted = frame_in_minute + drop_frames;
            ((adjusted / fps) as u32, (adjusted % fps) as u32)
        } else {
            ((frame_in_minute / fps) as u32, (frame_in_minute % fps) as u32)
        };
        SmpteTimecode { hours: hh, minutes: mm, seconds: ss, frames: ff, drop_frame: true }
    }

    /// The frame number a non-drop-frame timecode names.
    fn to_frame_count_nondrop(self, fps: u64) -> (r: u64)
        requires
            1 <= fps <= 0xffff_ffff,
            nondrop_count(self, fps as int) <= u64::MAX,
        ensures
            r == nondrop_count(self, fps as int),
    {
        proof {
            assert(self.hours * 3600 * fps <= nondrop_count(self, fps as int)) by (nonlinear_arith)
                requires self.minutes * 60 * fps >= 0, self.seconds * fps >= 0, self.frames >= 0,
                    nondrop_count(self, fps as int) == self.hours * 3600 * fps + self.minutes * 60 * fps
                        + self.seconds * fps + self.frames;
            assert(self.minutes * 60 * fps >= 0 && self.seconds * fps >= 0 && self.hours * 3600 * fps >= 0)
                by (nonlinear_arith) requires fps >= 0;
        }
        self.hours as u64 * 3600 * fps + self.minutes as u64 * 60 * fps + self.seconds as u64 * fps
            + self.frames as u64
    }

    /// The frame number a drop-frame timecode names.
    fn to_frame_count_drop(self, fps: u64) -> (r: u64)
        requires
            1 <= fps <= 0xffff_ffff,
            drop_count(self, fps as int) <= u64::MAX,
            (self.hours * 60 + self.minutes) % 10 > 0 ==> self.seconds * fps + self.frames >= 2,
        ensures
            r == drop_count(self, fps as int),
    {
        let drop_frames: u64 = 2;
        let frames_per_minute = fps * 60 - drop_frames;
        let frames_per_10min = frames_per_minute * 10 + drop_frames;
        let total_minutes = self.hours as u64 * 60 + self.minutes as u64;
        let d = total_minutes / 10;
        let minute_in_block = total_minutes % 10;
        proof {
            assert(self.seconds * fps <= 0xffff_ffff * 0xffff_ffff) by (nonlinear_arith)
                requires self.seconds <= 0xffff_ffff, fps <= 0xffff_ffff;
        }
        let frame_in_minute = if minute_in_block > 0 {
            self.seconds as u64 * fps + self.frames as u64 - drop_frames
        } else {
            self.seconds as u64 * fps + self.frames as u64
        };
        proof {
            let rest: int = if minute_in_block == 0 {
                frame_in_minute as int
            } else {
                fps * 60 + (minute_in_block - 1) * frames_per_minute + frame_in_minute
            };
            assert(rest >= 0 && (minute_in_block - 1) * frames_per_minute >= 0 ==> true);
            assert(minute_in_block > 0 ==> (minute_in_block - 1) * frames_per_minute >= 0) by (nonlinear_arith)
                requires frames_per_minute >= 0;
            assert(d * frames_per_10min >= 0) by (nonlinear_arith)
                requires d >= 0, frames_per_10min >= 0;
            assert(d * frames_per_10min + rest == drop_count(self, fps as int));
        }
        d * frames_per_10min + if minute_in_block == 0 {
            frame_in_minute
        } else {
            fps * 60 + (minute_in_block - 1) * frames_per_minute + frame_in_minute
        }
    }

    /// The printed form `HH:MM:SS:FF`, or `HH:MM:SS;FF` for drop-frame.
    pub fn to_string(&self) -> (r: String)
        ensures
            r@ == timecode_text(*self),
    {
        let mut s = String::new();
        push_dec2(&mut s, self.hours as u64);
        push_char(&mut s, ':');
        push_dec2(&mut s, self.minutes as u64);
        push_char(&mut s, ':');
        push_dec2(&mut s, self.seconds as u64);
        push_char(&mut s, if self.drop_frame { ';' } else { ':' });
        push_dec2(&mut s, self.frames as u64);
        assert(s@ =~= timecode_text(*self));
        s
    }
}

} // verus!
