//! What a keyframe seek lands on.

use vstd::prelude::*;
use crate::mp4::demuxer::{
    all_keys, first_keyframe, first_video, last_at_or_before, order_keys, order_key, last_keyframe, order_position, sample_of, seek_outcome, seek_track, target_in,
    SeekOutcome,
};
use crate::mp4::sample_table::SampleEntry;
use crate::mp4::track::Mp4Track;
use crate::timestamp::Timestamp;
use crate::traits::SeekMode;

verus! {

proof fn lemma_order_position(o: Seq<(usize, usize)>, x: (usize, usize))
    ensures
        order_position(o, x) matches Some(p) ==> 0 <= p < o.len() && o[p] == x,
    decreases o.len(),
{
    if o.len() > 0 {
        lemma_order_position(o.drop_last(), x);
    }
}

proof fn lemma_last_at_or_before(e: Seq<SampleEntry>, target: int)
    ensures
        last_at_or_before(e, target) matches Some(i) ==> 0 <= i < e.len() && e[i].dts <= target,
    decreases e.len(),
{
    if e.len() > 0 {
        lemma_last_at_or_before(e.drop_last(), target);
    }
}

proof fn lemma_last_keyframe(e: Seq<SampleEntry>, n: int)
    requires
        n <= e.len(),
    ensures
        last_keyframe(e, n) matches Some(k) ==> 0 <= k < n && e[k].is_keyframe
            && forall|j: int| k < j < n ==> !(#[trigger] e[j]).is_keyframe,
        last_keyframe(e, n) is None ==> forall|j: int| 0 <= j < n ==> !(#[trigger] e[j]).is_keyframe,
    decreases n,
{
    if n > 0 {
        lemma_last_keyframe(e, n - 1);
    }
}

proof fn lemma_first_video(tracks: Seq<Mp4Track>)
    ensures
        first_video(tracks) matches Some(i) ==> 0 <= i < tracks.len(),
    decreases tracks.len(),
{
    if tracks.len() > 0 {
        lemma_first_video(tracks.drop_last());
    }
}

proof fn lemma_first_keyframe_none(e: Seq<SampleEntry>, j: int)
    requires
        first_keyframe(e) is None,
        0 <= j < e.len(),
    ensures
        !e[j].is_keyframe,
    decreases e.len(),
{
    if j < e.len() - 1 {
        assert(e.drop_last()[j] == e[j]);
        lemma_first_keyframe_none(e.drop_last(), j);
    }
}

proof fn lemma_first_keyframe(e: Seq<SampleEntry>)
    ensures
        first_keyframe(e) matches Some(k) ==> 0 <= k < e.len() && e[k].is_keyframe
            && forall|j: int| 0 <= j < k ==> !(#[trigger] e[j]).is_keyframe,
    decreases e.len(),
{
    if e.len() > 0 {
        let d = e.drop_last();
        lemma_first_keyframe(d);
        assert forall|j: int| 0 <= j < e.len() - 1 implies d[j] == e[j] by {}
        if first_keyframe(d) is None {
            assert forall|j: int| 0 <= j < e.len() - 1 implies !(#[trigger] e[j]).is_keyframe by {
                assert(d[j] == e[j]);
                lemma_first_keyframe_none(d, j);
            }
        }
    }
}

/// The sample a seek to `target_ticks` aims at: the last one due by then,
/// or the first when none is.
pub open spec fn seek_at(e: Seq<SampleEntry>, target_ticks: int) -> int {
    match last_at_or_before(e, target_ticks) {
        Some(i) => i,
        None => 0,
    }
}

/// A keyframe seek lands on a keyframe: when it succeeds, the read position
/// it sets names a keyframe sample of the seek track (the first video track,
/// else the first track): the last keyframe at or before the sample the
/// target falls on, or, when there is none, the track's first keyframe.
/// So the next packet read starts at that keyframe.
pub proof fn lemma_keyframe_seek(tracks: Seq<Mp4Track>, order: Seq<(usize, usize)>, target: Timestamp)
    requires
        tracks.len() <= usize::MAX,
        forall|i: int| 0 <= i < tracks.len() ==> (#[trigger] tracks[i]).sample_table.entries@.len() <= usize::MAX,
        seek_outcome(tracks, order, target, SeekMode::Keyframe) is At,
    ensures
        ({
            let p = seek_outcome(tracks, order, target, SeekMode::Keyframe)->At_0;
            let ti = seek_track(tracks)->Some_0;
            let e = tracks[ti].sample_table.entries@;
            let at = seek_at(e, target_in(target, tracks[ti].sample_table.timescale)->Some_0);
            let k = order[p].1 as int;
            &&& 0 <= p < order.len()
            &&& order[p].0 == ti
            &&& 0 <= k < e.len()
            &&& sample_of(tracks, order[p]).is_keyframe
            &&& k <= at ==> forall|j: int| k < j <= at ==> !(#[trigger] e[j]).is_keyframe
            &&& k > at ==> forall|j: int| 0 <= j < k ==> !(#[trigger] e[j]).is_keyframe
        }),
{
    lemma_first_video(tracks);
    let ti = seek_track(tracks)->Some_0;
    assert(0 <= ti < tracks.len());
    let t = tracks[ti];
    let e = t.sample_table.entries@;
    let target_ticks = target_in(target, t.sample_table.timescale)->Some_0;
    let at = seek_at(e, target_ticks);
    lemma_last_at_or_before(e, target_ticks);
    assert(0 <= at < e.len());
    lemma_last_keyframe(e, at + 1);
    lemma_first_keyframe(e);
    let c = match last_keyframe(e, at + 1) {
        Some(k) => k,
        None => first_keyframe(e)->Some_0,
    };
    lemma_order_position(order, (ti as usize, c as usize));
}


proof fn lemma_order_position_found(o: Seq<(usize, usize)>, x: (usize, usize), i: int)
    requires
        0 <= i < o.len(),
        o[i] == x,
    ensures
        order_position(o, x) is Some,
    decreases o.len(),
{
    if i < o.len() - 1 {
        assert(o.drop_last()[i] == x);
        lemma_order_position_found(o.drop_last(), x, i);
    }
}

proof fn lemma_all_keys_has(tracks: Seq<Mp4Track>, n: int, ti: int, c: int)
    requires
        0 <= ti < n <= tracks.len(),
        0 <= c < tracks[ti].sample_table.entries@.len(),
    ensures
        all_keys(tracks, n).contains((tracks[ti].sample_table.entries@[c].offset, ti as u64, c as u64)),
    decreases n,
{
    let key = (tracks[ti].sample_table.entries@[c].offset, ti as u64, c as u64);
    let prev = all_keys(tracks, n - 1);
    let t = tracks[n - 1];
    let add = Seq::new(
        t.sample_table.entries@.len(),
        |s: int| (t.sample_table.entries@[s].offset, (n - 1) as u64, s as u64),
    );
    assert(all_keys(tracks, n) == prev + add);
    if ti == n - 1 {
        assert((prev + add)[prev.len() + c] == key);
    } else {
        lemma_all_keys_has(tracks, n - 1, ti, c);
        let j = choose|j: int| 0 <= j < prev.len() && prev[j] == key;
        assert((prev + add)[j] == key);
    }
}

/// A keyframe seek succeeds whenever there is something to land on: when
/// the read order holds every sample once (as an opened demuxer's does, and
/// keeps through reads and seeks), the seek track has a keyframe, its
/// timescale is set and the target converts to it.
pub proof fn lemma_keyframe_seek_succeeds(tracks: Seq<Mp4Track>, order: Seq<(usize, usize)>, target: Timestamp)
    requires
        tracks.len() <= usize::MAX,
        forall|i: int| 0 <= i < tracks.len() ==> (#[trigger] tracks[i]).sample_table.entries@.len() <= usize::MAX,
        order_keys(tracks, order).to_multiset() == all_keys(tracks, tracks.len() as int).to_multiset(),
        seek_track(tracks) is Some,
        ({
            let t = tracks[seek_track(tracks)->Some_0];
            &&& t.sample_table.timescale > 0
            &&& target_in(target, t.sample_table.timescale) is Some
            &&& exists|j: int| 0 <= j < t.sample_table.entries@.len() && (#[trigger] t.sample_table.entries@[j]).is_keyframe
        }),
    ensures
        seek_outcome(tracks, order, target, SeekMode::Keyframe) is At,
{
    lemma_first_video(tracks);
    let ti = seek_track(tracks)->Some_0;
    assert(0 <= ti < tracks.len());
    let t = tracks[ti];
    let e = t.sample_table.entries@;
    let jk = choose|j: int| 0 <= j < e.len() && (#[trigger] e[j]).is_keyframe;
    let target_ticks = target_in(target, t.sample_table.timescale)->Some_0;
    let at = seek_at(e, target_ticks);
    lemma_last_at_or_before(e, target_ticks);
    lemma_last_keyframe(e, at + 1);
    lemma_first_keyframe(e);
    if first_keyframe(e) is None {
        lemma_first_keyframe_none(e, jk);
    }
    let c = match last_keyframe(e, at + 1) {
        Some(k) => k,
        None => first_keyframe(e)->Some_0,
    };
    assert(0 <= c < e.len());
    let key = (e[c].offset, ti as u64, c as u64);
    lemma_all_keys_has(tracks, tracks.len() as int, ti, c);
    let all = all_keys(tracks, tracks.len() as int);
    let ok = order_keys(tracks, order);
    vstd::seq_lib::to_multiset_contains(all, key);
    vstd::seq_lib::to_multiset_contains(ok, key);
    assert(ok.contains(key));
    let i = choose|i: int| 0 <= i < ok.len() && ok[i] == key;
    assert(order_key(tracks, order[i]) == key);
    let x = (ti as usize, c as usize);
    assert(order[i] == x);
    lemma_order_position_found(order, x, i);
}


proof fn lemma_first_video_is_first(tracks: Seq<Mp4Track>)
    ensures
        first_video(tracks) matches Some(i) ==> 0 <= i < tracks.len() && tracks[i].handler_type is Video
            && forall|j: int| 0 <= j < i ==> !((#[trigger] tracks[j]).handler_type is Video),
        first_video(tracks) is None ==> forall|j: int| 0 <= j < tracks.len() ==> !((#[trigger] tracks[j]).handler_type is Video),
    decreases tracks.len(),
{
    if tracks.len() > 0 {
        let d = tracks.drop_last();
        lemma_first_video_is_first(d);
        assert forall|j: int| 0 <= j < tracks.len() - 1 implies d[j] == tracks[j] by {}
    }
}

/// A seek works on the first video track when the movie has one, else on
/// track 0: the read position a successful seek sets (in either mode)
/// names a sample of a video track with no video track before it, or,
/// with no video track at all, a sample of track 0.
pub proof fn lemma_seek_uses_first_video_track(
    tracks: Seq<Mp4Track>,
    order: Seq<(usize, usize)>,
    target: Timestamp,
    mode: SeekMode,
)
    requires
        tracks.len() <= usize::MAX,
        seek_outcome(tracks, order, target, mode) is At,
    ensures
        ({
            let p = seek_outcome(tracks, order, target, mode)->At_0;
            let ti = order[p].0 as int;
            &&& 0 <= p < order.len()
            &&& 0 <= ti < tracks.len()
            &&& (exists|j: int| 0 <= j < tracks.len() && (#[trigger] tracks[j]).handler_type is Video) ==> {
                &&& tracks[ti].handler_type is Video
                &&& forall|j: int| 0 <= j < ti ==> !((#[trigger] tracks[j]).handler_type is Video)
            }
            &&& !(exists|j: int| 0 <= j < tracks.len() && (#[trigger] tracks[j]).handler_type is Video) ==> ti == 0
        }),
{
    lemma_first_video_is_first(tracks);
    lemma_first_video(tracks);
    let ti = seek_track(tracks)->Some_0;
    let t = tracks[ti];
    let e = t.sample_table.entries@;
    let target_ticks = target_in(target, t.sample_table.timescale)->Some_0;
    let at = seek_at(e, target_ticks);
    let c = match mode {
        SeekMode::Precise => at,
        SeekMode::Keyframe => match last_keyframe(e, at + 1) {
            Some(k) => k,
            None => first_keyframe(e)->Some_0,
        },
    };
    lemma_order_position(order, (ti as usize, c as usize));
    if exists|j: int| 0 <= j < tracks.len() && (#[trigger] tracks[j]).handler_type is Video {
        let j = choose|j: int| 0 <= j < tracks.len() && (#[trigger] tracks[j]).handler_type is Video;
        assert(first_video(tracks) is Some);
    }
}

} // verus!
