//! The moov box the muxer writes, as the demuxer walks it: which of its
//! boxes are trak boxes, and what the tracks read from them hold.

use vstd::prelude::*;
use crate::mp4::box_builders::{box_bytes, lemma_box_reads_back, mvhd_body, mvhd_tag};
use crate::mp4::metadata::MetadataBox;
use crate::mp4::muxer::{longest_ticks, metadata_bytes, moov_box, moov_tag, trak_box, trak_tag, traks_bytes, MuxTrack};
use crate::mp4::boxes::{box_step, box_total, header_len, BoxStep};
use crate::mp4::demuxer::{body_at, is_trak_at, kept_trak, movie_timescale, tracks_read_from, walk_positions};
use crate::mp4::track::Mp4Track;
use crate::mp4::track_parsing::{mdhd_tag, mdia_tag, track_duration, track_read, trak_handler};
use crate::mp4::boxes::stsd::{found_body, CodecConfig};
use crate::mp4::muxer::{handler_for, media_ticks, movie_ticks};
use crate::mp4::round_trip::dts_steps_in_u32;
use crate::mp4::round_trip::{is_box, payload};
use crate::wire::{seq_be32, seq_be64};

verus! {

/// Positions moved by `k`.
pub open spec fn shift_all(ps: Seq<int>, k: int) -> Seq<int> {
    Seq::new(ps.len(), |i: int| ps[i] + k)
}

/// The type of the box at `p`.
pub open spec fn tag_at(s: Seq<u8>, p: int) -> Seq<u8> {
    s.subrange(p + 4, p + 8)
}

proof fn lemma_be32_after(a: Seq<u8>, b: Seq<u8>, k: int)
    requires
        0 <= k,
        k + 4 <= b.len(),
    ensures
        seq_be32(a + b, a.len() + k) == seq_be32(b, k),
{
    assert((a + b)[a.len() + k] == b[k]);
    assert((a + b)[a.len() + k + 1] == b[k + 1]);
    assert((a + b)[a.len() + k + 2] == b[k + 2]);
    assert((a + b)[a.len() + k + 3] == b[k + 3]);
}

proof fn lemma_be64_after(a: Seq<u8>, b: Seq<u8>, k: int)
    requires
        0 <= k,
        k + 8 <= b.len(),
    ensures
        seq_be64(a + b, a.len() + k) == seq_be64(b, k),
{
    assert((a + b)[a.len() + k] == b[k]);
    assert((a + b)[a.len() + k + 1] == b[k + 1]);
    assert((a + b)[a.len() + k + 2] == b[k + 2]);
    assert((a + b)[a.len() + k + 3] == b[k + 3]);
    assert((a + b)[a.len() + k + 4] == b[k + 4]);
    assert((a + b)[a.len() + k + 5] == b[k + 5]);
    assert((a + b)[a.len() + k + 6] == b[k + 6]);
    assert((a + b)[a.len() + k + 7] == b[k + 7]);
}

/// The box at a position of `b` is the same box, with the same type and
/// body, after a prefix.
proof fn lemma_box_after(a: Seq<u8>, b: Seq<u8>, q: int)
    requires
        0 <= q <= b.len(),
    ensures
        box_step(a + b, a.len() + q) == box_step(b, q),
        box_step(b, q) == BoxStep::Whole ==> {
            &&& box_total(a + b, a.len() + q) == box_total(b, q)
            &&& tag_at(a + b, a.len() + q) == tag_at(b, q)
            &&& body_at(a + b, a.len() + q) == body_at(b, q)
        },
{
    let s = a + b;
    let p = a.len() + q;
    if q + 8 <= b.len() {
        lemma_be32_after(a, b, q);
        if seq_be32(b, q) == 1 && q + 16 <= b.len() {
            lemma_be64_after(a, b, q + 8);
        }
        assert(tag_at(s, p) =~= tag_at(b, q));
        if box_step(b, q) == BoxStep::Whole {
            crate::mp4::track_parsing::lemma_box_in_data(b, q);
            assert(body_at(s, p) =~= body_at(b, q));
        }
    }
}

/// The walk over the boxes that follow a prefix is the walk over them
/// alone, moved by the prefix's length.
proof fn lemma_walk_after(a: Seq<u8>, b: Seq<u8>, q: int)
    requires
        0 <= q <= b.len(),
    ensures
        walk_positions(a + b, a.len() + q) == shift_all(walk_positions(b, q), a.len() as int),
    decreases b.len() - q,
{
    lemma_box_after(a, b, q);
    if box_step(b, q) == BoxStep::Whole {
        crate::mp4::track_parsing::lemma_box_in_data(b, q);
        let q2 = q + box_total(b, q);
        lemma_walk_after(a, b, q2);
        assert(walk_positions(a + b, a.len() + q) =~= shift_all(walk_positions(b, q), a.len() as int));
    } else {
        assert(walk_positions(a + b, a.len() + q) =~= shift_all(walk_positions(b, q), a.len() as int));
    }
}

/// Boxes back to back.
pub open spec fn concat(bs: Seq<Seq<u8>>) -> Seq<u8>
    decreases bs.len(),
{
    if bs.len() == 0 {
        seq![]
    } else {
        bs[0] + concat(bs.drop_first())
    }
}

/// Where each of the boxes `bs` starts when they are laid back to back.
pub open spec fn starts(bs: Seq<Seq<u8>>) -> Seq<int>
    decreases bs.len(),
{
    if bs.len() == 0 {
        seq![]
    } else {
        seq![0int] + shift_all(starts(bs.drop_first()), bs[0].len() as int)
    }
}

/// Every one of `bs` is one whole box with a 32-bit size.
pub open spec fn all_boxes(bs: Seq<Seq<u8>>) -> bool {
    &&& forall|i: int| 0 <= i < bs.len() ==> is_box(#[trigger] bs[i], tag_at(bs[i], 0))
    &&& concat(bs).len() <= u32::MAX
}

proof fn lemma_concat_len(bs: Seq<Seq<u8>>, i: int)
    requires
        0 <= i < bs.len(),
    ensures
        bs[i].len() <= concat(bs).len(),
    decreases bs.len(),
{
    if i > 0 {
        lemma_concat_len(bs.drop_first(), i - 1);
    }
}

/// Walking boxes laid back to back passes each box's start, and finds there
/// the box's type and body.
pub proof fn lemma_walk_concat(bs: Seq<Seq<u8>>)
    requires
        all_boxes(bs),
    ensures
        walk_positions(concat(bs), 0) == starts(bs),
        starts(bs).len() == bs.len(),
        forall|i: int| 0 <= i < bs.len() ==> {
            &&& 0 <= #[trigger] starts(bs)[i] < concat(bs).len()
            &&& box_step(concat(bs), starts(bs)[i]) == BoxStep::Whole
            &&& tag_at(concat(bs), starts(bs)[i]) == tag_at(bs[i], 0)
            &&& body_at(concat(bs), starts(bs)[i]) == payload(bs[i])
        },
    decreases bs.len(),
{
    if bs.len() > 0 {
        let rest = bs.drop_first();
        assert forall|i: int| 0 <= i < rest.len() implies is_box(#[trigger] rest[i], tag_at(rest[i], 0)) by {
            assert(rest[i] == bs[i + 1]);
        }
        lemma_concat_len(bs, 0);
        assert(concat(bs) == bs[0] + concat(rest));
        assert(concat(rest).len() <= concat(bs).len());
        lemma_walk_concat(rest);
        let b0 = bs[0];
        let t0 = tag_at(b0, 0);
        assert(is_box(b0, t0));
        let body = payload(b0);
        let all = b0 + concat(rest);
        assert(b0 == box_bytes(t0, body));
        assert(all.subrange(0, 8 + body.len() as int) =~= b0);
        lemma_box_reads_back(all, 0, t0, body);
        lemma_walk_after(b0, concat(rest), 0);
        assert(b0.len() == 8 + body.len());
        assert(walk_positions(all, 0) =~= starts(bs));
        assert forall|i: int| 0 <= i < bs.len() implies {
            &&& 0 <= #[trigger] starts(bs)[i] < concat(bs).len()
            &&& box_step(concat(bs), starts(bs)[i]) == BoxStep::Whole
            &&& tag_at(concat(bs), starts(bs)[i]) == tag_at(bs[i], 0)
            &&& body_at(concat(bs), starts(bs)[i]) == payload(bs[i])
        } by {
            if i == 0 {
                assert(tag_at(all, 0) =~= t0);
                assert(body_at(all, 0) =~= body);
            } else {
                assert(rest[i - 1] == bs[i]);
                assert(starts(bs)[i] == b0.len() + starts(rest)[i - 1]);
                lemma_box_after(b0, concat(rest), starts(rest)[i - 1]);
            }
        }
    }
}

proof fn lemma_concat_append(x: Seq<Seq<u8>>, y: Seq<Seq<u8>>)
    ensures
        concat(x + y) == concat(x) + concat(y),
    decreases x.len(),
{
    if x.len() == 0 {
        assert(x + y =~= y);
        assert(concat(x) + concat(y) =~= concat(y));
    } else {
        lemma_concat_append(x.drop_first(), y);
        assert((x + y).drop_first() =~= x.drop_first() + y);
        assert(concat(x + y) =~= concat(x) + concat(y));
    }
}

proof fn lemma_concat_push(x: Seq<Seq<u8>>, z: Seq<u8>)
    ensures
        concat(x.push(z)) == concat(x) + z,
{
    lemma_concat_append(x, seq![z]);
    assert(x.push(z) =~= x + seq![z]);
    assert(seq![z].drop_first() =~= Seq::<Seq<u8>>::empty());
    assert(concat(Seq::<Seq<u8>>::empty()) == Seq::<u8>::empty());
    assert(concat(seq![z]) == z + concat(Seq::<Seq<u8>>::empty()));
    assert(concat(seq![z]) =~= z);
}

/// The trak boxes the muxer writes for the first `n` tracks, one per track.
pub open spec fn trak_list(tracks: Seq<MuxTrack>, n: int) -> Seq<Seq<u8>> {
    Seq::new(n as nat, |k: int| trak_box(tracks[k], (k + 1) as u32))
}

/// The metadata boxes the muxer writes, one per box.
pub open spec fn meta_list(boxes: Seq<MetadataBox>, n: int) -> Seq<Seq<u8>> {
    Seq::new(n as nat, |k: int| boxes[k].data@)
}

#[verifier::rlimit(60)]
proof fn lemma_traks_concat(tracks: Seq<MuxTrack>, n: int)
    requires
        0 <= n,
    ensures
        traks_bytes(tracks, n) == concat(trak_list(tracks, n)),
    decreases n,
{
    if n > 0 {
        lemma_traks_concat(tracks, n - 1);
        assert(trak_list(tracks, n) =~= trak_list(tracks, n - 1).push(trak_box(tracks[n - 1], n as u32)));
        lemma_concat_push(trak_list(tracks, n - 1), trak_box(tracks[n - 1], n as u32));
    } else {
        assert(trak_list(tracks, n) =~= Seq::<Seq<u8>>::empty());
    }
}

proof fn lemma_meta_concat(boxes: Seq<MetadataBox>, n: int)
    requires
        0 <= n,
    ensures
        metadata_bytes(boxes, n) == concat(meta_list(boxes, n)),
    decreases n,
{
    if n > 0 {
        lemma_meta_concat(boxes, n - 1);
        assert(meta_list(boxes, n) =~= meta_list(boxes, n - 1).push(boxes[n - 1].data@));
        lemma_concat_push(meta_list(boxes, n - 1), boxes[n - 1].data@);
    } else {
        assert(meta_list(boxes, n) =~= Seq::<Seq<u8>>::empty());
    }
}

/// The boxes of the moov body the muxer writes: the movie header, one trak
/// per track, then the metadata boxes.
pub open spec fn moov_parts(tracks: Seq<MuxTrack>, boxes: Seq<MetadataBox>) -> Seq<Seq<u8>> {
    seq![box_bytes(mvhd_tag(), mvhd_body(1000, longest_ticks(tracks, tracks.len() as int) as u32))]
        + trak_list(tracks, tracks.len() as int) + meta_list(boxes, boxes.len() as int)
}

/// Where track `k`'s trak box starts in the moov body the muxer writes.
pub open spec fn trak_position(tracks: Seq<MuxTrack>, boxes: Seq<MetadataBox>, k: int) -> int {
    starts(moov_parts(tracks, boxes))[k + 1]
}

/// Each metadata box is one whole box, of a type other than trak.
pub open spec fn metadata_boxes_whole(boxes: Seq<MetadataBox>) -> bool {
    forall|k: int| 0 <= k < boxes.len() ==> {
        &&& is_box(#[trigger] boxes[k].data@, tag_at(boxes[k].data@, 0))
        &&& tag_at(boxes[k].data@, 0) != trak_tag()
    }
}

#[verifier::rlimit(60)]
proof fn lemma_moov_body(tracks: Seq<MuxTrack>, boxes: Seq<MetadataBox>)
    ensures
        payload(moov_box(tracks, boxes)) == concat(moov_parts(tracks, boxes)),
{
    let mv = box_bytes(mvhd_tag(), mvhd_body(1000, longest_ticks(tracks, tracks.len() as int) as u32));
    let tl = trak_list(tracks, tracks.len() as int);
    let ml = meta_list(boxes, boxes.len() as int);
    lemma_traks_concat(tracks, tracks.len() as int);
    lemma_meta_concat(boxes, boxes.len() as int);
    lemma_concat_append(seq![mv] + tl, ml);
    lemma_concat_append(seq![mv], tl);
    assert(seq![mv].drop_first() =~= Seq::<Seq<u8>>::empty());
    assert(concat(Seq::<Seq<u8>>::empty()) == Seq::<u8>::empty());
    assert(concat(seq![mv]) == mv + concat(Seq::<Seq<u8>>::empty()));
    assert(concat(seq![mv]) =~= mv);
    let body = mv + traks_bytes(tracks, tracks.len() as int) + metadata_bytes(boxes, boxes.len() as int);
    crate::mp4::round_trip::lemma_is_box(moov_tag(), body);
}

proof fn lemma_starts_increase(bs: Seq<Seq<u8>>, i: int, j: int)
    requires
        0 <= i < j < bs.len(),
        forall|k: int| 0 <= k < bs.len() ==> (#[trigger] bs[k]).len() > 0,
    ensures
        starts(bs)[i] < starts(bs)[j],
    decreases bs.len(),
{
    let rest = bs.drop_first();
    assert forall|k: int| 0 <= k < rest.len() implies (#[trigger] rest[k]).len() > 0 by {
        assert(rest[k] == bs[k + 1]);
    }
    assert(bs[0].len() > 0);
    lemma_starts_nonneg(rest, j - 1);
    assert(starts(bs)[j] == starts(rest)[j - 1] + bs[0].len());
    if i > 0 {
        lemma_starts_increase(rest, i - 1, j - 1);
        assert(starts(bs)[i] == starts(rest)[i - 1] + bs[0].len());
    } else {
        assert(starts(bs)[0] == 0);
    }
}

proof fn lemma_starts_nonneg(bs: Seq<Seq<u8>>, i: int)
    requires
        0 <= i < bs.len(),
    ensures
        starts(bs)[i] >= 0,
        starts(bs).len() == bs.len(),
    decreases bs.len(),
{
    if i > 0 {
        lemma_starts_nonneg(bs.drop_first(), i - 1);
    } else if bs.len() > 1 {
        lemma_starts_nonneg(bs.drop_first(), 0);
    } else {
        assert(bs.drop_first().len() == 0);
        assert(starts(bs.drop_first()).len() == 0);
    }
}

/// The index of the muxed track whose trak box starts at `p` of the moov
/// body the muxer writes.
pub open spec fn trak_index_at(tracks: Seq<MuxTrack>, boxes: Seq<MetadataBox>, p: int) -> int {
    choose|k: int| 0 <= k < tracks.len() && trak_position(tracks, boxes, k) == p
}

/// A trak box the muxer writes is one box of type trak.
#[verifier::rlimit(30)]
proof fn lemma_trak_is_box(t: MuxTrack, id: u32)
    ensures
        is_box(trak_box(t, id), trak_tag()),
        tag_at(trak_box(t, id), 0) == trak_tag(),
{
    let tb = trak_box(t, id);
    crate::mp4::round_trip::lemma_is_box(trak_tag(), payload(tb));
    assert(tb == box_bytes(trak_tag(), payload(tb)));
    assert(tag_at(tb, 0) =~= trak_tag());
}

proof fn lemma_trak_list_boxes(tracks: Seq<MuxTrack>, n: int)
    requires
        0 <= n <= tracks.len(),
    ensures
        forall|k: int| 0 <= k < n ==> {
            &&& is_box(#[trigger] trak_list(tracks, n)[k], trak_tag())
            &&& tag_at(trak_list(tracks, n)[k], 0) == trak_tag()
        },
{
    assert forall|k: int| 0 <= k < n implies {
        &&& is_box(#[trigger] trak_list(tracks, n)[k], trak_tag())
        &&& tag_at(trak_list(tracks, n)[k], 0) == trak_tag()
    } by {
        lemma_trak_is_box(tracks[k], (k + 1) as u32);
    }
}

#[verifier::rlimit(40)]
proof fn lemma_moov_parts_boxes(tracks: Seq<MuxTrack>, boxes: Seq<MetadataBox>)
    requires
        moov_box(tracks, boxes).len() <= u32::MAX,
        metadata_boxes_whole(boxes),
    ensures
        all_boxes(moov_parts(tracks, boxes)),
        moov_parts(tracks, boxes).len() == 1 + tracks.len() + boxes.len(),
        tag_at(moov_parts(tracks, boxes)[0], 0) != trak_tag(),
        forall|k: int| 0 <= k < tracks.len() ==> #[trigger] moov_parts(tracks, boxes)[k + 1] == trak_box(tracks[k], (k + 1) as u32),
        forall|k: int| 0 <= k < tracks.len() ==> tag_at(#[trigger] moov_parts(tracks, boxes)[k + 1], 0) == trak_tag(),
        forall|k: int| 0 <= k < boxes.len() ==> tag_at(#[trigger] moov_parts(tracks, boxes)[1 + tracks.len() + k], 0) != trak_tag(),
        forall|k: int| 0 <= k < moov_parts(tracks, boxes).len() ==> (#[trigger] moov_parts(tracks, boxes)[k]).len() > 0,
{
    let parts = moov_parts(tracks, boxes);
    let n = tracks.len() as int;
    let mbody = mvhd_body(1000, longest_ticks(tracks, n) as u32);
    let mv = box_bytes(mvhd_tag(), mbody);
    let tl = trak_list(tracks, n);
    let ml = meta_list(boxes, boxes.len() as int);
    assert(parts == seq![mv] + tl + ml);
    lemma_moov_body(tracks, boxes);
    crate::mp4::round_trip::lemma_is_box(mvhd_tag(), mbody);
    assert(tag_at(mv, 0) =~= mvhd_tag());
    assert(mvhd_tag()[0] != trak_tag()[0]);
    lemma_trak_list_boxes(tracks, n);
    assert forall|i: int| 0 <= i < parts.len() implies is_box(#[trigger] parts[i], tag_at(parts[i], 0)) && parts[i].len() > 0 by {
        if i == 0 {
        } else if i < 1 + n {
            assert(parts[i] == tl[i - 1]);
        } else {
            assert(parts[i] == ml[i - 1 - n]);
            assert(parts[i] == boxes[i - 1 - n].data@);
        }
    }
    assert forall|k: int| 0 <= k < n implies #[trigger] parts[k + 1] == trak_box(tracks[k], (k + 1) as u32)
        && tag_at(parts[k + 1], 0) == trak_tag() by {
        assert(parts[k + 1] == tl[k]);
    }
    assert forall|k: int| 0 <= k < boxes.len() implies tag_at(#[trigger] parts[1 + n + k], 0) != trak_tag() by {
        assert(parts[1 + n + k] == ml[k]);
    }
}

/// The movie timescale in the moov body the muxer writes is 1000.
#[verifier::rlimit(30)]
proof fn lemma_moov_timescale(tracks: Seq<MuxTrack>, boxes: Seq<MetadataBox>)
    requires
        moov_box(tracks, boxes).len() <= u32::MAX,
    ensures
        movie_timescale(payload(moov_box(tracks, boxes))) == 1000,
{
    let n = tracks.len() as int;
    let mbody = mvhd_body(1000, longest_ticks(tracks, n) as u32);
    let rest = traks_bytes(tracks, n) + metadata_bytes(boxes, boxes.len() as int);
    let body = box_bytes(mvhd_tag(), mbody) + traks_bytes(tracks, n) + metadata_bytes(boxes, boxes.len() as int);
    crate::mp4::round_trip::lemma_is_box(moov_tag(), body);
    assert(body =~= box_bytes(mvhd_tag(), mbody) + rest);
    crate::mp4::round_trip::lemma_search_hits(mvhd_tag(), mbody, rest);
    crate::mp4::box_builders::lemma_mvhd_round_trip(1000, longest_ticks(tracks, n) as u32);
}

/// A trak box the walk over the moov body the muxer writes passes is one of
/// the muxer's trak boxes.
#[verifier::rlimit(40)]
proof fn lemma_position_is_trak(tracks: Seq<MuxTrack>, boxes: Seq<MetadataBox>, p: int)
    requires
        moov_box(tracks, boxes).len() <= u32::MAX,
        metadata_boxes_whole(boxes),
        walk_positions(payload(moov_box(tracks, boxes)), 0).contains(p),
        tag_at(payload(moov_box(tracks, boxes)), p) == trak_tag(),
    ensures
        0 <= trak_index_at(tracks, boxes, p) < tracks.len(),
        p == trak_position(tracks, boxes, trak_index_at(tracks, boxes, p)),
        body_at(payload(moov_box(tracks, boxes)), p) == payload(
            trak_box(tracks[trak_index_at(tracks, boxes, p)], (trak_index_at(tracks, boxes, p) + 1) as u32),
        ),
{
    let m = payload(moov_box(tracks, boxes));
    let parts = moov_parts(tracks, boxes);
    let n = tracks.len() as int;
    lemma_moov_body(tracks, boxes);
    lemma_moov_parts_boxes(tracks, boxes);
    lemma_walk_concat(parts);
    let j = choose|j: int| 0 <= j < starts(parts).len() && starts(parts)[j] == p;
    assert(tag_at(parts[j], 0) == trak_tag());
    assert(j != 0);
    if j >= 1 + n {
        assert(tag_at(parts[1 + n + (j - 1 - n)], 0) != trak_tag());
    }
    let k0 = j - 1;
    assert(trak_position(tracks, boxes, k0) == p);
    let k = trak_index_at(tracks, boxes, p);
    if k != k0 {
        if k < k0 {
            lemma_starts_increase(parts, k + 1, k0 + 1);
        } else {
            lemma_starts_increase(parts, k0 + 1, k + 1);
        }
    }
    assert(parts[k0 + 1] == trak_box(tracks[k0], (k0 + 1) as u32));
}

/// Trak boxes at increasing positions are those of increasing tracks.
proof fn lemma_trak_index_order(tracks: Seq<MuxTrack>, boxes: Seq<MetadataBox>, p: int, q: int)
    requires
        moov_box(tracks, boxes).len() <= u32::MAX,
        metadata_boxes_whole(boxes),
        0 <= trak_index_at(tracks, boxes, p) < tracks.len(),
        p == trak_position(tracks, boxes, trak_index_at(tracks, boxes, p)),
        0 <= trak_index_at(tracks, boxes, q) < tracks.len(),
        q == trak_position(tracks, boxes, trak_index_at(tracks, boxes, q)),
        p < q,
    ensures
        trak_index_at(tracks, boxes, p) < trak_index_at(tracks, boxes, q),
{
    let parts = moov_parts(tracks, boxes);
    lemma_moov_parts_boxes(tracks, boxes);
    let kp = trak_index_at(tracks, boxes, p);
    let kq = trak_index_at(tracks, boxes, q);
    if kp >= kq {
        if kp > kq {
            lemma_starts_increase(parts, kq + 1, kp + 1);
        }
    }
}

/// Each track the demuxer reads from the moov body the muxer writes is read
/// from one of the muxer's trak boxes (with the movie timescale 1000), and
/// the tracks come in the order their trak boxes were written, when each
/// metadata box is one whole box of a type other than trak.
pub proof fn lemma_moov_tracks_from_traks(
    tracks: Seq<MuxTrack>,
    boxes: Seq<MetadataBox>,
    ps: Seq<int>,
    read: Seq<Mp4Track>,
)
    requires
        moov_box(tracks, boxes).len() <= u32::MAX,
        metadata_boxes_whole(boxes),
        tracks_read_from(payload(moov_box(tracks, boxes)), ps, read),
    ensures
        forall|i: int| 0 <= i < read.len() ==> {
            let k = trak_index_at(tracks, boxes, #[trigger] ps[i]);
            &&& 0 <= k < tracks.len()
            &&& ps[i] == trak_position(tracks, boxes, k)
            &&& track_read(read[i], payload(trak_box(tracks[k], (k + 1) as u32)), 1000)
        },
        forall|i: int, j: int| 0 <= i < j < read.len() ==> trak_index_at(tracks, boxes, #[trigger] ps[i])
            < trak_index_at(tracks, boxes, #[trigger] ps[j]),
{
    let m = payload(moov_box(tracks, boxes));
    lemma_moov_timescale(tracks, boxes);
    assert forall|i: int| 0 <= i < read.len() implies {
        let k = trak_index_at(tracks, boxes, #[trigger] ps[i]);
        &&& 0 <= k < tracks.len()
        &&& ps[i] == trak_position(tracks, boxes, k)
        &&& track_read(read[i], payload(trak_box(tracks[k], (k + 1) as u32)), 1000)
    } by {
        assert(tag_at(m, ps[i]) =~= m.subrange(ps[i] + 4, ps[i] + 8));
        lemma_position_is_trak(tracks, boxes, ps[i]);
    }
    assert forall|i: int, j: int| 0 <= i < j < read.len() implies trak_index_at(tracks, boxes, #[trigger] ps[i])
        < trak_index_at(tracks, boxes, #[trigger] ps[j]) by {
        assert(tag_at(m, ps[i]) =~= m.subrange(ps[i] + 4, ps[i] + 8));
        assert(tag_at(m, ps[j]) =~= m.subrange(ps[j] + 4, ps[j] + 8));
        lemma_position_is_trak(tracks, boxes, ps[i]);
        lemma_position_is_trak(tracks, boxes, ps[j]);
        lemma_trak_index_order(tracks, boxes, ps[i], ps[j]);
    }
}

/// Whether a muxed track is one whose trak box reads back in full: it has
/// samples, each decodes no earlier than the one before and at most a `u32`
/// later, its dimensions fit the 16.16 header fields, its codec can be
/// written to MP4, and an AAC sample rate fits the 16.16 field.
pub open spec fn track_reads_back(t: MuxTrack) -> bool {
    &&& 0 < t.samples@.len() < u32::MAX
    &&& dts_steps_in_u32(t.samples@)
    &&& t.track_info.video matches Some(v) ==> v.width <= 0xFFFF && v.height <= 0xFFFF
    &&& !(t.codec_config is Unknown)
    &&& t.codec_config matches CodecConfig::Mp4a { sample_rate, .. } ==> sample_rate <= 0xFFFF
}

/// A track the demuxer reads from the trak box the muxer writes for `t`
/// with id `id` is `t`: the id, dimensions, timescale, handler and codec
/// configuration written, and the muxed samples in order (decode times
/// counted from the first sample's).
pub open spec fn track_matches(r: Mp4Track, t: MuxTrack, id: u32) -> bool {
    let w: u32 = match t.track_info.video { Some(v) => v.width, None => 0 };
    let h: u32 = match t.track_info.video { Some(v) => v.height, None => 0 };
    let e = r.sample_table.entries@;
    let s = t.samples@;
    &&& r.track_id == id
    &&& r.width == w
    &&& r.height == h
    &&& r.timescale == t.timescale
    &&& r.duration == track_duration(media_ticks(t) as u32 as u64, t.timescale, movie_ticks(t) as u32 as u64, 1000)
    &&& r.handler_type == handler_for(t.track_info.kind)
    &&& r.codec_config@ == t.codec_config@
    &&& e.len() == s.len()
    &&& forall|i: int| 0 <= i < s.len() ==> {
        &&& (#[trigger] e[i]).sample_index == i
        &&& e[i].offset == s[i].offset
        &&& e[i].size == s[i].size
        &&& e[i].dts == s[i].dts - s[0].dts
        &&& e[i].cts_offset == s[i].cts_offset
        &&& e[i].is_keyframe == s[i].is_sync
    }
}

/// What `parse_track` reads from the trak box the muxer writes for `t` is
/// `t`, when its trak box reads back in full.
#[verifier::rlimit(60)]
proof fn lemma_trak_read_matches(r: Mp4Track, t: MuxTrack, id: u32)
    requires
        trak_box(t, id).len() <= u32::MAX,
        track_reads_back(t),
        track_read(r, payload(trak_box(t, id)), 1000),
    ensures
        track_matches(r, t, id),
{
    reveal(track_read);
    crate::mp4::round_trip::lemma_trak_round_trip(t, id, r.sample_table.entries@);
}

/// Reading back the moov box the muxer writes: each track the demuxer
/// reads from it is the muxed track whose trak box it was read from
/// (`track_matches`), and the tracks come in the order they were muxed;
/// this holds when every muxed track reads back in full and each metadata
/// box is one whole box of a type other than trak.
pub proof fn lemma_mux_demux_round_trip(
    tracks: Seq<MuxTrack>,
    boxes: Seq<MetadataBox>,
    ps: Seq<int>,
    read: Seq<Mp4Track>,
)
    requires
        moov_box(tracks, boxes).len() <= u32::MAX,
        metadata_boxes_whole(boxes),
        forall|k: int| 0 <= k < tracks.len() ==> track_reads_back(#[trigger] tracks[k]),
        tracks_read_from(payload(moov_box(tracks, boxes)), ps, read),
    ensures
        forall|i: int| 0 <= i < read.len() ==> {
            let k = trak_index_at(tracks, boxes, #[trigger] ps[i]);
            &&& 0 <= k < tracks.len()
            &&& track_matches(read[i], tracks[k], (k + 1) as u32)
        },
        forall|i: int, j: int| 0 <= i < j < read.len() ==> trak_index_at(tracks, boxes, #[trigger] ps[i])
            < trak_index_at(tracks, boxes, #[trigger] ps[j]),
{
    lemma_moov_tracks_from_traks(tracks, boxes, ps, read);
    assert forall|i: int| 0 <= i < read.len() implies {
        let k = trak_index_at(tracks, boxes, #[trigger] ps[i]);
        &&& 0 <= k < tracks.len()
        &&& track_matches(read[i], tracks[k], (k + 1) as u32)
    } by {
        let k = trak_index_at(tracks, boxes, ps[i]);
        lemma_moov_body(tracks, boxes);
        lemma_moov_parts_boxes(tracks, boxes);
        lemma_concat_len(moov_parts(tracks, boxes), k + 1);
        lemma_trak_read_matches(read[i], tracks[k], (k + 1) as u32);
    }
}

/// The trak box the muxer writes for a track declares the handler of the
/// track's kind.
proof fn lemma_trak_handler(t: MuxTrack, id: u32)
    requires
        trak_box(t, id).len() <= u32::MAX,
    ensures
        trak_handler(payload(trak_box(t, id))) == handler_for(t.track_info.kind),
{
    crate::mp4::round_trip::lemma_trak_boxes_found(t, id);
    crate::mp4::box_builders::lemma_hdlr_round_trip(handler_for(t.track_info.kind));
}

/// Whether the demuxer keeps a muxed track: a video or audio one.
pub open spec fn muxed_kept(t: MuxTrack) -> bool {
    t.track_info.kind is Video || t.track_info.kind is Audio
}

/// A trak box whose body is a video or audio trak is kept.
proof fn lemma_kept_at(m: Seq<u8>, p: int, tb: Seq<u8>)
    requires
        tag_at(m, p) == trak_tag(),
        body_at(m, p) == payload(tb),
        trak_handler(payload(tb)) is Video || trak_handler(payload(tb)) is Audio,
    ensures
        kept_trak(m, p),
{
}

/// The trak box of a muxed video or audio track is one the demuxer reads a
/// track from.
#[verifier::rlimit(40)]
proof fn lemma_kept_position(tracks: Seq<MuxTrack>, boxes: Seq<MetadataBox>, k: int)
    requires
        moov_box(tracks, boxes).len() <= u32::MAX,
        metadata_boxes_whole(boxes),
        0 <= k < tracks.len(),
        muxed_kept(tracks[k]),
    ensures
        ({
            let m = payload(moov_box(tracks, boxes));
            walk_positions(m, 0).filter(|p: int| kept_trak(m, p)).contains(trak_position(tracks, boxes, k))
        }),
{
    let m = payload(moov_box(tracks, boxes));
    let parts = moov_parts(tracks, boxes);
    let pred = |p: int| kept_trak(m, p);
    lemma_moov_body(tracks, boxes);
    lemma_moov_parts_boxes(tracks, boxes);
    lemma_walk_concat(parts);
    lemma_concat_len(parts, k + 1);
    let p = starts(parts)[k + 1];
    let tb = trak_box(tracks[k], (k + 1) as u32);
    assert(tag_at(m, p) == trak_tag());
    assert(body_at(m, p) == payload(tb));
    lemma_trak_handler(tracks[k], (k + 1) as u32);
    lemma_kept_at(m, p, tb);
    starts(parts).lemma_filter_contains(pred, k + 1);
}

/// A track the demuxer reads from the moov body the muxer writes comes from
/// the trak box of a muxed video or audio track.
#[verifier::rlimit(40)]
proof fn lemma_read_position_kept(tracks: Seq<MuxTrack>, boxes: Seq<MetadataBox>, i: int)
    requires
        moov_box(tracks, boxes).len() <= u32::MAX,
        metadata_boxes_whole(boxes),
        ({
            let m = payload(moov_box(tracks, boxes));
            0 <= i < walk_positions(m, 0).filter(|p: int| kept_trak(m, p)).len()
        }),
    ensures
        ({
            let m = payload(moov_box(tracks, boxes));
            let ps = walk_positions(m, 0).filter(|p: int| kept_trak(m, p));
            &&& 0 <= trak_index_at(tracks, boxes, ps[i]) < tracks.len()
            &&& muxed_kept(tracks[trak_index_at(tracks, boxes, ps[i])])
        }),
{
    let m = payload(moov_box(tracks, boxes));
    let pred = |p: int| kept_trak(m, p);
    let ps = walk_positions(m, 0).filter(pred);
    walk_positions(m, 0).lemma_filter_pred(pred, i);
    assert(ps.contains(ps[i]));
    walk_positions(m, 0).lemma_filter_contains_rev(pred, ps[i]);
    assert(tag_at(m, ps[i]) =~= m.subrange(ps[i] + 4, ps[i] + 8));
    lemma_position_is_trak(tracks, boxes, ps[i]);
    let k = trak_index_at(tracks, boxes, ps[i]);
    lemma_moov_body(tracks, boxes);
    lemma_moov_parts_boxes(tracks, boxes);
    lemma_concat_len(moov_parts(tracks, boxes), k + 1);
    lemma_trak_handler(tracks[k], (k + 1) as u32);
}

/// The positions at which the demuxer reads tracks from the moov body the
/// muxer writes are those of the trak boxes of the muxed video and audio
/// tracks: each of those is among them, and each of them is one of those.
pub proof fn lemma_demuxed_positions(tracks: Seq<MuxTrack>, boxes: Seq<MetadataBox>)
    requires
        moov_box(tracks, boxes).len() <= u32::MAX,
        metadata_boxes_whole(boxes),
    ensures
        ({
            let m = payload(moov_box(tracks, boxes));
            let ps = walk_positions(m, 0).filter(|p: int| kept_trak(m, p));
            &&& forall|k: int| 0 <= k < tracks.len() && muxed_kept(#[trigger] tracks[k])
                ==> ps.contains(trak_position(tracks, boxes, k))
            &&& forall|i: int| 0 <= i < ps.len() ==> {
                &&& 0 <= trak_index_at(tracks, boxes, #[trigger] ps[i]) < tracks.len()
                &&& muxed_kept(tracks[trak_index_at(tracks, boxes, ps[i])])
            }
        }),
{
    let m = payload(moov_box(tracks, boxes));
    let ps = walk_positions(m, 0).filter(|p: int| kept_trak(m, p));
    assert forall|k: int| 0 <= k < tracks.len() && muxed_kept(#[trigger] tracks[k])
        implies ps.contains(trak_position(tracks, boxes, k)) by {
        lemma_kept_position(tracks, boxes, k);
    }
    assert forall|i: int| 0 <= i < ps.len() implies {
        &&& 0 <= trak_index_at(tracks, boxes, #[trigger] ps[i]) < tracks.len()
        &&& muxed_kept(tracks[trak_index_at(tracks, boxes, ps[i])])
    } by {
        lemma_read_position_kept(tracks, boxes, i);
    }
}

/// A word of the movie header body, read from the moov box holding it.
proof fn lemma_moov_header_word(body: Seq<u8>, rest: Seq<u8>)
    requires
        body.len() == 100,
    ensures
        seq_be32(box_bytes(moov_tag(), box_bytes(mvhd_tag(), body) + rest), 32) == seq_be32(body, 16),
{
    let m = box_bytes(moov_tag(), box_bytes(mvhd_tag(), body) + rest);
    assert(m.subrange(16, 116) =~= body);
    assert(m[32] == m.subrange(16, 116)[16]);
    assert(m[33] == m.subrange(16, 116)[17]);
    assert(m[34] == m.subrange(16, 116)[18]);
    assert(m[35] == m.subrange(16, 116)[19]);
}

proof fn lemma_longest_bounds(tracks: Seq<MuxTrack>, n: int)
    requires
        0 <= n <= tracks.len(),
    ensures
        forall|i: int| 0 <= i < n ==> movie_ticks(#[trigger] tracks[i]) <= longest_ticks(tracks, n),
        n == 0 ==> longest_ticks(tracks, n) == 0,
        n > 0 ==> exists|i: int| 0 <= i < n && longest_ticks(tracks, n) == movie_ticks(#[trigger] tracks[i]),
    decreases n,
{
    if n > 0 {
        lemma_longest_bounds(tracks, n - 1);
        if n > 1 {
            let w = choose|i: int| 0 <= i < n - 1 && longest_ticks(tracks, n - 1) == movie_ticks(#[trigger] tracks[i]);
            assert(0 <= w < n);
        } else {
            assert(longest_ticks(tracks, n) == movie_ticks(tracks[0]));
        }
        if longest_ticks(tracks, n) == movie_ticks(tracks[n - 1]) {
            assert(0 <= n - 1 < n);
        }
    }
}

/// The movie duration the muxer writes in the moov box's movie header
/// (the word at byte 32: past the moov and mvhd headers, version and
/// flags, the two times and the timescale) is the longest track's: at
/// least every track's duration in the movie timescale and equal to one of
/// them (0 with no tracks), when each fits in 32 bits.
pub proof fn lemma_movie_duration_is_longest(tracks: Seq<MuxTrack>, boxes: Seq<MetadataBox>)
    requires
        forall|i: int| 0 <= i < tracks.len() ==> movie_ticks(#[trigger] tracks[i]) <= u32::MAX,
    ensures
        ({
            let d = seq_be32(moov_box(tracks, boxes), 32);
            &&& forall|i: int| 0 <= i < tracks.len() ==> movie_ticks(#[trigger] tracks[i]) <= d
            &&& tracks.len() == 0 ==> d == 0
            &&& tracks.len() > 0 ==> exists|i: int| 0 <= i < tracks.len() && d == movie_ticks(#[trigger] tracks[i])
        }),
{
    let n = tracks.len() as int;
    lemma_longest_bounds(tracks, n);
    let l = longest_ticks(tracks, n);
    if n > 0 {
        let w = choose|i: int| 0 <= i < n && l == movie_ticks(#[trigger] tracks[i]);
        assert(0 <= l <= u32::MAX);
    }
    assert(0 <= l <= u32::MAX);
    let body = mvhd_body(1000, l as u32);
    crate::mp4::box_builders::lemma_mvhd_round_trip(1000, l as u32);
    lemma_moov_header_word(body, traks_bytes(tracks, n) + metadata_bytes(boxes, boxes.len() as int));
    assert(moov_box(tracks, boxes) == box_bytes(moov_tag(), box_bytes(mvhd_tag(), body) + (traks_bytes(tracks, n)
        + metadata_bytes(boxes, boxes.len() as int)))) by {
        assert(box_bytes(mvhd_tag(), body) + traks_bytes(tracks, n) + metadata_bytes(boxes, boxes.len() as int)
            =~= box_bytes(mvhd_tag(), body) + (traks_bytes(tracks, n) + metadata_bytes(boxes, boxes.len() as int)));
    }
}

} // verus!
