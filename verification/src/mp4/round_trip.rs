//! What the demuxer reads back from the sample tables the muxer writes.
//!
//! Each law takes the samples a muxed track recorded, the box the muxer
//! writes for them (see `muxer`), and states
//! - what the box parser finds in the box's payload, in the terms of the
//!   parser's own contract, and
//! - what the sample-table resolution makes of those entries, in the terms
//!   of `build_sample_table`'s contract: each sample's decode time (from the
//!   first sample's), composition offset, size, file offset and sync flag.

use vstd::prelude::*;
use crate::mp4::box_builders::{
    box_bytes, dinf_tag, dref_tag, hdlr_body, mdhd_body, nmhd_tag, sample_entry, smhd_tag, stsd_tag, tkhd_body, url_tag,
    vmhd_tag, zeros,
};
use crate::mp4::box_builders::{lemma_hdlr_round_trip, lemma_mdhd_round_trip, lemma_stsd_round_trip, lemma_tkhd_round_trip};
use crate::mp4::boxes::hdlr::HandlerType;
use crate::mp4::boxes::stsd::{stsd_outcome, CodecConfig, StsdOutcome};
use crate::mp4::track_parsing::{
    mdhd_duration, mdhd_timescale, tkhd_duration, tkhd_height, tkhd_track_id, tkhd_width,
};
use crate::mp4::track_parsing::{chunk_table, hdlr_tag, mdhd_tag, mdia_tag, minf_tag, stbl_tag, stco_tag, tkhd_tag, stsz_sizes, table_cts, table_entries_match, table_sync};
use crate::mp4::boxes::ctts::ctts_table;
use crate::mp4::boxes::stsc::stsc_table;
use crate::mp4::boxes::stts::stts_table;
use crate::mp4::boxes::{box_step, box_total, header_complete, header_len, search_box, BoxStep, Search};
use crate::mp4::boxes::stsd::found_body;
use crate::mp4::boxes::ctts::CttsEntry;
use crate::mp4::boxes::stsc::StscEntry;
use crate::mp4::boxes::stts::{table_fits, SttsEntry};
use crate::mp4::mux_sample_table::{
    co64_tag, ctts_tag, expand_runs, lemma_rle_round_trip, lemma_rle_runs_differ, mux_cts, mux_deltas, rle, runs_bytes, stsc_tag, stss_tag,
    stsz_tag, stts_tag, sync_numbers, words, words64, MuxSample,
};
use crate::mp4::muxer::{
    co64_box, ctts_box, handler_for, media_header_box, media_ticks, movie_ticks, stbl_body, stsc_box, stss_box, stsz_box,
    stts_box, trak_box, trak_tag, MuxTrack,
};
use crate::mp4::sample_table::{
    ctts_expand, entries_match, entry_matches, layout, layout_fits, size_sum, stts_dts, stts_total, SampleEntry,
};
use crate::wire::{lemma_be32_roundtrip, lemma_be64_roundtrip, seq_be32, seq_be64, u32_bytes, u64_bytes};

verus! {

/// The payload of a box: what follows its 8-byte header.
pub open spec fn payload(b: Seq<u8>) -> Seq<u8> {
    b.subrange(8, b.len() as int)
}

proof fn lemma_payload_of_box(t: Seq<u8>, body: Seq<u8>)
    requires
        t.len() == 4,
    ensures
        payload(box_bytes(t, body)) == body,
{
    assert(payload(box_bytes(t, body)) =~= body);
}

/// A word read past a prefix is the word read in the rest.
proof fn lemma_be32_shift(a: Seq<u8>, b: Seq<u8>, k: int)
    requires
        0 <= k,
        k + 4 <= b.len(),
    ensures
        seq_be32(a + b, a.len() + k) == seq_be32(b, k),
{
    assert((a + b)[a.len() + k] == b[k]);
    assert((a + b)[a.len() + k + 1] == b[k + 1]);
    assert((a + b)[a.len() + k + 2] == b[k + 2]);
    assert((a + b)[a.len() + k + 3] == b[k + 3]);
}

/// A word read within a prefix is not changed by what follows.
proof fn lemma_be32_prefix(a: Seq<u8>, b: Seq<u8>, k: int)
    requires
        0 <= k,
        k + 4 <= a.len(),
    ensures
        seq_be32(a + b, k) == seq_be32(a, k),
{
    assert((a + b)[k] == a[k]);
    assert((a + b)[k + 1] == a[k + 1]);
    assert((a + b)[k + 2] == a[k + 2]);
    assert((a + b)[k + 3] == a[k + 3]);
}

proof fn lemma_be64_shift(a: Seq<u8>, b: Seq<u8>, k: int)
    requires
        0 <= k,
        k + 8 <= b.len(),
    ensures
        seq_be64(a + b, a.len() + k) == seq_be64(b, k),
{
    assert((a + b)[a.len() + k] == b[k]);
    assert((a + b)[a.len() + k + 1] == b[k + 1]);
    assert((a + b)[a.len() + k + 2] == b[k + 2]);
    assert((a + b)[a.len() + k + 3] == b[k + 3]);
    assert((a + b)[a.len() + k + 4] == b[k + 4]);
    assert((a + b)[a.len() + k + 5] == b[k + 5]);
    assert((a + b)[a.len() + k + 6] == b[k + 6]);
    assert((a + b)[a.len() + k + 7] == b[k + 7]);
}

proof fn lemma_be64_prefix(a: Seq<u8>, b: Seq<u8>, k: int)
    requires
        0 <= k,
        k + 8 <= a.len(),
    ensures
        seq_be64(a + b, k) == seq_be64(a, k),
{
    assert((a + b)[k] == a[k]);
    assert((a + b)[k + 1] == a[k + 1]);
    assert((a + b)[k + 2] == a[k + 2]);
    assert((a + b)[k + 3] == a[k + 3]);
    assert((a + b)[k + 4] == a[k + 4]);
    assert((a + b)[k + 5] == a[k + 5]);
    assert((a + b)[k + 6] == a[k + 6]);
    assert((a + b)[k + 7] == a[k + 7]);
}

proof fn lemma_u32_bytes_read(v: u32)
    ensures
        u32_bytes(v).len() == 4,
        seq_be32(u32_bytes(v), 0) == v,
{
    lemma_be32_roundtrip(v);
}

proof fn lemma_u64_bytes_read(v: u64)
    ensures
        u64_bytes(v).len() == 8,
        seq_be64(u64_bytes(v), 0) == v,
{
    lemma_be64_roundtrip(v);
}

/// Each word of `words(v)` reads back.
proof fn lemma_words_read(v: Seq<u32>)
    ensures
        words(v).len() == 4 * v.len(),
        forall|i: int| 0 <= i < v.len() ==> seq_be32(words(v), 4 * i) == #[trigger] v[i],
    decreases v.len(),
{
    if v.len() > 0 {
        let p = v.drop_last();
        lemma_words_read(p);
        lemma_u32_bytes_read(v.last());
        assert forall|i: int| 0 <= i < v.len() implies seq_be32(words(v), 4 * i) == #[trigger] v[i] by {
            if i < p.len() {
                assert(p[i] == v[i]);
                lemma_be32_prefix(words(p), u32_bytes(v.last()), 4 * i);
            } else {
                lemma_be32_shift(words(p), u32_bytes(v.last()), 0);
            }
        }
    }
}

/// Each 64-bit word of `words64(v)` reads back.
proof fn lemma_words64_read(v: Seq<u64>)
    ensures
        words64(v).len() == 8 * v.len(),
        forall|i: int| 0 <= i < v.len() ==> seq_be64(words64(v), 8 * i) == #[trigger] v[i],
    decreases v.len(),
{
    if v.len() > 0 {
        let p = v.drop_last();
        lemma_words64_read(p);
        lemma_u64_bytes_read(v.last());
        assert forall|i: int| 0 <= i < v.len() implies seq_be64(words64(v), 8 * i) == #[trigger] v[i] by {
            if i < p.len() {
                assert(p[i] == v[i]);
                lemma_be64_prefix(words64(p), u64_bytes(v.last()), 8 * i);
            } else {
                lemma_be64_shift(words64(p), u64_bytes(v.last()), 0);
            }
        }
    }
}

/// Each run of `runs_bytes(r)` reads back as its count, then its value.
proof fn lemma_runs_read(r: Seq<(u32, u32)>)
    ensures
        runs_bytes(r).len() == 8 * r.len(),
        forall|i: int| 0 <= i < r.len() ==> {
            &&& seq_be32(runs_bytes(r), 8 * i) == (#[trigger] r[i]).0
            &&& seq_be32(runs_bytes(r), 8 * i + 4) == r[i].1
        },
    decreases r.len(),
{
    if r.len() > 0 {
        let p = r.drop_last();
        lemma_runs_read(p);
        let c = r.last().0;
        let d = r.last().1;
        lemma_u32_bytes_read(c);
        lemma_u32_bytes_read(d);
        let pb = runs_bytes(p);
        let tail = u32_bytes(c) + u32_bytes(d);
        assert(runs_bytes(r) =~= pb + tail);
        lemma_be32_prefix(u32_bytes(c), u32_bytes(d), 0);
        lemma_be32_shift(u32_bytes(c), u32_bytes(d), 0);
        assert forall|i: int| 0 <= i < r.len() implies {
            &&& seq_be32(runs_bytes(r), 8 * i) == (#[trigger] r[i]).0
            &&& seq_be32(runs_bytes(r), 8 * i + 4) == r[i].1
        } by {
            if i < p.len() {
                assert(p[i] == r[i]);
                lemma_be32_prefix(pb, tail, 8 * i);
                lemma_be32_prefix(pb, tail, 8 * i + 4);
            } else {
                lemma_be32_shift(pb, tail, 0);
                lemma_be32_shift(pb, tail, 4);
            }
        }
    }
}

/// The stts entries a table of runs stands for.
pub open spec fn stts_entries(r: Seq<(u32, u32)>) -> Seq<SttsEntry> {
    Seq::new(r.len(), |i: int| SttsEntry { sample_count: r[i].0, sample_delta: r[i].1 })
}

/// Sum of the first `k` values of `d`.
pub open spec fn prefix_sum(d: Seq<u32>, k: int) -> int
    decreases k,
{
    if k <= 0 {
        0
    } else {
        prefix_sum(d, k - 1) + d[k - 1]
    }
}

/// Whether each sample decodes no earlier than the one before it, and at
/// most a `u32` later.
pub open spec fn dts_steps_in_u32(s: Seq<MuxSample>) -> bool {
    forall|i: int| 0 <= i < s.len() - 1 ==> 0 <= #[trigger] s[i + 1].dts - s[i].dts <= u32::MAX
}

proof fn lemma_prefix_sum_append(x: Seq<u32>, y: Seq<u32>, k: int)
    requires
        0 <= k <= y.len(),
    ensures
        prefix_sum(x + y, x.len() + k) == prefix_sum(x, x.len() as int) + prefix_sum(y, k),
    decreases k,
{
    if k == 0 {
        assert forall|j: int| 0 <= j <= x.len() implies prefix_sum(x + y, j) == prefix_sum(x, j) by {
            lemma_prefix_sum_agree(x + y, x, j);
        }
    } else {
        lemma_prefix_sum_append(x, y, k - 1);
        assert((x + y)[x.len() + k - 1] == y[k - 1]);
    }
}

proof fn lemma_prefix_sum_agree(a: Seq<u32>, b: Seq<u32>, j: int)
    requires
        0 <= j <= b.len(),
        j <= a.len(),
        forall|i: int| 0 <= i < j ==> a[i] == b[i],
    ensures
        prefix_sum(a, j) == prefix_sum(b, j),
    decreases j,
{
    if j > 0 {
        lemma_prefix_sum_agree(a, b, j - 1);
    }
}

proof fn lemma_prefix_sum_const(c: nat, d: u32, k: int)
    requires
        0 <= k <= c,
    ensures
        prefix_sum(Seq::new(c, |_i: int| d), k) == k * d,
    decreases k,
{
    if k > 0 {
        lemma_prefix_sum_const(c, d, k - 1);
        let run = Seq::new(c, |_i: int| d);
        assert(run[k - 1] == d);
        assert(prefix_sum(run, k) == prefix_sum(run, k - 1) + run[k - 1]);
        assert((k - 1) * d + d == k * d) by (nonlinear_arith);
    } else {
        assert(k * d == 0) by (nonlinear_arith) requires k == 0;
    }
}

/// The decode times the stts runs give are the running sums of the values
/// the runs stand for, and the runs' total is their sum.
proof fn lemma_stts_dts_sums(r: Seq<(u32, u32)>)
    ensures
        stts_dts(stts_entries(r)).len() == expand_runs(r).len(),
        stts_total(stts_entries(r)) == prefix_sum(expand_runs(r), expand_runs(r).len() as int),
        forall|i: int| 0 <= i < expand_runs(r).len() ==> #[trigger] stts_dts(stts_entries(r))[i] == prefix_sum(
            expand_runs(r),
            i,
        ),
    decreases r.len(),
{
    if r.len() > 0 {
        let p = r.drop_last();
        lemma_stts_dts_sums(p);
        let e = stts_entries(r);
        assert(e.drop_last() =~= stts_entries(p));
        let x = expand_runs(p);
        let c = r.last().0;
        let d = r.last().1;
        let run = Seq::new(c as nat, |_i: int| d);
        assert(expand_runs(r) == x + run);
        let base = stts_total(stts_entries(p));
        lemma_prefix_sum_append(x, run, c as int);
        lemma_prefix_sum_const(c as nat, d, c as int);
        assert(e.last().sample_count * e.last().sample_delta == c * d);
        assert forall|i: int| 0 <= i < expand_runs(r).len() implies #[trigger] stts_dts(e)[i] == prefix_sum(
            expand_runs(r),
            i,
        ) by {
            if i < x.len() {
                lemma_prefix_sum_agree(x + run, x, i);
            } else {
                let j = i - x.len();
                lemma_prefix_sum_append(x, run, j);
                lemma_prefix_sum_const(c as nat, d, j);
            }
        }
    }
}

/// The running sums of the muxed deltas are the decode times from the first
/// sample's.
proof fn lemma_delta_sums(s: Seq<MuxSample>, i: int)
    requires
        dts_steps_in_u32(s),
        0 <= i < s.len(),
    ensures
        prefix_sum(mux_deltas(s), i) == s[i].dts - s[0].dts,
    decreases i,
{
    if i > 0 {
        lemma_delta_sums(s, i - 1);
        let k = i - 1;
        assert(0 <= s[k + 1].dts - s[k].dts <= u32::MAX);
        assert(mux_deltas(s)[k] == (s[k + 1].dts - s[k].dts) as u32);
    }
}

/// The stts box the muxer writes for a track's samples reads back as the
/// run-length table of the sample deltas, and the decode times that table
/// gives are each sample's decode time counted from the first sample's.
pub proof fn lemma_stts_round_trip(s: Seq<MuxSample>)
    requires
        0 < s.len() <= u32::MAX,
        dts_steps_in_u32(s),
    ensures
        ({
            let b = payload(stts_box(s));
            let runs = rle(mux_deltas(s));
            &&& table_fits(b, 8)
            &&& seq_be32(b, 4) == runs.len()
            &&& forall|i: int| 0 <= i < runs.len() ==> {
                &&& seq_be32(b, 8 + 8 * i) == (#[trigger] runs[i]).0
                &&& seq_be32(b, 12 + 8 * i) == runs[i].1
            }
            &&& stts_table(b) == stts_entries(runs)
            &&& forall|i: int| 0 <= i < stts_table(b).len() - 1
                ==> #[trigger] stts_table(b)[i].sample_delta != stts_table(b)[i + 1].sample_delta
            &&& stts_dts(stts_entries(runs)).len() == s.len()
            &&& forall|i: int| 0 <= i < s.len() ==> #[trigger] stts_dts(stts_entries(runs))[i] == s[i].dts - s[0].dts
        }),
{
    let d = mux_deltas(s);
    let runs = rle(d);
    lemma_rle_round_trip(d);
    lemma_rle_len(d);
    let head = zeros(4) + u32_bytes(runs.len() as u32);
    let body = head + runs_bytes(runs);
    assert(stts_box(s) == box_bytes(stts_tag(), body));
    lemma_payload_of_box(stts_tag(), body);
    let b = payload(stts_box(s));
    lemma_runs_read(runs);
    lemma_u32_bytes_read(runs.len() as u32);
    lemma_be32_shift(zeros(4), u32_bytes(runs.len() as u32), 0);
    lemma_be32_prefix(head, runs_bytes(runs), 4);
    assert forall|i: int| 0 <= i < runs.len() implies {
        &&& seq_be32(b, 8 + 8 * i) == (#[trigger] runs[i]).0
        &&& seq_be32(b, 12 + 8 * i) == runs[i].1
    } by {
        lemma_be32_shift(head, runs_bytes(runs), 8 * i);
        lemma_be32_shift(head, runs_bytes(runs), 8 * i + 4);
    }
    lemma_stts_dts_sums(runs);
    assert forall|i: int| 0 <= i < s.len() implies #[trigger] stts_dts(stts_entries(runs))[i] == s[i].dts - s[0].dts by {
        lemma_delta_sums(s, i);
    }
    assert(stts_table(b) =~= stts_entries(runs));
    lemma_rle_runs_differ(d);
    assert forall|i: int| 0 <= i < stts_table(b).len() - 1
        implies #[trigger] stts_table(b)[i].sample_delta != stts_table(b)[i + 1].sample_delta by {
        assert(runs[i].1 != runs[i + 1].1);
    }
}

/// The ctts entries a table of runs stands for, each value read as a
/// signed offset.
pub open spec fn ctts_entries(r: Seq<(u32, u32)>) -> Seq<CttsEntry> {
    Seq::new(r.len(), |i: int| CttsEntry { sample_count: r[i].0, sample_offset: r[i].1 as i32 })
}

proof fn lemma_ctts_expand_runs(r: Seq<(u32, u32)>)
    ensures
        ctts_expand(ctts_entries(r)) == Seq::new(expand_runs(r).len(), |i: int| expand_runs(r)[i] as i32),
    decreases r.len(),
{
    if r.len() > 0 {
        let p = r.drop_last();
        lemma_ctts_expand_runs(p);
        assert(ctts_entries(r).drop_last() =~= ctts_entries(p));
        assert(ctts_expand(ctts_entries(r)) =~= Seq::new(expand_runs(r).len(), |i: int| expand_runs(r)[i] as i32));
    }
}

/// The 32 bits of an `i32` read back as unsigned and reinterpreted are the
/// same `i32`.
proof fn lemma_i32_bits(x: i32)
    ensures
        (x as u32) as i32 == x,
{
    assert((x as u32) as i32 == x) by (bit_vector);
}

/// Writes the shared full-box header of an entry table: version and flags,
/// then the entry count, ahead of `rest`; the count reads back at 4 and
/// `rest` is read from 8.
proof fn lemma_table_head(n: u32, rest: Seq<u8>)
    ensures
        ({
            let b = zeros(4) + u32_bytes(n) + rest;
            &&& b.len() == 8 + rest.len()
            &&& seq_be32(b, 4) == n
            &&& forall|k: int| 0 <= k && k + 4 <= rest.len() ==> #[trigger] seq_be32(b, 8 + k) == seq_be32(rest, k)
        }),
{
    let head = zeros(4) + u32_bytes(n);
    lemma_u32_bytes_read(n);
    lemma_be32_shift(zeros(4), u32_bytes(n), 0);
    lemma_be32_prefix(head, rest, 4);
    assert forall|k: int| 0 <= k && k + 4 <= rest.len() implies #[trigger] seq_be32(head + rest, 8 + k) == seq_be32(rest, k) by {
        lemma_be32_shift(head, rest, k);
    }
}

/// The ctts box the muxer writes reads back as the run-length table of the
/// composition offsets, which expands to each sample's offset; when every
/// offset is zero no box is written, and the demuxer takes zero for each.
pub proof fn lemma_ctts_round_trip(s: Seq<MuxSample>)
    requires
        s.len() <= u32::MAX,
    ensures
        (forall|i: int| 0 <= i < s.len() ==> #[trigger] s[i].cts_offset == 0) ==> ctts_box(s).len() == 0,
        !(forall|i: int| 0 <= i < s.len() ==> #[trigger] s[i].cts_offset == 0) ==> ({
            let b = payload(ctts_box(s));
            let runs = rle(mux_cts(s));
            &&& table_fits(b, 8)
            &&& seq_be32(b, 4) == runs.len()
            &&& forall|i: int| 0 <= i < runs.len() ==> {
                &&& seq_be32(b, 8 + 8 * i) == (#[trigger] runs[i]).0
                &&& seq_be32(b, 12 + 8 * i) as i32 == runs[i].1 as i32
            }
            &&& ctts_table(b) == ctts_entries(runs)
            &&& forall|i: int| 0 <= i < ctts_table(b).len() - 1
                ==> #[trigger] ctts_table(b)[i].sample_offset != ctts_table(b)[i + 1].sample_offset
            &&& ctts_expand(ctts_table(b)) == Seq::new(s.len(), |i: int| s[i].cts_offset)
        }),
{
    if !(forall|i: int| 0 <= i < s.len() ==> #[trigger] s[i].cts_offset == 0) {
        let c = mux_cts(s);
        let runs = rle(c);
        lemma_rle_round_trip(c);
        lemma_rle_len(c);
        let body = zeros(4) + u32_bytes(runs.len() as u32) + runs_bytes(runs);
        assert(ctts_box(s) == box_bytes(ctts_tag(), body));
        lemma_payload_of_box(ctts_tag(), body);
        let b = payload(ctts_box(s));
        lemma_runs_read(runs);
        lemma_table_head(runs.len() as u32, runs_bytes(runs));
        assert forall|i: int| 0 <= i < runs.len() implies {
            &&& seq_be32(b, 8 + 8 * i) == (#[trigger] runs[i]).0
            &&& seq_be32(b, 12 + 8 * i) as i32 == runs[i].1 as i32
        } by {
            assert(seq_be32(b, 8 + 8 * i) == seq_be32(runs_bytes(runs), 8 * i));
            assert(seq_be32(b, 8 + (8 * i + 4)) == seq_be32(runs_bytes(runs), 8 * i + 4));
        }
        lemma_ctts_expand_runs(runs);
        assert forall|i: int| 0 <= i < s.len() implies (c[i] as i32) == s[i].cts_offset by {
            lemma_i32_bits(s[i].cts_offset);
        }
        assert(ctts_expand(ctts_entries(runs)) =~= Seq::new(s.len(), |i: int| s[i].cts_offset));
        assert(ctts_table(b) =~= ctts_entries(runs));
        lemma_rle_runs_differ(c);
        assert forall|i: int| 0 <= i < ctts_table(b).len() - 1
            implies #[trigger] ctts_table(b)[i].sample_offset != ctts_table(b)[i + 1].sample_offset by {
            let x = runs[i].1;
            let y = runs[i + 1].1;
            assert(x != y);
            assert(x != y ==> x as i32 != y as i32) by (bit_vector);
        }
    }
}

/// The stsz box the muxer writes reads back as no default size, one entry
/// per sample, and each sample's size in order.
pub proof fn lemma_stsz_round_trip(s: Seq<MuxSample>)
    requires
        s.len() <= u32::MAX,
    ensures
        ({
            let b = payload(stsz_box(s));
            &&& b.len() >= 12
            &&& seq_be32(b, 4) == 0
            &&& seq_be32(b, 8) == s.len()
            &&& b.len() - 12 >= s.len() * 4
            &&& forall|i: int| 0 <= i < s.len() ==> seq_be32(b, 12 + 4 * i) == (#[trigger] s[i]).size
        }),
{
    let sizes = Seq::new(s.len(), |i: int| s[i].size);
    let rest = u32_bytes(s.len() as u32) + words(sizes);
    let body = zeros(4) + u32_bytes(0) + rest;
    assert(stsz_box(s) == box_bytes(stsz_tag(), body)) by {
        assert(zeros(4) + u32_bytes(0) + u32_bytes(s.len() as u32) + words(sizes) =~= body);
    }
    lemma_payload_of_box(stsz_tag(), body);
    let b = payload(stsz_box(s));
    lemma_words_read(sizes);
    lemma_u32_bytes_read(s.len() as u32);
    lemma_table_head(0, rest);
    lemma_be32_prefix(u32_bytes(s.len() as u32), words(sizes), 0);
    assert(seq_be32(b, 8int + 0) == seq_be32(rest, 0int));
    assert forall|i: int| 0 <= i < s.len() implies seq_be32(b, 12 + 4 * i) == (#[trigger] s[i]).size by {
        assert(sizes[i] == s[i].size);
        lemma_be32_shift(u32_bytes(s.len() as u32), words(sizes), 4 * i);
        assert(seq_be32(b, 8 + (4 + 4 * i)) == seq_be32(rest, 4 + 4 * i));
    }
}

/// The co64 box the muxer writes reads back as one chunk offset per sample:
/// each sample's file offset in order.
pub proof fn lemma_co64_round_trip(s: Seq<MuxSample>)
    requires
        s.len() <= u32::MAX,
    ensures
        ({
            let b = payload(co64_box(s));
            &&& table_fits(b, 8)
            &&& seq_be32(b, 4) == s.len()
            &&& forall|i: int| 0 <= i < s.len() ==> seq_be64(b, 8 + 8 * i) == (#[trigger] s[i]).offset
        }),
{
    let offs = Seq::new(s.len(), |i: int| s[i].offset);
    let head = zeros(4) + u32_bytes(s.len() as u32);
    let body = head + words64(offs);
    assert(co64_box(s) == box_bytes(co64_tag(), body));
    lemma_payload_of_box(co64_tag(), body);
    let b = payload(co64_box(s));
    lemma_words64_read(offs);
    lemma_table_head(s.len() as u32, words64(offs));
    assert forall|i: int| 0 <= i < s.len() implies seq_be64(b, 8 + 8 * i) == (#[trigger] s[i]).offset by {
        assert(offs[i] == s[i].offset);
        lemma_be64_shift(head, words64(offs), 8 * i);
    }
}

/// The mdhd box the muxer writes, past its 8-byte header, reads back (as
/// version 0) to the timescale and duration written.
pub proof fn lemma_mdhd_box_round_trip(timescale: u32, duration: u32)
    ensures
        ({
            let b = payload(box_bytes(crate::mp4::box_builders::mdhd_tag(), mdhd_body(timescale, duration)));
            &&& b.len() == 24
            &&& b[0] == 0
            &&& seq_be32(b, 12) == timescale
            &&& seq_be32(b, 16) == duration
        }),
{
    lemma_payload_of_box(crate::mp4::box_builders::mdhd_tag(), mdhd_body(timescale, duration));
    lemma_mdhd_round_trip(timescale, duration);
}

/// The tkhd box the muxer writes, past its 8-byte header, reads back (as
/// version 0) to the track id, duration and dimensions written, whenever
/// the dimensions fit the 16.16 fields.
pub proof fn lemma_tkhd_box_round_trip(track_id: u32, duration: u32, width: u32, height: u32)
    requires
        width <= 0xFFFF,
        height <= 0xFFFF,
    ensures
        ({
            let b = payload(box_bytes(crate::mp4::box_builders::tkhd_tag(), tkhd_body(track_id, duration, width, height)));
            &&& b.len() == 84
            &&& b[0] == 0
            &&& seq_be32(b, 12) == track_id
            &&& seq_be32(b, 20) == duration
            &&& seq_be32(b, 76) >> 16u32 == width
            &&& seq_be32(b, 80) >> 16u32 == height
        }),
{
    lemma_payload_of_box(crate::mp4::box_builders::tkhd_tag(), tkhd_body(track_id, duration, width, height));
    lemma_tkhd_round_trip(track_id, duration, width, height);
}

/// The one stsc entry the muxer writes: every chunk from the first holds one
/// sample of the first sample description.
pub open spec fn one_per_chunk() -> StscEntry {
    StscEntry { first_chunk: 1, samples_per_chunk: 1, sample_description_index: 1 }
}

/// The stsc box the muxer writes for a non-empty track reads back as the
/// single entry `one_per_chunk`.
pub proof fn lemma_stsc_round_trip(n: u32)
    requires
        n > 0,
    ensures
        ({
            let b = payload(stsc_box(n));
            &&& table_fits(b, 12)
            &&& seq_be32(b, 4) == 1
            &&& seq_be32(b, 8) == one_per_chunk().first_chunk
            &&& seq_be32(b, 12) == one_per_chunk().samples_per_chunk
            &&& seq_be32(b, 16) == one_per_chunk().sample_description_index
        }),
{
    let one = u32_bytes(1);
    let rest = one + one + one;
    let body = zeros(4) + u32_bytes(1) + rest;
    assert(stsc_box(n) == box_bytes(stsc_tag(), body)) by {
        assert(zeros(4) + u32_bytes(1) + u32_bytes(1) + u32_bytes(1) + u32_bytes(1) =~= body);
    }
    lemma_payload_of_box(stsc_tag(), body);
    lemma_u32_bytes_read(1);
    lemma_table_head(1, rest);
    lemma_be32_prefix(one, one, 0);
    lemma_be32_prefix(one + one, one, 0);
    lemma_be32_shift(one, one, 0);
    lemma_be32_prefix(one + one, one, 4);
    lemma_be32_shift(one + one, one, 0);
    assert(seq_be32(payload(stsc_box(n)), 8int + 0) == seq_be32(rest, 0int));
    assert(seq_be32(payload(stsc_box(n)), 8int + 4) == seq_be32(rest, 4int));
    assert(seq_be32(payload(stsc_box(n)), 8int + 8) == seq_be32(rest, 8int));
}

/// With one sample per chunk, the demuxer places each sample at its
/// chunk's offset, and no chunk's end passes `u64::MAX` when no sample's
/// does.
pub proof fn lemma_one_per_chunk_layout(offsets: Seq<u64>, sizes: Seq<u32>, n: int, c: int)
    requires
        0 <= c <= n,
        offsets.len() >= n,
        sizes.len() >= n,
    ensures
        layout(seq![one_per_chunk()], offsets, sizes, n, c) == Some(Seq::new(c as nat, |i: int| offsets[i] as int)),
        (forall|i: int| 0 <= i < n ==> offsets[i] + #[trigger] sizes[i] <= u64::MAX) ==> layout_fits(
            seq![one_per_chunk()],
            offsets,
            sizes,
            n,
            c,
        ),
    decreases c,
{
    if c > 0 {
        lemma_one_per_chunk_layout(offsets, sizes, n, c - 1);
        let e = seq![one_per_chunk()];
        assert(e.drop_last() =~= Seq::<StscEntry>::empty());
        assert(crate::mp4::sample_table::stsc_entry_for(e, c) == Some(0int));
        let prev = Seq::new((c - 1) as nat, |i: int| offsets[i] as int);
        assert(size_sum(sizes, c - 1, c - 1) == 0);
        assert(size_sum(sizes, c - 1, c) == sizes[c - 1]);
        assert(layout(e, offsets, sizes, n, c).unwrap() =~= Seq::new(c as nat, |i: int| offsets[i] as int));
    }
}

/// The 1-based numbers of the sync samples among the first `m` name
/// exactly those samples.
proof fn lemma_sync_numbers_contains(s: Seq<MuxSample>, m: int)
    requires
        0 <= m <= s.len(),
        m <= u32::MAX,
    ensures
        forall|k: u32| #[trigger] sync_numbers(s, m).contains(k) <==> 1 <= k <= m && s[k - 1].is_sync,
    decreases m,
{
    if m > 0 {
        lemma_sync_numbers_contains(s, m - 1);
        let p = sync_numbers(s, m - 1);
        if s[m - 1].is_sync {
            assert forall|k: u32| #[trigger] sync_numbers(s, m).contains(k) <==> 1 <= k <= m && s[k - 1].is_sync by {
                if k == m {
                    assert(p.push(m as u32)[p.len() as int] == k);
                }
                if p.push(m as u32).contains(k) && k != m {
                    let j = choose|j: int| 0 <= j < p.len() + 1 && #[trigger] p.push(m as u32)[j] == k;
                    assert(j < p.len());
                    assert(p[j] == k);
                }
                if p.contains(k) {
                    let j = choose|j: int| 0 <= j < p.len() && #[trigger] p[j] == k;
                    assert(p.push(m as u32)[j] == k);
                }
            }
        }
    }
}

/// The stss box the muxer writes, when some sample is not a sync sample,
/// reads back as the numbers of the sync samples, and a sample is a key
/// frame to the demuxer exactly when it was written as a sync sample; when
/// every sample is one, no box is written and the demuxer takes every sample
/// as a key frame.
pub proof fn lemma_stss_round_trip(s: Seq<MuxSample>)
    requires
        s.len() < u32::MAX,
    ensures
        (forall|i: int| 0 <= i < s.len() ==> #[trigger] s[i].is_sync) ==> stss_box(s).len() == 0,
        !(forall|i: int| 0 <= i < s.len() ==> #[trigger] s[i].is_sync) ==> ({
            let b = payload(stss_box(s));
            let nums = sync_numbers(s, s.len() as int);
            &&& table_fits(b, 4)
            &&& seq_be32(b, 4) == nums.len()
            &&& forall|i: int| 0 <= i < nums.len() ==> seq_be32(b, 8 + 4 * i) == #[trigger] nums[i]
            &&& forall|i: int| 0 <= i < s.len() ==> (nums.contains((i + 1) as u32) <==> #[trigger] s[i].is_sync)
        }),
{
    let n = s.len() as int;
    let nums = sync_numbers(s, n);
    assert forall|i: int| 0 <= i < s.len() implies (nums.contains((i + 1) as u32) <==> #[trigger] s[i].is_sync) by {
        lemma_sync_numbers_contains(s, n);
        let k = (i + 1) as u32;
        assert(k == i + 1);
        assert(nums.contains(k) <==> 1 <= k <= n && s[k - 1].is_sync);
    }
    if !(forall|i: int| 0 <= i < s.len() ==> #[trigger] s[i].is_sync) {
        crate::mp4::mux_sample_table::lemma_sync_numbers_len(s, n);
        let body = zeros(4) + u32_bytes(nums.len() as u32) + words(nums);
        assert(stss_box(s) == box_bytes(stss_tag(), body));
        lemma_payload_of_box(stss_tag(), body);
        lemma_words_read(nums);
        lemma_table_head(nums.len() as u32, words(nums));
        let b = payload(stss_box(s));
        assert forall|i: int| 0 <= i < nums.len() implies seq_be32(b, 8 + 4 * i) == #[trigger] nums[i] by {
            assert(seq_be32(b, 8 + 4 * i) == seq_be32(words(nums), 4 * i));
        }
    }
}

/// The composition offsets the demuxer reads from the ctts box the muxer
/// writes for `s`: none when no box is written.
pub open spec fn read_cts(s: Seq<MuxSample>) -> Seq<i32> {
    if forall|i: int| 0 <= i < s.len() ==> #[trigger] s[i].cts_offset == 0 {
        seq![]
    } else {
        ctts_expand(ctts_entries(rle(mux_cts(s))))
    }
}

/// The sync sample numbers the demuxer reads from the stss box the muxer
/// writes for `s`: `None` when no box is written.
pub open spec fn read_sync(s: Seq<MuxSample>) -> Option<Seq<u32>> {
    if forall|i: int| 0 <= i < s.len() ==> #[trigger] s[i].is_sync {
        None
    } else {
        Some(sync_numbers(s, s.len() as int))
    }
}

/// The sample entries the demuxer resolves from the sample tables the
/// muxer wrote for a track are the muxed samples, in order: the same file
/// offset, size, composition offset and sync flag, and the decode time
/// counted from the first sample's.
pub proof fn lemma_sample_entries_round_trip(s: Seq<MuxSample>, entries: Seq<SampleEntry>)
    requires
        0 < s.len() < u32::MAX,
        dts_steps_in_u32(s),
        entries_match(
            entries,
            layout(
                seq![one_per_chunk()],
                Seq::new(s.len(), |i: int| s[i].offset),
                Seq::new(s.len(), |i: int| s[i].size),
                s.len() as int,
                s.len() as int,
            )->Some_0,
            Seq::new(s.len(), |i: int| s[i].size),
            stts_dts(stts_entries(rle(mux_deltas(s)))),
            read_cts(s),
            read_sync(s),
        ),
    ensures
        entries.len() == s.len(),
        forall|i: int| 0 <= i < s.len() ==> {
            &&& (#[trigger] entries[i]).sample_index == i
            &&& entries[i].offset == s[i].offset
            &&& entries[i].size == s[i].size
            &&& entries[i].dts == s[i].dts - s[0].dts
            &&& entries[i].cts_offset == s[i].cts_offset
            &&& entries[i].is_keyframe == s[i].is_sync
        },
{
    let n = s.len() as int;
    let offsets = Seq::new(s.len(), |i: int| s[i].offset);
    let sizes = Seq::new(s.len(), |i: int| s[i].size);
    lemma_one_per_chunk_layout(offsets, sizes, n, n);
    lemma_stts_round_trip(s);
    lemma_ctts_round_trip(s);
    lemma_stss_round_trip(s);
    let offs = Seq::new(n as nat, |i: int| offsets[i] as int);
    assert forall|i: int| 0 <= i < s.len() implies {
        &&& (#[trigger] entries[i]).sample_index == i
        &&& entries[i].offset == s[i].offset
        &&& entries[i].size == s[i].size
        &&& entries[i].dts == s[i].dts - s[0].dts
        &&& entries[i].cts_offset == s[i].cts_offset
        &&& entries[i].is_keyframe == s[i].is_sync
    } by {
        assert(entry_matches(entries[i], i, offs, sizes, stts_dts(stts_entries(rle(mux_deltas(s)))), read_cts(s), read_sync(s)));
        assert(stts_dts(stts_entries(rle(mux_deltas(s))))[i] == s[i].dts - s[0].dts);
        if forall|k: int| 0 <= k < s.len() ==> #[trigger] s[k].cts_offset == 0 {
            assert(s[i].cts_offset == 0);
        } else {
            assert(read_cts(s)[i] == s[i].cts_offset);
        }
        if forall|k: int| 0 <= k < s.len() ==> #[trigger] s[k].is_sync {
            assert(s[i].is_sync);
        }
    }
}

/// A search outcome with its positions moved by `k`.
pub open spec fn shifted(r: Search, k: int) -> Search {
    match r {
        Search::Found(p) => Search::Found(p + k),
        Search::NotFound => Search::NotFound,
        Search::Failed(p) => Search::Failed(p + k),
    }
}

/// The walk over the boxes that follow a prefix is the walk over them
/// alone, moved by the prefix's length.
proof fn lemma_search_shift(a: Seq<u8>, b: Seq<u8>, q: int, t: Seq<u8>)
    requires
        0 <= q <= b.len(),
    ensures
        search_box(a + b, a.len() + q, t) == shifted(search_box(b, q, t), a.len() as int),
    decreases b.len() - q,
{
    let s = a + b;
    let p = a.len() + q;
    if q + 8 <= b.len() {
        lemma_be32_shift(a, b, q);
        if seq_be32(b, q) == 1 && q + 16 <= b.len() {
            lemma_be64_shift(a, b, q + 8);
        }
        assert(s.subrange(p + 4, p + 8) =~= b.subrange(q + 4, q + 8));
        assert(header_complete(s, p) == header_complete(b, q));
        assert(header_complete(b, q) ==> header_len(s, p) == header_len(b, q) && box_total(s, p) == box_total(b, q));
        assert(box_step(s, p) == box_step(b, q));
        if box_step(b, q) == BoxStep::Whole && b.subrange(q + 4, q + 8) != t {
            lemma_search_shift(a, b, q + box_total(b, q), t);
        }
    }
}

/// A box found in the boxes that follow a prefix has the same body there.
proof fn lemma_found_body_shift(a: Seq<u8>, b: Seq<u8>, t: Seq<u8>)
    requires
        search_box(a + b, a.len() as int, t) == shifted(search_box(b, 0, t), a.len() as int),
    ensures
        search_box(b, 0, t) is Found ==> (a + b).subrange(
            search_box(a + b, a.len() as int, t)->Found_0 + header_len(a + b, search_box(a + b, a.len() as int, t)->Found_0),
            search_box(a + b, a.len() as int, t)->Found_0 + box_total(a + b, search_box(a + b, a.len() as int, t)->Found_0),
        ) == found_body(b, t),
{
    if search_box(b, 0, t) is Found {
        let q = search_box(b, 0, t)->Found_0;
        crate::mp4::track_parsing::lemma_search_found(b, 0, t);
        let s = a + b;
        let p = a.len() + q;
        lemma_be32_shift(a, b, q);
        if seq_be32(b, q) == 1 {
            lemma_be64_shift(a, b, q + 8);
        }
        assert(s.subrange(p + header_len(s, p), p + box_total(s, p)) =~= b.subrange(q + header_len(b, q), q + box_total(b, q)));
    }
}

/// Searching boxes that start with a box of another type goes on past it:
/// what is found (or not) is what the rest holds.
pub proof fn lemma_search_skips(t0: Seq<u8>, body: Seq<u8>, rest: Seq<u8>, t: Seq<u8>)
    requires
        t0.len() == 4,
        t0 != t,
        8 + body.len() <= u32::MAX,
    ensures
        search_box(box_bytes(t0, body) + rest, 0, t) is Found <==> search_box(rest, 0, t) is Found,
        search_box(box_bytes(t0, body) + rest, 0, t) is NotFound <==> search_box(rest, 0, t) is NotFound,
        found_body(box_bytes(t0, body) + rest, t) == found_body(rest, t),
{
    let a = box_bytes(t0, body);
    let s = a + rest;
    assert(s.subrange(0, 8 + body.len() as int) =~= a);
    crate::mp4::box_builders::lemma_box_reads_back(s, 0, t0, body);
    assert(a.len() == 8 + body.len());
    lemma_search_shift(a, rest, 0, t);
    assert(search_box(s, 0, t) == search_box(s, a.len() as int, t));
    lemma_found_body_shift(a, rest, t);
}

/// Searching boxes that start with a box of the type searched for finds it.
pub proof fn lemma_search_hits(t: Seq<u8>, body: Seq<u8>, rest: Seq<u8>)
    requires
        t.len() == 4,
        8 + body.len() <= u32::MAX,
    ensures
        search_box(box_bytes(t, body) + rest, 0, t) == Search::Found(0),
        found_body(box_bytes(t, body) + rest, t) == body,
{
    let a = box_bytes(t, body);
    let s = a + rest;
    assert(s.subrange(0, 8 + body.len() as int) =~= a);
    crate::mp4::box_builders::lemma_box_reads_back(s, 0, t, body);
}

/// Nothing is found in no boxes.
pub proof fn lemma_search_none(t: Seq<u8>)
    ensures
        search_box(Seq::<u8>::empty(), 0, t) == Search::NotFound,
{
}

/// Two four-byte tags that differ at some byte are different.
proof fn lemma_tags_differ(a: Seq<u8>, b: Seq<u8>, i: int)
    requires
        0 <= i < a.len(),
        i < b.len(),
        a[i] != b[i],
    ensures
        a != b,
{
}

/// Searching for `t` in `b + rest`, where `b` is either no bytes or one box
/// of another type, finds what the search in `rest` finds.
proof fn lemma_search_skips_optional(b: Seq<u8>, t0: Seq<u8>, body: Seq<u8>, rest: Seq<u8>, t: Seq<u8>)
    requires
        b.len() == 0 || (b == box_bytes(t0, body) && 8 + body.len() <= u32::MAX),
        t0.len() == 4,
        t0 != t,
    ensures
        search_box(b + rest, 0, t) is Found <==> search_box(rest, 0, t) is Found,
        search_box(b + rest, 0, t) is NotFound <==> search_box(rest, 0, t) is NotFound,
        found_body(b + rest, t) == found_body(rest, t),
{
    if b.len() == 0 {
        assert(b + rest =~= rest);
    } else {
        lemma_search_skips(t0, body, rest, t);
    }
}

/// `b` is one box of type `t`.
pub open spec fn is_box(b: Seq<u8>, t: Seq<u8>) -> bool {
    &&& b.len() >= 8
    &&& b == box_bytes(t, payload(b))
}

/// A box of type `t` around `body` is one box of that type, whose payload
/// is `body`.
pub proof fn lemma_is_box(t: Seq<u8>, body: Seq<u8>)
    requires
        t.len() == 4,
    ensures
        is_box(box_bytes(t, body), t),
        payload(box_bytes(t, body)) == body,
{
    lemma_payload_of_box(t, body);
}

/// The boxes of the sample table the muxer writes for a non-empty track,
/// each either present as one box of its type or (ctts, stss) absent.
proof fn lemma_stbl_parts(t: MuxTrack)
    requires
        0 < t.samples@.len() <= u32::MAX,
    ensures
        ({
            let s = t.samples@;
            &&& is_box(box_bytes(stsd_tag(), zeros(4) + u32_bytes(1) + sample_entry(t.codec_config)), stsd_tag())
            &&& is_box(stts_box(s), stts_tag())
            &&& (ctts_box(s).len() == 0 || is_box(ctts_box(s), ctts_tag()))
            &&& is_box(stsc_box(s.len() as u32), stsc_tag())
            &&& is_box(stsz_box(s), stsz_tag())
            &&& is_box(co64_box(s), co64_tag())
            &&& (stss_box(s).len() == 0 || is_box(stss_box(s), stss_tag()))
        }),
{
    let s = t.samples@;
    lemma_is_box(stsd_tag(), zeros(4) + u32_bytes(1) + sample_entry(t.codec_config));
    lemma_is_box(stts_tag(), zeros(4) + u32_bytes(rle(mux_deltas(s)).len() as u32) + runs_bytes(rle(mux_deltas(s))));
    lemma_is_box(ctts_tag(), zeros(4) + u32_bytes(rle(mux_cts(s)).len() as u32) + runs_bytes(rle(mux_cts(s))));
    lemma_is_box(stsc_tag(), zeros(4) + u32_bytes(1) + u32_bytes(1) + u32_bytes(1) + u32_bytes(1));
    lemma_is_box(stsz_tag(), zeros(4) + u32_bytes(0) + u32_bytes(s.len() as u32) + words(Seq::new(s.len(), |i: int| s[i].size)));
    lemma_is_box(co64_tag(), zeros(4) + u32_bytes(s.len() as u32) + words64(Seq::new(s.len(), |i: int| s[i].offset)));
    lemma_is_box(stss_tag(), zeros(4) + u32_bytes(sync_numbers(s, s.len() as int).len() as u32)
        + words(sync_numbers(s, s.len() as int)));
}

/// Searching the boxes from stsc on (stsc, stsz, co64, optional stss) for a
/// type other than those four finds nothing.
#[verifier::spinoff_prover]
#[verifier::rlimit(50)]
proof fn lemma_tail_lacks(bsc: Seq<u8>, bz: Seq<u8>, bo: Seq<u8>, bss: Seq<u8>, t: Seq<u8>)
    requires
        is_box(bsc, stsc_tag()),
        is_box(bz, stsz_tag()),
        is_box(bo, co64_tag()),
        bss.len() == 0 || is_box(bss, stss_tag()),
        bsc.len() + bz.len() + bo.len() + bss.len() <= u32::MAX,
        t != stsc_tag(),
        t != stsz_tag(),
        t != co64_tag(),
        t != stss_tag(),
    ensures
        search_box(bsc + (bz + (bo + bss)), 0, t) is NotFound,
{
    let e = Seq::<u8>::empty();
    assert(bss + e =~= bss);
    lemma_search_skips(stsc_tag(), payload(bsc), bz + (bo + bss), t);
    lemma_search_skips(stsz_tag(), payload(bz), bo + bss, t);
    lemma_search_skips(co64_tag(), payload(bo), bss, t);
    lemma_search_skips_optional(bss, stss_tag(), payload(bss), e, t);
    lemma_search_none(t);
}

/// The stsc and stsz boxes are found among the boxes from stsc on.
#[verifier::spinoff_prover]
#[verifier::rlimit(50)]
proof fn lemma_tail_finds_sizes(bsc: Seq<u8>, bz: Seq<u8>, bo: Seq<u8>, bss: Seq<u8>)
    requires
        is_box(bsc, stsc_tag()),
        is_box(bz, stsz_tag()),
        bsc.len() + bz.len() + bo.len() + bss.len() <= u32::MAX,
    ensures
        found_body(bsc + (bz + (bo + bss)), stsc_tag()) == payload(bsc),
        found_body(bsc + (bz + (bo + bss)), stsz_tag()) == payload(bz),
{
    lemma_tags_differ(stsc_tag(), stsz_tag(), 3);
    lemma_search_hits(stsc_tag(), payload(bsc), bz + (bo + bss));
    lemma_search_skips(stsc_tag(), payload(bsc), bz + (bo + bss), stsz_tag());
    lemma_search_hits(stsz_tag(), payload(bz), bo + bss);
}

/// The co64 box is found among the boxes from stsc on, and no stco box.
#[verifier::spinoff_prover]
#[verifier::rlimit(50)]
proof fn lemma_tail_finds_offsets(bsc: Seq<u8>, bz: Seq<u8>, bo: Seq<u8>, bss: Seq<u8>)
    requires
        is_box(bsc, stsc_tag()),
        is_box(bz, stsz_tag()),
        is_box(bo, co64_tag()),
        bss.len() == 0 || is_box(bss, stss_tag()),
        bsc.len() + bz.len() + bo.len() + bss.len() <= u32::MAX,
    ensures
        found_body(bsc + (bz + (bo + bss)), co64_tag()) == payload(bo),
        search_box(bsc + (bz + (bo + bss)), 0, stco_tag()) is NotFound,
{
    lemma_tags_differ(stsc_tag(), co64_tag(), 0);
    lemma_tags_differ(stsz_tag(), co64_tag(), 0);
    lemma_search_skips(stsc_tag(), payload(bsc), bz + (bo + bss), co64_tag());
    lemma_search_skips(stsz_tag(), payload(bz), bo + bss, co64_tag());
    lemma_search_hits(co64_tag(), payload(bo), bss);
    lemma_tags_differ(stsc_tag(), stco_tag(), 2);
    lemma_tags_differ(stsz_tag(), stco_tag(), 2);
    lemma_tags_differ(co64_tag(), stco_tag(), 0);
    lemma_tags_differ(stss_tag(), stco_tag(), 2);
    lemma_tail_lacks(bsc, bz, bo, bss, stco_tag());
}

/// The stss box is found among the boxes from stsc on exactly when present.
#[verifier::spinoff_prover]
#[verifier::rlimit(50)]
proof fn lemma_tail_finds_sync(bsc: Seq<u8>, bz: Seq<u8>, bo: Seq<u8>, bss: Seq<u8>)
    requires
        is_box(bsc, stsc_tag()),
        is_box(bz, stsz_tag()),
        is_box(bo, co64_tag()),
        bss.len() == 0 || is_box(bss, stss_tag()),
        bsc.len() + bz.len() + bo.len() + bss.len() <= u32::MAX,
    ensures
        search_box(bsc + (bz + (bo + bss)), 0, stss_tag()) is Found <==> bss.len() > 0,
        bss.len() > 0 ==> found_body(bsc + (bz + (bo + bss)), stss_tag()) == payload(bss),
{
    let e = Seq::<u8>::empty();
    lemma_tags_differ(stsc_tag(), stss_tag(), 3);
    lemma_tags_differ(stsz_tag(), stss_tag(), 3);
    lemma_tags_differ(co64_tag(), stss_tag(), 0);
    lemma_search_skips(stsc_tag(), payload(bsc), bz + (bo + bss), stss_tag());
    lemma_search_skips(stsz_tag(), payload(bz), bo + bss, stss_tag());
    lemma_search_skips(co64_tag(), payload(bo), bss, stss_tag());
    if bss.len() > 0 {
        assert(bss + e =~= bss);
        lemma_search_hits(stss_tag(), payload(bss), e);
    } else {
        lemma_search_none(stss_tag());
    }
}

/// In the boxes from stsc on (stsc, stsz, co64, optional stss), each is
/// found by its type, and no stco box is.
#[verifier::spinoff_prover]
#[verifier::rlimit(50)]
proof fn lemma_tail_boxes_found(bsc: Seq<u8>, bz: Seq<u8>, bo: Seq<u8>, bss: Seq<u8>)
    requires
        is_box(bsc, stsc_tag()),
        is_box(bz, stsz_tag()),
        is_box(bo, co64_tag()),
        bss.len() == 0 || is_box(bss, stss_tag()),
        bsc.len() + bz.len() + bo.len() + bss.len() <= u32::MAX,
    ensures
        ({
            let r = bsc + (bz + (bo + bss));
            &&& found_body(r, stsc_tag()) == payload(bsc)
            &&& found_body(r, stsz_tag()) == payload(bz)
            &&& search_box(r, 0, stco_tag()) is NotFound
            &&& found_body(r, co64_tag()) == payload(bo)
            &&& (search_box(r, 0, stss_tag()) is Found <==> bss.len() > 0)
            &&& bss.len() > 0 ==> found_body(r, stss_tag()) == payload(bss)
        }),
{
    lemma_tail_finds_sizes(bsc, bz, bo, bss);
    lemma_tail_finds_offsets(bsc, bz, bo, bss);
    lemma_tail_finds_sync(bsc, bz, bo, bss);
}

/// The stts box is found first past the stsd box, and the ctts box exactly
/// when present.
#[verifier::spinoff_prover]
#[verifier::rlimit(50)]
proof fn lemma_head_boxes_found(bd: Seq<u8>, bt: Seq<u8>, bc: Seq<u8>, bsc: Seq<u8>, bz: Seq<u8>, bo: Seq<u8>, bss: Seq<u8>)
    requires
        is_box(bd, stsd_tag()),
        is_box(bt, stts_tag()),
        bc.len() == 0 || is_box(bc, ctts_tag()),
        is_box(bsc, stsc_tag()),
        is_box(bz, stsz_tag()),
        is_box(bo, co64_tag()),
        bss.len() == 0 || is_box(bss, stss_tag()),
        bd.len() + bt.len() + bc.len() + bsc.len() + bz.len() + bo.len() + bss.len() <= u32::MAX,
    ensures
        ({
            let all = bd + (bt + (bc + (bsc + (bz + (bo + bss)))));
            &&& found_body(all, stts_tag()) == payload(bt)
            &&& (search_box(all, 0, ctts_tag()) is Found <==> bc.len() > 0)
            &&& bc.len() > 0 ==> found_body(all, ctts_tag()) == payload(bc)
        }),
{
    let r3 = bsc + (bz + (bo + bss));
    let r2 = bc + r3;
    let r1 = bt + r2;
    lemma_tags_differ(stsd_tag(), stts_tag(), 2);
    lemma_search_skips(stsd_tag(), payload(bd), r1, stts_tag());
    lemma_search_hits(stts_tag(), payload(bt), r2);
    lemma_tags_differ(stsd_tag(), ctts_tag(), 0);
    lemma_tags_differ(stts_tag(), ctts_tag(), 0);
    lemma_search_skips(stsd_tag(), payload(bd), r1, ctts_tag());
    lemma_search_skips(stts_tag(), payload(bt), r2, ctts_tag());
    if bc.len() > 0 {
        lemma_search_hits(ctts_tag(), payload(bc), r3);
    } else {
        assert(r2 =~= r3);
        lemma_tags_differ(ctts_tag(), stsc_tag(), 0);
        lemma_tags_differ(ctts_tag(), stsz_tag(), 0);
        lemma_tags_differ(ctts_tag(), co64_tag(), 1);
        lemma_tags_differ(ctts_tag(), stss_tag(), 0);
        lemma_tail_lacks(bsc, bz, bo, bss, ctts_tag());
    }
}

/// The box search over seven boxes in sample-table order (stsd, stts,
/// ctts, stsc, stsz, co64, stss; ctts and stss may be absent) finds each
/// present box's payload, and no stco box.
proof fn lemma_table_boxes_found(bd: Seq<u8>, bt: Seq<u8>, bc: Seq<u8>, bsc: Seq<u8>, bz: Seq<u8>, bo: Seq<u8>, bss: Seq<u8>)
    requires
        is_box(bd, stsd_tag()),
        is_box(bt, stts_tag()),
        bc.len() == 0 || is_box(bc, ctts_tag()),
        is_box(bsc, stsc_tag()),
        is_box(bz, stsz_tag()),
        is_box(bo, co64_tag()),
        bss.len() == 0 || is_box(bss, stss_tag()),
        bd.len() + bt.len() + bc.len() + bsc.len() + bz.len() + bo.len() + bss.len() <= u32::MAX,
    ensures
        ({
            let all = bd + (bt + (bc + (bsc + (bz + (bo + bss)))));
            &&& found_body(all, stts_tag()) == payload(bt)
            &&& found_body(all, stsc_tag()) == payload(bsc)
            &&& found_body(all, stsz_tag()) == payload(bz)
            &&& search_box(all, 0, stco_tag()) is NotFound
            &&& found_body(all, co64_tag()) == payload(bo)
            &&& (search_box(all, 0, ctts_tag()) is Found <==> bc.len() > 0)
            &&& bc.len() > 0 ==> found_body(all, ctts_tag()) == payload(bc)
            &&& (search_box(all, 0, stss_tag()) is Found <==> bss.len() > 0)
            &&& bss.len() > 0 ==> found_body(all, stss_tag()) == payload(bss)
        }),
{
    let r3 = bsc + (bz + (bo + bss));
    lemma_tags_differ(stsc_tag(), stsd_tag(), 3);
    lemma_tags_differ(stsc_tag(), stts_tag(), 2);
    lemma_tags_differ(stsc_tag(), ctts_tag(), 0);
    lemma_tags_differ(stsz_tag(), stsd_tag(), 3);
    lemma_tags_differ(stsz_tag(), stts_tag(), 2);
    lemma_tags_differ(stsz_tag(), ctts_tag(), 0);
    lemma_tags_differ(stco_tag(), stsd_tag(), 2);
    lemma_tags_differ(stco_tag(), stts_tag(), 2);
    lemma_tags_differ(stco_tag(), ctts_tag(), 0);
    lemma_tags_differ(co64_tag(), stsd_tag(), 0);
    lemma_tags_differ(co64_tag(), stts_tag(), 0);
    lemma_tags_differ(co64_tag(), ctts_tag(), 1);
    lemma_tags_differ(stss_tag(), stsd_tag(), 3);
    lemma_tags_differ(stss_tag(), stts_tag(), 2);
    lemma_tags_differ(stss_tag(), ctts_tag(), 0);
    lemma_head_boxes_found(bd, bt, bc, bsc, bz, bo, bss);
    lemma_tail_boxes_found(bsc, bz, bo, bss);
    lemma_found_past_three(bd, bt, bc, r3, stsc_tag());
    lemma_found_past_three(bd, bt, bc, r3, stsz_tag());
    lemma_found_past_three(bd, bt, bc, r3, stco_tag());
    lemma_found_past_three(bd, bt, bc, r3, co64_tag());
    lemma_found_past_three(bd, bt, bc, r3, stss_tag());
}

/// Searching past leading stsd, stts and (optional) ctts boxes for another
/// type finds what the search in the rest finds.
proof fn lemma_found_past_three(bd: Seq<u8>, bt: Seq<u8>, bc: Seq<u8>, rest: Seq<u8>, tag: Seq<u8>)
    requires
        is_box(bd, stsd_tag()),
        is_box(bt, stts_tag()),
        bc.len() == 0 || is_box(bc, ctts_tag()),
        bd.len() <= u32::MAX,
        bt.len() <= u32::MAX,
        bc.len() <= u32::MAX,
        tag != stsd_tag(),
        tag != stts_tag(),
        tag != ctts_tag(),
    ensures
        ({
            let all = bd + (bt + (bc + rest));
            &&& (search_box(all, 0, tag) is Found <==> search_box(rest, 0, tag) is Found)
            &&& (search_box(all, 0, tag) is NotFound <==> search_box(rest, 0, tag) is NotFound)
            &&& found_body(all, tag) == found_body(rest, tag)
        }),
{
    lemma_search_skips(stsd_tag(), payload(bd), bt + (bc + rest), tag);
    lemma_search_skips(stts_tag(), payload(bt), bc + rest, tag);
    lemma_search_skips_optional(bc, ctts_tag(), payload(bc), rest, tag);
}

/// Where the demuxer's box search finds each table in the sample table the
/// muxer writes for a non-empty track: the stts, stsc, stsz and co64 boxes
/// written, no stco box, and the ctts and stss boxes exactly when written.
#[verifier::rlimit(80)]
pub proof fn lemma_stbl_boxes_found(t: MuxTrack)
    requires
        0 < t.samples@.len() <= u32::MAX,
        stbl_body(t).len() + 8 <= u32::MAX,
    ensures
        ({
            let stbl = stbl_body(t);
            let s = t.samples@;
            &&& found_body(stbl, stts_tag()) == payload(stts_box(s))
            &&& found_body(stbl, stsc_tag()) == payload(stsc_box(s.len() as u32))
            &&& found_body(stbl, stsz_tag()) == payload(stsz_box(s))
            &&& search_box(stbl, 0, stco_tag()) is NotFound
            &&& found_body(stbl, co64_tag()) == payload(co64_box(s))
            &&& (search_box(stbl, 0, ctts_tag()) is Found <==> ctts_box(s).len() > 0)
            &&& ctts_box(s).len() > 0 ==> found_body(stbl, ctts_tag()) == payload(ctts_box(s))
            &&& (search_box(stbl, 0, stss_tag()) is Found <==> stss_box(s).len() > 0)
            &&& stss_box(s).len() > 0 ==> found_body(stbl, stss_tag()) == payload(stss_box(s))
        }),
{
    let s = t.samples@;
    lemma_stbl_parts(t);
    let bd = box_bytes(stsd_tag(), zeros(4) + u32_bytes(1) + sample_entry(t.codec_config));
    assert(stbl_body(t) =~= bd + (stts_box(s) + (ctts_box(s) + (stsc_box(s.len() as u32) + (stsz_box(s) + (co64_box(s)
        + stss_box(s)))))));
    lemma_table_boxes_found(bd, stts_box(s), ctts_box(s), stsc_box(s.len() as u32), stsz_box(s), co64_box(s), stss_box(s));
}

/// The tables the demuxer reads from the box payloads the muxer writes for
/// the samples `s`, in the terms of the box parsers' contracts.
proof fn lemma_tables_read(s: Seq<MuxSample>)
    requires
        0 < s.len() < u32::MAX,
        dts_steps_in_u32(s),
    ensures
        stts_table(payload(stts_box(s))) == stts_entries(rle(mux_deltas(s))),
        stsc_table(payload(stsc_box(s.len() as u32))) == seq![one_per_chunk()],
        stsz_sizes(payload(stsz_box(s))) == Seq::new(s.len(), |i: int| s[i].size),
        seq_be32(payload(stsz_box(s)), 8) == s.len(),
        ({
            let b = payload(co64_box(s));
            Seq::new(seq_be32(b, 4) as nat, |i: int| seq_be64(b, 8 + 8 * i)) == Seq::new(s.len(), |i: int| s[i].offset)
        }),
{
    lemma_stts_round_trip(s);
    lemma_stsc_round_trip(s.len() as u32);
    lemma_stsz_round_trip(s);
    lemma_co64_round_trip(s);
    assert(stts_table(payload(stts_box(s))) =~= stts_entries(rle(mux_deltas(s))));
    assert(stsc_table(payload(stsc_box(s.len() as u32))) =~= seq![one_per_chunk()]);
    assert(stsz_sizes(payload(stsz_box(s))) =~= Seq::new(s.len(), |i: int| s[i].size));
    let b = payload(co64_box(s));
    assert(Seq::new(seq_be32(b, 4) as nat, |i: int| seq_be64(b, 8 + 8 * i)) =~= Seq::new(s.len(), |i: int| s[i].offset));
}

/// The optional tables: the composition offsets and sync sample numbers the
/// demuxer reads when the muxer writes a ctts or stss box.
proof fn lemma_optional_tables_read(s: Seq<MuxSample>)
    requires
        0 < s.len() < u32::MAX,
    ensures
        ctts_box(s).len() > 0 <==> !(forall|i: int| 0 <= i < s.len() ==> #[trigger] s[i].cts_offset == 0),
        ctts_box(s).len() > 0 ==> ctts_expand(ctts_table(payload(ctts_box(s)))) == read_cts(s),
        stss_box(s).len() > 0 <==> !(forall|i: int| 0 <= i < s.len() ==> #[trigger] s[i].is_sync),
        stss_box(s).len() > 0 ==> ({
            let b = payload(stss_box(s));
            Some(Seq::new(seq_be32(b, 4) as nat, |i: int| seq_be32(b, 8 + 4 * i))) == read_sync(s)
        }),
{
    lemma_ctts_round_trip(s);
    lemma_stss_round_trip(s);
    if !(forall|i: int| 0 <= i < s.len() ==> #[trigger] s[i].cts_offset == 0) {
        assert(ctts_table(payload(ctts_box(s))) =~= ctts_entries(rle(mux_cts(s))));
    }
    if !(forall|i: int| 0 <= i < s.len() ==> #[trigger] s[i].is_sync) {
        let b = payload(stss_box(s));
        assert(Seq::new(seq_be32(b, 4) as nat, |i: int| seq_be32(b, 8 + 4 * i)) =~= sync_numbers(s, s.len() as int));
    }
}

/// The sample entries the demuxer resolves from the sample table the muxer
/// writes for a non-empty track are the muxed samples, in order: the same
/// file offset, size, composition offset and sync flag, and the decode time
/// counted from the first sample's.
#[verifier::rlimit(40)]
pub proof fn lemma_stbl_round_trip(t: MuxTrack, entries: Seq<SampleEntry>)
    requires
        0 < t.samples@.len() < u32::MAX,
        stbl_body(t).len() + 8 <= u32::MAX,
        dts_steps_in_u32(t.samples@),
        table_entries_match(entries, stbl_body(t)),
    ensures
        entries.len() == t.samples@.len(),
        forall|i: int| 0 <= i < t.samples@.len() ==> {
            &&& (#[trigger] entries[i]).sample_index == i
            &&& entries[i].offset == t.samples@[i].offset
            &&& entries[i].size == t.samples@[i].size
            &&& entries[i].dts == t.samples@[i].dts - t.samples@[0].dts
            &&& entries[i].cts_offset == t.samples@[i].cts_offset
            &&& entries[i].is_keyframe == t.samples@[i].is_sync
        },
{
    let s = t.samples@;
    let stbl = stbl_body(t);
    lemma_stbl_boxes_found(t);
    lemma_tables_read(s);
    lemma_optional_tables_read(s);
    assert(chunk_table(stbl) == Seq::new(s.len(), |i: int| s[i].offset));
    assert(table_cts(stbl) == read_cts(s));
    assert(table_sync(stbl) == read_sync(s));
    lemma_sample_entries_round_trip(s, entries);
}

/// In two boxes of different types, each is found by its type.
proof fn lemma_two_boxes_found(t1: Seq<u8>, b1: Seq<u8>, t2: Seq<u8>, b2: Seq<u8>)
    requires
        t1.len() == 4,
        t2.len() == 4,
        t1 != t2,
        8 + b1.len() + 8 + b2.len() <= u32::MAX,
    ensures
        found_body(box_bytes(t1, b1) + box_bytes(t2, b2), t1) == b1,
        found_body(box_bytes(t1, b1) + box_bytes(t2, b2), t2) == b2,
{
    let x2 = box_bytes(t2, b2);
    let e = Seq::<u8>::empty();
    assert(x2 + e =~= x2);
    lemma_search_hits(t1, b1, x2);
    lemma_search_skips(t1, b1, x2, t2);
    lemma_search_hits(t2, b2, e);
}

/// In two boxes followed by a third, each of the first two and the third is
/// found by its type, when the three types differ.
proof fn lemma_three_boxes_found(t1: Seq<u8>, b1: Seq<u8>, t2: Seq<u8>, b2: Seq<u8>, t3: Seq<u8>, b3: Seq<u8>)
    requires
        t1.len() == 4,
        t2.len() == 4,
        t3.len() == 4,
        t1 != t2,
        t1 != t3,
        t2 != t3,
        8 + b1.len() + 8 + b2.len() + 8 + b3.len() <= u32::MAX,
    ensures
        ({
            let all = box_bytes(t1, b1) + box_bytes(t2, b2) + box_bytes(t3, b3);
            &&& found_body(all, t1) == b1
            &&& found_body(all, t2) == b2
            &&& found_body(all, t3) == b3
        }),
{
    let x1 = box_bytes(t1, b1);
    let x2 = box_bytes(t2, b2);
    let x3 = box_bytes(t3, b3);
    let e = Seq::<u8>::empty();
    assert(x1 + x2 + x3 =~= x1 + (x2 + (x3 + e)));
    lemma_search_hits(t1, b1, x2 + (x3 + e));
    lemma_search_skips(t1, b1, x2 + (x3 + e), t2);
    lemma_search_hits(t2, b2, x3 + e);
    lemma_search_skips(t1, b1, x2 + (x3 + e), t3);
    lemma_search_skips(t2, b2, x3 + e, t3);
    lemma_search_hits(t3, b3, e);
}

/// The media header box the muxer writes for a track kind, as a type and a
/// body.
proof fn lemma_media_header_parts(k: crate::media::TrackKind) -> (r: (Seq<u8>, Seq<u8>))
    ensures
        r.0.len() == 4,
        r.0 != stbl_tag(),
        r.0 != dinf_tag(),
        r.1.len() <= 16,
        media_header_box(k) == box_bytes(r.0, r.1),
{
    lemma_tags_differ(dinf_tag(), stbl_tag(), 0);
    match k {
        crate::media::TrackKind::Video => {
            lemma_tags_differ(vmhd_tag(), stbl_tag(), 0);
            lemma_tags_differ(vmhd_tag(), dinf_tag(), 0);
            (vmhd_tag(), seq![0u8, 0u8, 0u8, 1u8] + crate::wire::u16_bytes(0) + zeros(6))
        },
        crate::media::TrackKind::Audio => {
            lemma_tags_differ(smhd_tag(), stbl_tag(), 1);
            lemma_tags_differ(smhd_tag(), dinf_tag(), 0);
            (smhd_tag(), zeros(4) + crate::wire::u16_bytes(0) + crate::wire::u16_bytes(0))
        },
        crate::media::TrackKind::Subtitle => {
            lemma_tags_differ(nmhd_tag(), stbl_tag(), 0);
            lemma_tags_differ(nmhd_tag(), dinf_tag(), 0);
            (nmhd_tag(), zeros(4))
        },
    }
}

/// The boxes found in a trak body laid out as the muxer lays it out: tkhd,
/// then mdia holding mdhd, hdlr and minf, the minf holding a media header,
/// dinf and stbl.
#[verifier::rlimit(40)]
proof fn lemma_trak_layout_found(
    tk: Seq<u8>,
    mh: Seq<u8>,
    hd: Seq<u8>,
    mt: Seq<u8>,
    mb: Seq<u8>,
    db: Seq<u8>,
    stbl: Seq<u8>,
)
    requires
        mt.len() == 4,
        mt != stbl_tag(),
        mt != dinf_tag(),
        ({
            let minf = box_bytes(mt, mb) + box_bytes(dinf_tag(), db) + box_bytes(stbl_tag(), stbl);
            let mdia = box_bytes(mdhd_tag(), mh) + box_bytes(hdlr_tag(), hd) + box_bytes(minf_tag(), minf);
            8 + tk.len() + 8 + mdia.len() <= u32::MAX
        }),
    ensures
        ({
            let minf = box_bytes(mt, mb) + box_bytes(dinf_tag(), db) + box_bytes(stbl_tag(), stbl);
            let mdia = box_bytes(mdhd_tag(), mh) + box_bytes(hdlr_tag(), hd) + box_bytes(minf_tag(), minf);
            let tb = box_bytes(tkhd_tag(), tk) + box_bytes(mdia_tag(), mdia);
            &&& found_body(tb, tkhd_tag()) == tk
            &&& found_body(tb, mdia_tag()) == mdia
            &&& found_body(mdia, mdhd_tag()) == mh
            &&& found_body(mdia, hdlr_tag()) == hd
            &&& found_body(mdia, minf_tag()) == minf
            &&& found_body(minf, stbl_tag()) == stbl
        }),
{
    let minf = box_bytes(mt, mb) + box_bytes(dinf_tag(), db) + box_bytes(stbl_tag(), stbl);
    let mdia = box_bytes(mdhd_tag(), mh) + box_bytes(hdlr_tag(), hd) + box_bytes(minf_tag(), minf);
    lemma_tags_differ(tkhd_tag(), mdia_tag(), 0);
    lemma_two_boxes_found(tkhd_tag(), tk, mdia_tag(), mdia);
    lemma_tags_differ(mdhd_tag(), hdlr_tag(), 0);
    lemma_tags_differ(mdhd_tag(), minf_tag(), 1);
    lemma_tags_differ(hdlr_tag(), minf_tag(), 0);
    lemma_three_boxes_found(mdhd_tag(), mh, hdlr_tag(), hd, minf_tag(), minf);
    lemma_tags_differ(dinf_tag(), stbl_tag(), 0);
    lemma_three_boxes_found(mt, mb, dinf_tag(), db, stbl_tag(), stbl);
}

/// Where the demuxer finds the track header, media header, handler and
/// sample table in a trak box the muxer writes.
#[verifier::rlimit(40)]
pub proof fn lemma_trak_boxes_found(t: MuxTrack, id: u32)
    requires
        trak_box(t, id).len() <= u32::MAX,
    ensures
        ({
            let tb = payload(trak_box(t, id));
            let mdia = found_body(tb, mdia_tag());
            let w: u32 = match t.track_info.video { Some(v) => v.width, None => 0 };
            let h: u32 = match t.track_info.video { Some(v) => v.height, None => 0 };
            &&& found_body(tb, tkhd_tag()) == tkhd_body(id, movie_ticks(t) as u32, w, h)
            &&& found_body(mdia, mdhd_tag()) == mdhd_body(t.timescale, media_ticks(t) as u32)
            &&& found_body(mdia, hdlr_tag()) == hdlr_body(handler_for(t.track_info.kind))
            &&& found_body(found_body(mdia, minf_tag()), stbl_tag()) == stbl_body(t)
        }),
{
    let w: u32 = match t.track_info.video { Some(v) => v.width, None => 0 };
    let h: u32 = match t.track_info.video { Some(v) => v.height, None => 0 };
    let tk = tkhd_body(id, movie_ticks(t) as u32, w, h);
    let mh = mdhd_body(t.timescale, media_ticks(t) as u32);
    let hd = hdlr_body(handler_for(t.track_info.kind));
    let (mt, mb) = lemma_media_header_parts(t.track_info.kind);
    let db = box_bytes(dref_tag(), zeros(4) + u32_bytes(1) + box_bytes(url_tag(), seq![0u8, 0u8, 0u8, 1u8]));
    let stbl = stbl_body(t);
    let minf = box_bytes(mt, mb) + box_bytes(dinf_tag(), db) + box_bytes(stbl_tag(), stbl);
    let mdia = box_bytes(mdhd_tag(), mh) + box_bytes(hdlr_tag(), hd) + box_bytes(minf_tag(), minf);
    let tb = box_bytes(tkhd_tag(), tk) + box_bytes(mdia_tag(), mdia);
    assert(trak_box(t, id) == box_bytes(trak_tag(), tb));
    lemma_payload_of_box(trak_tag(), tb);
    lemma_trak_layout_found(tk, mh, hd, mt, mb, db, stbl);
}

/// The sample description is the first box of the sample table the muxer
/// writes.
proof fn lemma_stsd_found(t: MuxTrack)
    requires
        stbl_body(t).len() + 8 <= u32::MAX,
    ensures
        found_body(stbl_body(t), stsd_tag()) == zeros(4) + u32_bytes(1) + sample_entry(t.codec_config),
{
    let s = t.samples@;
    let body = zeros(4) + u32_bytes(1) + sample_entry(t.codec_config);
    let rest = stts_box(s) + ctts_box(s) + stsc_box(s.len() as u32) + stsz_box(s) + co64_box(s) + stss_box(s);
    assert(stbl_body(t) =~= box_bytes(stsd_tag(), body) + rest);
    lemma_search_hits(stsd_tag(), body, rest);
}

/// What the demuxer reads from a trak box the muxer writes for a non-empty
/// track: the track id, dimensions and durations written, the timescale,
/// the handler of the track's kind and its codec configuration, and, as
/// the sample entries it resolves, the muxed samples (decode times counted
/// from the first sample's).
#[verifier::rlimit(40)]
pub proof fn lemma_trak_round_trip(t: MuxTrack, id: u32, entries: Seq<SampleEntry>)
    requires
        trak_box(t, id).len() <= u32::MAX,
        0 < t.samples@.len() < u32::MAX,
        dts_steps_in_u32(t.samples@),
        t.track_info.video matches Some(v) ==> v.width <= 0xFFFF && v.height <= 0xFFFF,
        !(t.codec_config is Unknown),
        t.codec_config matches CodecConfig::Mp4a { sample_rate, .. } ==> sample_rate <= 0xFFFF,
        table_entries_match(
            entries,
            found_body(found_body(found_body(payload(trak_box(t, id)), mdia_tag()), minf_tag()), stbl_tag()),
        ),
    ensures
        ({
            let tb = payload(trak_box(t, id));
            let tk = found_body(tb, tkhd_tag());
            let mdia = found_body(tb, mdia_tag());
            let mh = found_body(mdia, mdhd_tag());
            let hd = found_body(mdia, hdlr_tag());
            let stbl = found_body(found_body(mdia, minf_tag()), stbl_tag());
            let w: u32 = match t.track_info.video { Some(v) => v.width, None => 0 };
            let h: u32 = match t.track_info.video { Some(v) => v.height, None => 0 };
            &&& tkhd_track_id(tk) == id
            &&& tkhd_width(tk) == w
            &&& tkhd_height(tk) == h
            &&& tkhd_duration(tk) == movie_ticks(t) as u32
            &&& mdhd_timescale(mh) == t.timescale
            &&& mdhd_duration(mh) == media_ticks(t) as u32
            &&& HandlerType::spec_from_bytes(hd.subrange(8, 12)) == handler_for(t.track_info.kind)
            &&& stsd_outcome(found_body(stbl, stsd_tag())) == StsdOutcome::Parsed(t.codec_config@)
        }),
        entries.len() == t.samples@.len(),
        forall|i: int| 0 <= i < t.samples@.len() ==> {
            &&& (#[trigger] entries[i]).sample_index == i
            &&& entries[i].offset == t.samples@[i].offset
            &&& entries[i].size == t.samples@[i].size
            &&& entries[i].dts == t.samples@[i].dts - t.samples@[0].dts
            &&& entries[i].cts_offset == t.samples@[i].cts_offset
            &&& entries[i].is_keyframe == t.samples@[i].is_sync
        },
{
    let w: u32 = match t.track_info.video { Some(v) => v.width, None => 0 };
    let h: u32 = match t.track_info.video { Some(v) => v.height, None => 0 };
    lemma_trak_boxes_found(t, id);
    let stbl = stbl_body(t);
    assert(trak_box(t, id).len() >= stbl.len() + 8);
    lemma_tkhd_round_trip(id, movie_ticks(t) as u32, w, h);
    lemma_mdhd_round_trip(t.timescale, media_ticks(t) as u32);
    lemma_hdlr_round_trip(handler_for(t.track_info.kind));
    lemma_stsd_found(t);
    assert(sample_entry(t.codec_config).len() <= stbl.len());
    lemma_stsd_round_trip(t.codec_config);
    lemma_stbl_round_trip(t, entries);
}

/// A run-length table has no more runs than values.
proof fn lemma_rle_len(s: Seq<u32>)
    ensures
        rle(s).len() <= s.len(),
    decreases s.len(),
{
    if s.len() > 0 {
        lemma_rle_len(s.drop_last());
    }
}

} // verus!
