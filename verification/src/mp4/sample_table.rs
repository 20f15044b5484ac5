//! Resolves MP4 sample table boxes into a flat, seekable index.
//!
//! Merges stts, ctts, stsc, stsz, stco/co64 and stss into a linear list of
//! `SampleEntry` values with precomputed file offsets and timestamps.

use vstd::prelude::*;
use crate::mp4::boxes::ctts::{CompositionOffsetBox, CttsEntry};
use crate::mp4::boxes::stco::ChunkOffsetBox;
use crate::mp4::boxes::stsc::{SampleToChunkBox, StscEntry};
use crate::mp4::boxes::stss::SyncSampleBox;
use crate::mp4::boxes::stsz::SampleSizeBox;
use crate::mp4::boxes::stts::{SttsEntry, TimeToSampleBox};
use crate::mp4::error::Mp4Error;
use crate::text::{dec, push_dec, push_text};

verus! {

/// A single resolved sample with all metadata needed for packet construction.
#[derive(Debug, Clone, Copy)]
pub struct SampleEntry {
    /// 0-based sample index.
    pub sample_index: u32,
    /// Byte offset of this sample's data in the file.
    pub offset: u64,
    /// Size of this sample in bytes.
    pub size: u32,
    /// Decode timestamp in media timescale ticks.
    pub dts: i64,
    /// Composition time offset (PTS = DTS + cts_offset).
    pub cts_offset: i32,
    /// Whether this sample is a sync (key) frame.
    pub is_keyframe: bool,
}

/// Resolved sample table for a single track.
#[derive(Debug)]
pub struct SampleTable {
    pub entries: Vec<SampleEntry>,
    pub timescale: u32,
}

/// Total duration covered by the stts runs.
pub open spec fn stts_total(e: Seq<SttsEntry>) -> int
    decreases e.len(),
{
    if e.len() == 0 {
        0
    } else {
        stts_total(e.drop_last()) + e.last().sample_count * e.last().sample_delta
    }
}

/// Decode timestamps of every sample described by the stts runs.
pub open spec fn stts_dts(e: Seq<SttsEntry>) -> Seq<int>
    decreases e.len(),
{
    if e.len() == 0 {
        seq![]
    } else {
        let base = stts_total(e.drop_last());
        let d = e.last().sample_delta;
        stts_dts(e.drop_last()) + Seq::new(e.last().sample_count as nat, |j: int| base + j * d)
    }
}

/// Composition offsets of every sample described by the ctts runs.
pub open spec fn ctts_expand(e: Seq<CttsEntry>) -> Seq<i32>
    decreases e.len(),
{
    if e.len() == 0 {
        seq![]
    } else {
        ctts_expand(e.drop_last()) + Seq::new(e.last().sample_count as nat, |_j: int| e.last().sample_offset)
    }
}

/// Per-sample sizes described by an stsz box.
pub open spec fn sizes_of(b: SampleSizeBox) -> Seq<u32> {
    if b.default_sample_size > 0 {
        Seq::new(b.sample_count as nat, |_i: int| b.default_sample_size)
    } else {
        b.sample_sizes@
    }
}

/// Index of the last stsc entry whose first chunk is at most `chunk` (1-indexed).
pub open spec fn stsc_entry_for(e: Seq<StscEntry>, chunk: int) -> Option<int>
    decreases e.len(),
{
    if e.len() == 0 {
        None
    } else if e.last().first_chunk <= chunk {
        Some(e.len() - 1)
    } else {
        stsc_entry_for(e.drop_last(), chunk)
    }
}

/// Sum of `s[a..b]`.
pub open spec fn size_sum(s: Seq<u32>, a: int, b: int) -> int
    decreases b - a,
{
    if b <= a {
        0
    } else {
        size_sum(s, a, b - 1) + s[b - 1]
    }
}

/// Offsets of `n` consecutive samples starting at sample `start`, placed
/// back to back from byte `off`.
pub open spec fn chunk_run(sizes: Seq<u32>, start: int, n: int, off: int) -> Seq<int> {
    Seq::new(n as nat, |j: int| off + size_sum(sizes, start, start + j))
}

/// Number of samples that chunk run of `per_chunk` samples holds when
/// `placed` of `count` samples are already placed.
pub open spec fn run_len(per_chunk: int, placed: int, count: int) -> int {
    if placed >= count {
        0
    } else if per_chunk < count - placed {
        per_chunk
    } else {
        count - placed
    }
}

/// File offsets of the samples placed by the first `c` chunks, or `None`
/// when a chunk has no stsc entry.
pub open spec fn layout(stsc: Seq<StscEntry>, offsets: Seq<u64>, sizes: Seq<u32>, count: int, c: int) -> Option<Seq<int>>
    decreases c,
{
    if c <= 0 {
        Some(seq![])
    } else {
        match layout(stsc, offsets, sizes, count, c - 1) {
            None => None,
            Some(prev) => match stsc_entry_for(stsc, c) {
                None => None,
                Some(k) => Some(prev + chunk_run(
                    sizes,
                    prev.len() as int,
                    run_len(stsc[k].samples_per_chunk as int, prev.len() as int, count),
                    offsets[c - 1] as int,
                )),
            },
        }
    }
}

/// What the resolved entry for sample `i` holds.
pub open spec fn entry_matches(
    e: SampleEntry,
    i: int,
    offs: Seq<int>,
    sizes: Seq<u32>,
    dts: Seq<int>,
    cts: Seq<i32>,
    sync: Option<Seq<u32>>,
) -> bool {
    &&& e.sample_index == i
    &&& e.offset == offs[i]
    &&& e.size == sizes[i]
    &&& e.dts == (if i < dts.len() { dts[i] } else { 0 })
    &&& e.cts_offset == (if i < cts.len() { cts[i] } else { 0i32 })
    &&& e.is_keyframe == (match sync {
        None => true,
        Some(s) => s.contains((i + 1) as u32),
    })
}

/// The sample entries a resolved table holds for the given sample offsets.
pub open spec fn entries_match(
    entries: Seq<SampleEntry>,
    offs: Seq<int>,
    sizes: Seq<u32>,
    dts: Seq<int>,
    cts: Seq<i32>,
    sync: Option<Seq<u32>>,
) -> bool {
    &&& entries.len() == offs.len()
    &&& forall|i: int| 0 <= i < entries.len() ==> entry_matches(#[trigger] entries[i], i, offs, sizes, dts, cts, sync)
}

/// Whether every chunk's running byte offset stays within `u64` while the
/// first `c` chunks are laid out.
pub open spec fn layout_fits(stsc: Seq<StscEntry>, offsets: Seq<u64>, sizes: Seq<u32>, count: int, c: int) -> bool
    decreases c,
{
    if c <= 0 {
        true
    } else {
        &&& layout_fits(stsc, offsets, sizes, count, c - 1)
        &&& match layout(stsc, offsets, sizes, count, c - 1) {
            None => true,
            Some(prev) => match stsc_entry_for(stsc, c) {
                None => true,
                Some(k) => offsets[c - 1] + size_sum(
                    sizes,
                    prev.len() as int,
                    prev.len() + run_len(stsc[k].samples_per_chunk as int, prev.len() as int, count),
                ) <= u64::MAX,
            },
        }
    }
}

/// Composition offsets the optional ctts box gives, one per sample it covers.
pub open spec fn cts_of(ctts: Option<&CompositionOffsetBox>) -> Seq<i32> {
    match ctts {
        Some(c) => ctts_expand(c.entries@),
        None => seq![],
    }
}

/// The sync sample numbers, or `None` when every sample is a sync sample.
pub open spec fn sync_of(stss: Option<&SyncSampleBox>) -> Option<Seq<u32>> {
    match stss {
        Some(s) => Some(s.sync_samples@),
        None => None,
    }
}

/// The sample layout of a complete table.
pub open spec fn table_layout(stsc: &SampleToChunkBox, stsz: &SampleSizeBox, chunk_offsets: &ChunkOffsetBox) -> Option<Seq<int>> {
    layout(stsc.entries@, chunk_offsets.offsets@, sizes_of(*stsz), stsz.sample_count as int, chunk_offsets.offsets@.len() as int)
}

proof fn lemma_stts_total_prefix(e: Seq<SttsEntry>, k: int)
    requires
        0 <= k <= e.len(),
    ensures
        stts_total(e.take(k)) <= stts_total(e),
    decreases e.len() - k,
{
    if k < e.len() {
        lemma_stts_total_prefix(e, k + 1);
        assert(e.take(k + 1).drop_last() =~= e.take(k));
        let last = e[k];
        assert(last.sample_count * last.sample_delta >= 0) by (nonlinear_arith)
            requires last.sample_count >= 0, last.sample_delta >= 0;
    } else {
        assert(e.take(k) =~= e);
    }
}

proof fn lemma_stts_total_nonneg(e: Seq<SttsEntry>)
    ensures
        stts_total(e) >= 0,
    decreases e.len(),
{
    if e.len() > 0 {
        lemma_stts_total_nonneg(e.drop_last());
        let last = e.last();
        assert(last.sample_count * last.sample_delta >= 0) by (nonlinear_arith)
            requires last.sample_count >= 0, last.sample_delta >= 0;
    }
}

proof fn lemma_size_sum_mono(s: Seq<u32>, a: int, b: int, c: int)
    requires
        a <= b <= c,
    ensures
        size_sum(s, a, b) <= size_sum(s, a, c),
    decreases c - b,
{
    if b < c {
        lemma_size_sum_mono(s, a, b, c - 1);
    }
}

proof fn lemma_size_sum_split(s: Seq<u32>, a: int, b: int, c: int)
    requires
        a <= b <= c,
    ensures
        size_sum(s, a, c) == size_sum(s, a, b) + size_sum(s, b, c),
    decreases c - b,
{
    if b < c {
        lemma_size_sum_split(s, a, b, c - 1);
    }
}

proof fn lemma_layout_len(stsc: Seq<StscEntry>, offsets: Seq<u64>, sizes: Seq<u32>, count: int, c: int)
    requires
        count >= 0,
    ensures
        layout(stsc, offsets, sizes, count, c) matches Some(l) ==> l.len() <= count,
    decreases c,
{
    if c > 0 {
        lemma_layout_len(stsc, offsets, sizes, count, c - 1);
    }
}

/// Expands the stts runs into one decode timestamp per sample.
fn expand_dts(stts: &TimeToSampleBox) -> (r: Vec<i64>)
    requires
        stts_total(stts.entries@) <= i64::MAX,
    ensures
        r@.len() == stts_dts(stts.entries@).len(),
        forall|i: int| 0 <= i < r@.len() ==> r@[i] == stts_dts(stts.entries@)[i],
{
    let ghost e = stts.entries@;
    let mut values: Vec<i64> = Vec::new();
    let mut dts: i64 = 0;
    let mut k: usize = 0;
    while k < stts.entries.len()
        invariant
            e == stts.entries@,
            k <= e.len(),
            stts_total(e) <= i64::MAX,
            dts == stts_total(e.take(k as int)),
            values@.len() == stts_dts(e.take(k as int)).len(),
            forall|i: int| 0 <= i < values@.len() ==> values@[i] == stts_dts(e.take(k as int))[i],
        decreases e.len() - k,
    {
        let entry = stts.entries[k];
        let d = entry.sample_delta;
        let ghost base = dts as int;
        let ghost prefix = values@;
        proof {
            lemma_stts_total_prefix(e, k + 1);
            lemma_stts_total_nonneg(e.take(k as int));
            assert(e.take(k + 1).drop_last() =~= e.take(k as int));
            assert(e.take(k + 1).last() == entry);
        }
        let mut j: u32 = 0;
        while j < entry.sample_count
            invariant
                j <= entry.sample_count,
                base + entry.sample_count * d <= i64::MAX,
                base >= 0,
                dts == base + j * d,
                values@.len() == prefix.len() + j,
                forall|i: int| 0 <= i < prefix.len() ==> values@[i] == prefix[i],
                forall|i: int| prefix.len() <= i < values@.len() ==> values@[i] == base + (i - prefix.len()) * d,
            decreases entry.sample_count - j,
        {
            values.push(dts);
            proof {
                assert((j + 1) * d == j * d + d) by (nonlinear_arith);
                assert((j + 1) * d <= entry.sample_count * d) by (nonlinear_arith)
                    requires j + 1 <= entry.sample_count, d >= 0;
            }
            dts = dts + d as i64;
            j = j + 1;
        }
        proof {
            let next = stts_dts(e.take(k + 1));
            assert(next =~= stts_dts(e.take(k as int)) + Seq::new(entry.sample_count as nat, |t: int| base + t * d));
            let a = stts_dts(e.take(k as int));
            assert(prefix.len() == a.len());
            assert forall|i: int| 0 <= i < values@.len() implies values@[i] == next[i] by {
                if i < prefix.len() {
                    assert(values@[i] == prefix[i]);
                    assert(prefix[i] == a[i]);
                    assert(next[i] == a[i]);
                } else {
                    assert(values@[i] == base + (i - prefix.len()) * d);
                    assert(next[i] == base + (i - a.len()) * d);
                }
            }
        }
        k = k + 1;
    }
    proof {
        assert(e.take(e.len() as int) =~= e);
    }
    values
}

/// Expands the ctts runs into one composition offset per sample, padded
/// with zeros or cut to `sample_count` entries.
fn expand_cts(ctts: Option<&CompositionOffsetBox>, sample_count: usize) -> (r: Vec<i32>)
    ensures
        r@.len() == sample_count,
        forall|i: int| 0 <= i < sample_count ==> r@[i] == (match ctts {
            Some(c) => if i < ctts_expand(c.entries@).len() { ctts_expand(c.entries@)[i] } else { 0i32 },
            None => 0i32,
        }),
{
    let mut out: Vec<i32> = Vec::new();
    let ghost full: Seq<i32> = match ctts {
        Some(c) => ctts_expand(c.entries@),
        None => seq![],
    };
    match ctts {
        Some(c) => {
            let ghost e = c.entries@;
            let mut k: usize = 0;
            while k < c.entries.len()
                invariant
                    e == c.entries@,
                    full == ctts_expand(e),
                    k <= e.len(),
                    out@.len() <= sample_count,
                    out@.len() == sample_count || out@ == ctts_expand(e.take(k as int)),
                    out@.len() <= full.len(),
                    forall|i: int| 0 <= i < out@.len() ==> out@[i] == full[i],
                decreases e.len() - k,
            {
                let entry = c.entries[k];
                let ghost prefix = out@;
                let mut j: u32 = 0;
                while j < entry.sample_count && out.len() < sample_count
                    invariant
                        j <= entry.sample_count,
                        out@.len() <= sample_count,
                        out@.len() == prefix.len() + j,
                        forall|i: int| 0 <= i < prefix.len() ==> out@[i] == prefix[i],
                        forall|i: int| prefix.len() <= i < out@.len() ==> out@[i] == entry.sample_offset,
                        prefix.len() <= full.len(),
                        forall|i: int| 0 <= i < prefix.len() ==> prefix[i] == full[i],
                        prefix.len() == sample_count || prefix == ctts_expand(e.take(k as int)),
                    decreases entry.sample_count - j,
                {
                    out.push(entry.sample_offset);
                    j = j + 1;
                }
                proof {
                    assert(e.take(k + 1).drop_last() =~= e.take(k as int));
                    lemma_ctts_prefix(e, k as int + 1);
                    let a = ctts_expand(e.take(k as int));
                    let next = ctts_expand(e.take(k + 1));
                    assert(next =~= a + Seq::new(entry.sample_count as nat, |_t: int| entry.sample_offset));
                    assert(out@.len() <= full.len());
                    assert forall|i: int| 0 <= i < out@.len() implies out@[i] == full[i] by {
                        if i < prefix.len() {
                            assert(out@[i] == prefix[i]);
                            assert(prefix[i] == full[i]);
                        } else {
                            assert(prefix.len() < sample_count);
                            assert(prefix == a);
                            assert(out@[i] == entry.sample_offset);
                            assert(i < next.len());
                            assert(next[i] == entry.sample_offset);
                            assert(next[i] == full[i]);
                        }
                    }
                    if prefix.len() < sample_count && out@.len() < sample_count {
                        assert(prefix == a);
                        assert(j == entry.sample_count);
                        assert forall|i: int| 0 <= i < out@.len() implies out@[i] == next[i] by {
                            if i < prefix.len() {
                                assert(out@[i] == prefix[i]);
                            }
                        }
                        assert(out@ =~= next);
                    }
                }
                k = k + 1;
            }
            proof {
                assert(e.take(e.len() as int) =~= e);
            }
        },
        None => {},
    }
    let ghost before = out@;
    while out.len() < sample_count
        invariant
            out@.len() <= sample_count,
            before.len() <= out@.len(),
            forall|i: int| 0 <= i < before.len() ==> out@[i] == before[i],
            forall|i: int| before.len() <= i < out@.len() ==> out@[i] == 0i32,
        decreases sample_count - out@.len(),
    {
        out.push(0i32);
    }
    out
}

proof fn lemma_ctts_prefix(e: Seq<CttsEntry>, k: int)
    requires
        0 <= k <= e.len(),
    ensures
        ctts_expand(e.take(k)).len() <= ctts_expand(e).len(),
        forall|i: int| 0 <= i < ctts_expand(e.take(k)).len() ==> ctts_expand(e.take(k))[i] == ctts_expand(e)[i],
    decreases e.len() - k,
{
    if k < e.len() {
        lemma_ctts_prefix(e, k + 1);
        assert(e.take(k + 1).drop_last() =~= e.take(k));
    } else {
        assert(e.take(k) =~= e);
    }
}

proof fn lemma_layout_fits_mono(stsc: Seq<StscEntry>, offsets: Seq<u64>, sizes: Seq<u32>, count: int, c: int, n: int)
    requires
        c <= n,
        layout_fits(stsc, offsets, sizes, count, n),
    ensures
        layout_fits(stsc, offsets, sizes, count, c),
    decreases n - c,
{
    if c < n {
        lemma_layout_fits_mono(stsc, offsets, sizes, count, c, n - 1);
    }
}

proof fn lemma_layout_none_mono(stsc: Seq<StscEntry>, offsets: Seq<u64>, sizes: Seq<u32>, count: int, c: int, n: int)
    requires
        0 <= c <= n,
        layout(stsc, offsets, sizes, count, c) is None,
    ensures
        layout(stsc, offsets, sizes, count, n) is None,
    decreases n - c,
{
    if c < n {
        lemma_layout_none_mono(stsc, offsets, sizes, count, c, n - 1);
    }
}

proof fn lemma_contains_push(s: Seq<u32>, x: u32, y: u32)
    ensures
        s.push(x).contains(y) <==> (s.contains(y) || x == y),
{
    if s.push(x).contains(y) {
        let j = choose|j: int| 0 <= j < s.push(x).len() && s.push(x)[j] == y;
        if j < s.len() {
            assert(s[j] == y);
        }
    }
    if s.contains(y) {
        let j = choose|j: int| 0 <= j < s.len() && s[j] == y;
        assert(s.push(x)[j] == y);
    }
    if x == y {
        assert(s.push(x)[s.len() as int] == y);
    }
}

/// Finds the last stsc entry whose first chunk is at most `chunk`.
fn find_stsc_entry(entries: &Vec<StscEntry>, chunk: u32) -> (r: Option<usize>)
    ensures
        match r {
            Some(k) => stsc_entry_for(entries@, chunk as int) == Some(k as int),
            None => stsc_entry_for(entries@, chunk as int) is None,
        },
        r matches Some(k) ==> k < entries@.len(),
{
    let mut k: usize = entries.len();
    proof {
        assert(entries@.take(k as int) =~= entries@);
    }
    while k > 0
        invariant
            k <= entries@.len(),
            stsc_entry_for(entries@, chunk as int) == stsc_entry_for(entries@.take(k as int), chunk as int),
        decreases k,
    {
        proof {
            assert(entries@.take(k as int).drop_last() =~= entries@.take(k - 1));
        }
        if entries[k - 1].first_chunk <= chunk {
            return Some(k - 1);
        }
        k = k - 1;
    }
    None
}

/// The per-sample sizes of an stsz box.
fn resolve_sizes(stsz: &SampleSizeBox) -> (r: Vec<u32>)
    ensures
        r@ == sizes_of(*stsz),
{
    let mut v: Vec<u32> = Vec::new();
    if stsz.default_sample_size > 0 {
        let mut i: u32 = 0;
        while i < stsz.sample_count
            invariant
                i <= stsz.sample_count,
                stsz.default_sample_size > 0,
                v@ =~= Seq::new(i as nat, |_j: int| stsz.default_sample_size),
            decreases stsz.sample_count - i,
        {
            v.push(stsz.default_sample_size);
            i = i + 1;
        }
    } else {
        let mut i: usize = 0;
        while i < stsz.sample_sizes.len()
            invariant
                i <= stsz.sample_sizes@.len(),
                v@ =~= stsz.sample_sizes@.take(i as int),
            decreases stsz.sample_sizes@.len() - i,
        {
            v.push(stsz.sample_sizes[i]);
            i = i + 1;
        }
        proof {
            assert(stsz.sample_sizes@.take(i as int) =~= stsz.sample_sizes@);
        }
    }
    v
}

/// One flag per sample: whether it is a sync sample (1-indexed numbers in stss).
fn sync_flags(stss: Option<&SyncSampleBox>, count: usize) -> (r: Vec<bool>)
    requires
        count <= u32::MAX,
    ensures
        r@.len() == count,
        forall|i: int| 0 <= i < count ==> r@[i] == (match sync_of(stss) {
            None => true,
            Some(s) => s.contains((i + 1) as u32),
        }),
{
    let all_sync = stss.is_none();
    let mut flags: Vec<bool> = Vec::new();
    let mut i: usize = 0;
    while i < count
        invariant
            i <= count,
            flags@.len() == i,
            forall|t: int| 0 <= t < i ==> flags@[t] == all_sync,
        decreases count - i,
    {
        flags.push(all_sync);
        i = i + 1;
    }
    match stss {
        None => {},
        Some(b) => {
            let ghost s = b.sync_samples@;
            let mut k: usize = 0;
            while k < b.sync_samples.len()
                invariant
                    s == b.sync_samples@,
                    k <= s.len(),
                    count <= u32::MAX,
                    flags@.len() == count,
                    forall|t: int| 0 <= t < count ==> flags@[t] == s.take(k as int).contains((t + 1) as u32),
                decreases s.len() - k,
            {
                let v = b.sync_samples[k];
                proof {
                    assert(s.take(k + 1) =~= s.take(k as int).push(v));
                    assert forall|t: int| 0 <= t < count implies
                        #[trigger] s.take(k + 1).contains((t + 1) as u32)
                            == (s.take(k as int).contains((t + 1) as u32) || v == (t + 1) as u32) by {
                        lemma_contains_push(s.take(k as int), v, (t + 1) as u32);
                    }
                }
                if v >= 1 && (v as usize) <= count {
                    flags.set((v - 1) as usize, true);
                }
                k = k + 1;
            }
            proof {
                assert(s.take(s.len() as int) =~= s);
            }
        },
    }
    flags
}

/// Build a flat sample table from the parsed box data.
///
/// Fails when stsz lists fewer sizes than it has samples, or when a chunk
/// has no stsc entry.
pub fn build_sample_table(
    stts: &TimeToSampleBox,
    ctts: Option<&CompositionOffsetBox>,
    stsc: &SampleToChunkBox,
    stsz: &SampleSizeBox,
    chunk_offsets: &ChunkOffsetBox,
    stss: Option<&SyncSampleBox>,
    timescale: u32,
) -> (r: Result<SampleTable, Mp4Error>)
    requires
        stts_total(stts.entries@) <= i64::MAX,
        sizes_of(*stsz).len() >= stsz.sample_count ==> {
            &&& chunk_offsets.offsets@.len() <= u32::MAX
            &&& layout_fits(
                stsc.entries@,
                chunk_offsets.offsets@,
                sizes_of(*stsz),
                stsz.sample_count as int,
                chunk_offsets.offsets@.len() as int,
            )
        },
    ensures
        r is Err <==> (sizes_of(*stsz).len() < stsz.sample_count || table_layout(stsc, stsz, chunk_offsets) is None),
        sizes_of(*stsz).len() < stsz.sample_count ==> (r matches Err(Mp4Error::InvalidBox { offset, message })
            && offset == 0
            && message@ == "stsz has "@ + dec(sizes_of(*stsz).len()) + " sizes but expected "@ + dec(stsz.sample_count as nat)),
        sizes_of(*stsz).len() >= stsz.sample_count && table_layout(stsc, stsz, chunk_offsets) is None
            ==> (r matches Err(Mp4Error::InvalidBox { offset, message }) && offset == 0
                && message@ == "stsc has no entry for chunk"@),
        r matches Ok(t) ==> {
            &&& t.timescale == timescale
            &&& t.entries@.len() <= stsz.sample_count
            &&& entries_match(
                t.entries@,
                table_layout(stsc, stsz, chunk_offsets)->Some_0,
                sizes_of(*stsz),
                stts_dts(stts.entries@),
                cts_of(ctts),
                sync_of(stss),
            )
        },
{
    let sample_count = stsz.sample_count as usize;
    let flags = sync_flags(stss, sample_count);
    let dts_values = expand_dts(stts);
    let cts_offsets = expand_cts(ctts, sample_count);
    let sizes = resolve_sizes(stsz);
    if sizes.len() < sample_count {
        let mut m = String::new();
        push_text(&mut m, "stsz has ");
        push_dec(&mut m, sizes.len() as u64);
        push_text(&mut m, " sizes but expected ");
        push_dec(&mut m, sample_count as u64);
        return Err(Mp4Error::InvalidBox { offset: 0, message: m });
    }
    let ghost stsc_e = stsc.entries@;
    let ghost offs = chunk_offsets.offsets@;
    let ghost sz = sizes@;
    let ghost count = sample_count as int;
    let num_chunks = chunk_offsets.offsets.len();
    let mut sample_offsets: Vec<u64> = Vec::new();
    let mut sample_idx: usize = 0;
    let mut chunk_idx: usize = 0;
    while chunk_idx < num_chunks
        invariant
            stsc_e == stsc.entries@,
            offs == chunk_offsets.offsets@,
            sz == sizes@,
            sz == sizes_of(*stsz),
            count == sample_count,
            count == stsz.sample_count,
            num_chunks == offs.len(),
            num_chunks <= u32::MAX,
            chunk_idx <= num_chunks,
            sz.len() >= count,
            layout_fits(stsc_e, offs, sz, count, num_chunks as int),
            layout(stsc_e, offs, sz, count, chunk_idx as int) is Some,
            sample_idx == sample_offsets@.len(),
            sample_offsets@.len() == layout(stsc_e, offs, sz, count, chunk_idx as int)->Some_0.len(),
            forall|i: int| 0 <= i < sample_offsets@.len() ==>
                sample_offsets@[i] == layout(stsc_e, offs, sz, count, chunk_idx as int)->Some_0[i],
        decreases num_chunks - chunk_idx,
    {
        let chunk_num = chunk_idx as u32 + 1;
        let found = find_stsc_entry(&stsc.entries, chunk_num);
        let k = match found {
            None => {
                proof {
                    lemma_layout_none_mono(stsc_e, offs, sz, count, chunk_idx + 1, num_chunks as int);
                }
                let mut m = String::new();
                push_text(&mut m, "stsc has no entry for chunk");
                return Err(Mp4Error::InvalidBox { offset: 0, message: m });
            },
            Some(k) => k,
        };
        let spc = stsc.entries[k].samples_per_chunk;
        let off0 = chunk_offsets.offsets[chunk_idx];
        let ghost prev = layout(stsc_e, offs, sz, count, chunk_idx as int)->Some_0;
        let ghost n = run_len(spc as int, prev.len() as int, count);
        proof {
            lemma_layout_len(stsc_e, offs, sz, count, chunk_idx as int);
            lemma_layout_fits_mono(stsc_e, offs, sz, count, chunk_idx + 1, num_chunks as int);
        }
        let mut chunk_offset: u64 = off0;
        let mut j: u32 = 0;
        while j < spc && sample_idx < sample_count
            invariant
                sz == sizes@,
                count == sample_count,
                sz.len() >= count,
                prev.len() <= count,
                n == run_len(spc as int, prev.len() as int, count),
                j <= spc,
                sample_idx == prev.len() + j,
                sample_idx <= count,
                j <= n,
                chunk_offset == off0 + size_sum(sz, prev.len() as int, sample_idx as int),
                off0 + size_sum(sz, prev.len() as int, prev.len() + n) <= u64::MAX,
                sample_offsets@.len() == sample_idx,
                forall|i: int| 0 <= i < prev.len() ==> sample_offsets@[i] == prev[i],
                forall|i: int| prev.len() <= i < sample_idx ==> sample_offsets@[i] == off0 + size_sum(sz, prev.len() as int, i),
            decreases spc - j,
        {
            sample_offsets.push(chunk_offset);
            proof {
                lemma_size_sum_mono(sz, prev.len() as int, sample_idx + 1, prev.len() + n);
            }
            chunk_offset = chunk_offset + sizes[sample_idx] as u64;
            sample_idx = sample_idx + 1;
            j = j + 1;
        }
        proof {
            assert(j == n);
            let run = chunk_run(sz, prev.len() as int, n, off0 as int);
            let next = layout(stsc_e, offs, sz, count, chunk_idx + 1);
            assert(next == Some(prev + run));
            assert forall|i: int| 0 <= i < sample_offsets@.len() implies sample_offsets@[i] == (prev + run)[i] by {
                if i >= prev.len() {
                    assert(run[i - prev.len()] == off0 + size_sum(sz, prev.len() as int, i));
                }
            }
        }
        chunk_idx = chunk_idx + 1;
    }
    let ghost l = layout(stsc_e, offs, sz, count, num_chunks as int)->Some_0;
    proof {
        lemma_layout_len(stsc_e, offs, sz, count, num_chunks as int);
    }
    let resolved = sample_offsets.len();
    let mut entries: Vec<SampleEntry> = Vec::new();
    let mut i: usize = 0;
    while i < resolved
        invariant
            resolved == sample_offsets@.len(),
            resolved == l.len(),
            resolved <= count,
            count == sample_count,
            count <= u32::MAX,
            sz == sizes@,
            sz.len() >= count,
            forall|t: int| 0 <= t < resolved ==> sample_offsets@[t] == l[t],
            dts_values@.len() == stts_dts(stts.entries@).len(),
            forall|t: int| 0 <= t < dts_values@.len() ==> dts_values@[t] == stts_dts(stts.entries@)[t],
            cts_offsets@.len() == count,
            forall|t: int| 0 <= t < count ==> cts_offsets@[t] == (if t < cts_of(ctts).len() { cts_of(ctts)[t] } else { 0i32 }),
            flags@.len() == count,
            forall|t: int| 0 <= t < count ==> flags@[t] == (match sync_of(stss) {
                None => true,
                Some(s) => s.contains((t + 1) as u32),
            }),
            i <= resolved,
            entries@.len() == i,
            forall|t: int| 0 <= t < i ==> entry_matches(#[trigger] entries@[t], t, l, sz, stts_dts(stts.entries@), cts_of(ctts), sync_of(stss)),
        decreases resolved - i,
    {
        let dts = if i < dts_values.len() { dts_values[i] } else { 0i64 };
        entries.push(SampleEntry {
            sample_index: i as u32,
            offset: sample_offsets[i],
            size: sizes[i],
            dts,
            cts_offset: cts_offsets[i],
            is_keyframe: flags[i],
        });
        i = i + 1;
    }
    Ok(SampleTable { entries, timescale })
}

/// Whether the decode times of `stts` fit `i64` and, when stsz lists enough
/// sizes, the chunks are at most `u32::MAX` and every running byte offset
/// fits `u64`: exactly the inputs on which `build_sample_table` can run.
pub open spec fn table_fits(stts: &TimeToSampleBox, stsc: &SampleToChunkBox, stsz: &SampleSizeBox, chunk_offsets: &ChunkOffsetBox) -> bool {
    &&& stts_total(stts.entries@) <= i64::MAX
    &&& sizes_of(*stsz).len() >= stsz.sample_count ==> {
        &&& chunk_offsets.offsets@.len() <= u32::MAX
        &&& layout_fits(
            stsc.entries@,
            chunk_offsets.offsets@,
            sizes_of(*stsz),
            stsz.sample_count as int,
            chunk_offsets.offsets@.len() as int,
        )
    }
}

/// Sum of the stts run durations, in `u128`.
fn stts_total_exec(stts: &TimeToSampleBox) -> (r: u128)
    ensures
        r == stts_total(stts.entries@),
{
    let ghost e = stts.entries@;
    let mut total: u128 = 0;
    let mut k: usize = 0;
    while k < stts.entries.len()
        invariant
            e == stts.entries@,
            k <= e.len(),
            total == stts_total(e.take(k as int)),
            total <= k * 0xFFFF_FFFF_FFFF_FFFFu128,
        decreases e.len() - k,
    {
        let entry = stts.entries[k];
        proof {
            assert(e.take(k + 1).drop_last() =~= e.take(k as int));
            assert(entry.sample_count * entry.sample_delta <= 0xFFFF_FFFF_FFFF_FFFFu128) by (nonlinear_arith)
                requires entry.sample_count <= 0xFFFF_FFFF, entry.sample_delta <= 0xFFFF_FFFF;
            assert(k * 0xFFFF_FFFF_FFFF_FFFFu128 + 0xFFFF_FFFF_FFFF_FFFFu128 <= u128::MAX) by (nonlinear_arith)
                requires k <= 0xFFFF_FFFF_FFFF_FFFFu128;
        }
        total = total + (entry.sample_count as u128) * (entry.sample_delta as u128);
        k = k + 1;
    }
    proof {
        assert(e.take(e.len() as int) =~= e);
    }
    total
}

/// Decides `table_fits`: whether `build_sample_table` can run on these boxes.
pub fn sample_table_fits(
    stts: &TimeToSampleBox,
    stsc: &SampleToChunkBox,
    stsz: &SampleSizeBox,
    chunk_offsets: &ChunkOffsetBox,
) -> (r: bool)
    ensures
        r == table_fits(stts, stsc, stsz, chunk_offsets),
{
    if stts_total_exec(stts) > 0x7fff_ffff_ffff_ffffu128 {
        return false;
    }
    let sizes = resolve_sizes(stsz);
    let sample_count = stsz.sample_count as usize;
    if sizes.len() < sample_count {
        return true;
    }
    let num_chunks = chunk_offsets.offsets.len();
    if num_chunks > 0xffff_ffff {
        return false;
    }
    let ghost stsc_e = stsc.entries@;
    let ghost offs = chunk_offsets.offsets@;
    let ghost sz = sizes@;
    let ghost count = sample_count as int;
    let mut placed: usize = 0;
    let mut chunk_idx: usize = 0;
    while chunk_idx < num_chunks
        invariant
            stsc_e == stsc.entries@,
            offs == chunk_offsets.offsets@,
            sz == sizes@,
            sz == sizes_of(*stsz),
            count == sample_count,
            count == stsz.sample_count,
            num_chunks == offs.len(),
            num_chunks <= u32::MAX,
            chunk_idx <= num_chunks,
            sz.len() >= count,
            layout_fits(stsc_e, offs, sz, count, chunk_idx as int),
            layout(stsc_e, offs, sz, count, chunk_idx as int) is Some,
            placed == layout(stsc_e, offs, sz, count, chunk_idx as int)->Some_0.len(),
            stts_total(stts.entries@) <= i64::MAX,
        decreases num_chunks - chunk_idx,
    {
        proof {
            lemma_layout_len(stsc_e, offs, sz, count, chunk_idx as int);
        }
        let chunk_num = chunk_idx as u32 + 1;
        let k = match find_stsc_entry(&stsc.entries, chunk_num) {
            None => {
                proof {
                    lemma_layout_fits_after_none(stsc_e, offs, sz, count, chunk_idx + 1, num_chunks as int);
                }
                return true;
            },
            Some(k) => k,
        };
        let spc = stsc.entries[k].samples_per_chunk as usize;
        let n: usize = if placed >= sample_count {
            0
        } else if spc < sample_count - placed {
            spc
        } else {
            sample_count - placed
        };
        let ghost prev = layout(stsc_e, offs, sz, count, chunk_idx as int)->Some_0;
        let mut acc: u128 = chunk_offsets.offsets[chunk_idx] as u128;
        let mut j: usize = 0;
        while j < n
            invariant
                j <= n,
                placed + n <= count,
                count == sample_count,
                count <= u32::MAX,
                sz.len() >= count,
                sz == sizes@,
                acc == offs[chunk_idx as int] + size_sum(sz, placed as int, placed + j),
                acc <= 0xFFFF_FFFF_FFFF_FFFFu128 + j * 0xFFFF_FFFFu128,
                j <= 0xFFFF_FFFF,
                chunk_idx < offs.len(),
            decreases n - j,
        {
            proof {
                assert(j * 0xFFFF_FFFFu128 + 0xFFFF_FFFFu128 <= 0x1_0000_0000u128 * 0xFFFF_FFFFu128) by (nonlinear_arith)
                    requires j <= 0xFFFF_FFFF;
            }
            acc = acc + sizes[placed + j] as u128;
            j = j + 1;
        }
        if acc > 0xFFFF_FFFF_FFFF_FFFFu128 {
            proof {
                if layout_fits(stsc_e, offs, sz, count, num_chunks as int) {
                    lemma_layout_fits_mono(stsc_e, offs, sz, count, chunk_idx + 1, num_chunks as int);
                    assert(n == run_len(stsc_e[k as int].samples_per_chunk as int, prev.len() as int, count));
                    assert(false);
                }
            }
            return false;
        }
        placed = placed + n;
        chunk_idx = chunk_idx + 1;
    }
    true
}

proof fn lemma_layout_fits_after_none(stsc: Seq<StscEntry>, offsets: Seq<u64>, sizes: Seq<u32>, count: int, c: int, n: int)
    requires
        0 < c <= n,
        layout_fits(stsc, offsets, sizes, count, c - 1),
        layout(stsc, offsets, sizes, count, c - 1) is Some,
        stsc_entry_for(stsc, c) is None,
    ensures
        layout_fits(stsc, offsets, sizes, count, n),
    decreases n - c,
{
    if c < n {
        lemma_layout_fits_after_none(stsc, offsets, sizes, count, c, n - 1);
        lemma_layout_none_mono(stsc, offsets, sizes, count, c, n - 1);
    }
}

} // verus!
