//! Sample table box builders for the MP4 muxer.
//!
//! These functions serialize mux-time sample metadata into the binary box
//! formats of the MP4 container (stts, ctts, stsc, stsz, co64, stss, ftyp).

use vstd::prelude::*;
use crate::mp4::box_builders::{box_bytes, make_box, make_full_box, zeros};
use crate::wire::{push_repeat, push_u32, push_u64, u32_bytes, u64_bytes};

verus! {

/// A single sample's metadata recorded during muxing.
#[derive(Debug, Clone, Copy)]
pub struct MuxSample {
    pub offset: u64,
    pub size: u32,
    pub dts: i64,
    pub cts_offset: i32,
    pub is_sync: bool,
}

/// Run-length encoding of `s`: adjacent equal values share one run.
pub open spec fn rle(s: Seq<u32>) -> Seq<(u32, u32)>
    decreases s.len(),
{
    if s.len() == 0 {
        seq![]
    } else {
        let prev = rle(s.drop_last());
        if prev.len() > 0 && prev.last().1 == s.last() {
            prev.update(prev.len() - 1, ((prev.last().0 + 1) as u32, s.last()))
        } else {
            prev.push((1u32, s.last()))
        }
    }
}

/// The values a run-length encoding stands for.
pub open spec fn expand_runs(r: Seq<(u32, u32)>) -> Seq<u32>
    decreases r.len(),
{
    if r.len() == 0 {
        seq![]
    } else {
        expand_runs(r.drop_last()) + Seq::new(r.last().0 as nat, |_i: int| r.last().1)
    }
}

/// The bytes of run entries, each as count then value.
pub open spec fn runs_bytes(r: Seq<(u32, u32)>) -> Seq<u8>
    decreases r.len(),
{
    if r.len() == 0 {
        seq![]
    } else {
        runs_bytes(r.drop_last()) + u32_bytes(r.last().0) + u32_bytes(r.last().1)
    }
}

/// The decode-time delta written for each sample: the distance to the next
/// sample, the previous delta for the last sample, and 1 for a lone sample.
pub open spec fn mux_deltas(s: Seq<MuxSample>) -> Seq<u32> {
    Seq::new(s.len(), |i: int| if i + 1 < s.len() {
        (s[i + 1].dts - s[i].dts) as u32
    } else if i > 0 {
        (s[i].dts - s[i - 1].dts) as u32
    } else {
        1u32
    })
}

/// Whether adjacent decode times are at most an `i64` apart.
pub open spec fn dts_steps_fit(s: Seq<MuxSample>) -> bool {
    forall|i: int| 0 <= i < s.len() - 1 ==> i64::MIN <= #[trigger] s[i + 1].dts - s[i].dts <= i64::MAX
}

/// Composition offsets, as written (reinterpreted as unsigned).
pub open spec fn mux_cts(s: Seq<MuxSample>) -> Seq<u32> {
    Seq::new(s.len(), |i: int| s[i].cts_offset as u32)
}

/// 1-based numbers of the sync samples among the first `n`.
pub open spec fn sync_numbers(s: Seq<MuxSample>, n: int) -> Seq<u32>
    decreases n,
{
    if n <= 0 {
        seq![]
    } else if s[n - 1].is_sync {
        sync_numbers(s, n - 1).push(n as u32)
    } else {
        sync_numbers(s, n - 1)
    }
}

/// Big-endian words, one per value.
pub open spec fn words(v: Seq<u32>) -> Seq<u8>
    decreases v.len(),
{
    if v.len() == 0 {
        seq![]
    } else {
        words(v.drop_last()) + u32_bytes(v.last())
    }
}

/// Big-endian 64-bit words, one per value.
pub open spec fn words64(v: Seq<u64>) -> Seq<u8>
    decreases v.len(),
{
    if v.len() == 0 {
        seq![]
    } else {
        words64(v.drop_last()) + u64_bytes(v.last())
    }
}

pub open spec fn ftyp_tag() -> Seq<u8> { seq![0x66u8, 0x74u8, 0x79u8, 0x70u8] }
pub open spec fn stts_tag() -> Seq<u8> { seq![0x73u8, 0x74u8, 0x74u8, 0x73u8] }
pub open spec fn ctts_tag() -> Seq<u8> { seq![0x63u8, 0x74u8, 0x74u8, 0x73u8] }
pub open spec fn stsc_tag() -> Seq<u8> { seq![0x73u8, 0x74u8, 0x73u8, 0x63u8] }
pub open spec fn stsz_tag() -> Seq<u8> { seq![0x73u8, 0x74u8, 0x73u8, 0x7au8] }
pub open spec fn co64_tag() -> Seq<u8> { seq![0x63u8, 0x6fu8, 0x36u8, 0x34u8] }
pub open spec fn stss_tag() -> Seq<u8> { seq![0x73u8, 0x74u8, 0x73u8, 0x73u8] }
pub open spec fn isom() -> Seq<u8> { seq![0x69u8, 0x73u8, 0x6fu8, 0x6du8] }
pub open spec fn iso2() -> Seq<u8> { seq![0x69u8, 0x73u8, 0x6fu8, 0x32u8] }
pub open spec fn mp41() -> Seq<u8> { seq![0x6du8, 0x70u8, 0x34u8, 0x31u8] }

/// Run-length encoding followed by expansion gives back the values.
pub proof fn lemma_rle_round_trip(s: Seq<u32>)
    requires
        s.len() <= u32::MAX,
    ensures
        expand_runs(rle(s)) == s,
        forall|i: int| 0 <= i < rle(s).len() ==> #[trigger] rle(s)[i].0 >= 1,
    decreases s.len(),
{
    if s.len() > 0 {
        let p = s.drop_last();
        lemma_rle_round_trip(p);
        lemma_rle_counts(p);
        let prev = rle(p);
        if prev.len() > 0 && prev.last().1 == s.last() {
            let r = rle(s);
            assert(r.drop_last() =~= prev.drop_last());
            let c = prev.last().0;
            assert(prev[prev.len() - 1].0 <= p.len());
            assert(c + 1 <= u32::MAX);
            assert(r.last() == ((c + 1) as u32, s.last()));
            assert(((c + 1) as u32) as int == c + 1);
            let e = expand_runs(prev.drop_last());
            assert(expand_runs(prev) == e + Seq::new(c as nat, |_i: int| prev.last().1));
            assert(expand_runs(r) == e + Seq::new((c + 1) as nat, |_i: int| s.last()));
            assert(s =~= p.push(s.last()));
            assert(expand_runs(r) =~= s);
        } else {
            assert(rle(s).drop_last() =~= prev);
            assert(expand_runs(rle(s)) =~= s);
        }
    }
}

/// Each run of an encoding of `s` counts at most `s.len()` values.
/// Adjacent runs of a run-length encoding hold different values: equal
/// neighbours always join one run.
pub proof fn lemma_rle_runs_differ(s: Seq<u32>)
    ensures
        forall|i: int| 0 <= i < rle(s).len() - 1 ==> #[trigger] rle(s)[i].1 != rle(s)[i + 1].1,
    decreases s.len(),
{
    if s.len() > 0 {
        let p = s.drop_last();
        lemma_rle_runs_differ(p);
        let prev = rle(p);
        let r = rle(s);
        if prev.len() > 0 && prev.last().1 == s.last() {
            assert forall|i: int| 0 <= i < r.len() - 1 implies #[trigger] r[i].1 != r[i + 1].1 by {
                assert(r[i] == prev[i]);
                assert(r[i + 1].1 == prev[i + 1].1);
            }
        } else {
            assert forall|i: int| 0 <= i < r.len() - 1 implies #[trigger] r[i].1 != r[i + 1].1 by {
                assert(r[i] == prev[i]);
                if i + 1 < prev.len() {
                    assert(r[i + 1] == prev[i + 1]);
                } else {
                    assert(r[i + 1].1 == s.last());
                }
            }
        }
    }
}

proof fn lemma_rle_counts(s: Seq<u32>)
    ensures
        forall|i: int| 0 <= i < rle(s).len() ==> #[trigger] rle(s)[i].0 <= s.len(),
        rle(s).len() <= s.len(),
    decreases s.len(),
{
    if s.len() > 0 {
        lemma_rle_counts(s.drop_last());
    }
}

/// Encodes `values` into runs.
fn encode_runs(values: &Vec<u32>) -> (r: Vec<(u32, u32)>)
    requires
        values@.len() <= u32::MAX,
    ensures
        r@ == rle(values@),
{
    let mut runs: Vec<(u32, u32)> = Vec::new();
    let mut i: usize = 0;
    while i < values.len()
        invariant
            i <= values@.len(),
            values@.len() <= u32::MAX,
            runs@ == rle(values@.take(i as int)),
        decreases values@.len() - i,
    {
        let v = values[i];
        proof {
            assert(values@.take(i + 1).drop_last() =~= values@.take(i as int));
            lemma_rle_counts(values@.take(i as int));
        }
        let n = runs.len();
        if n > 0 && runs[n - 1].1 == v {
            let (c, _) = runs[n - 1];
            runs.set(n - 1, (c + 1, v));
        } else {
            runs.push((1, v));
        }
        i = i + 1;
    }
    proof {
        assert(values@.take(values@.len() as int) =~= values@);
    }
    runs
}

/// Appends each run as count then value.
fn push_runs(out: &mut Vec<u8>, runs: &Vec<(u32, u32)>)
    ensures
        final(out)@ == old(out)@ + runs_bytes(runs@),
{
    let ghost start = out@;
    let mut i: usize = 0;
    while i < runs.len()
        invariant
            i <= runs@.len(),
            out@ == start + runs_bytes(runs@.take(i as int)),
        decreases runs@.len() - i,
    {
        let (c, v) = runs[i];
        push_u32(out, c);
        push_u32(out, v);
        proof {
            assert(runs@.take(i + 1).drop_last() =~= runs@.take(i as int));
        }
        i = i + 1;
        assert(out@ =~= start + runs_bytes(runs@.take(i as int)));
    }
    proof {
        assert(runs@.take(runs@.len() as int) =~= runs@);
    }
}

/// Builds the `ftyp` box of a regular MP4 file (brand isom; isom, iso2, mp41).
pub fn build_ftyp() -> (r: Vec<u8>)
    ensures
        r@ == box_bytes(ftyp_tag(), isom() + u32_bytes(0) + isom() + iso2() + mp41()),
{
    let mut body: Vec<u8> = Vec::new();
    body.push(0x69);
    body.push(0x73);
    body.push(0x6f);
    body.push(0x6d);
    push_u32(&mut body, 0);
    body.push(0x69);
    body.push(0x73);
    body.push(0x6f);
    body.push(0x6d);
    body.push(0x69);
    body.push(0x73);
    body.push(0x6f);
    body.push(0x32);
    body.push(0x6d);
    body.push(0x70);
    body.push(0x34);
    body.push(0x31);
    assert(body@ =~= isom() + u32_bytes(0) + isom() + iso2() + mp41());
    let t: [u8; 4] = [0x66, 0x74, 0x79, 0x70];
    assert(t@ =~= ftyp_tag());
    make_box(&t, body.as_slice())
}

/// Builds an `stts` box: the decode-time deltas, run-length encoded.
pub fn build_stts(samples: &Vec<MuxSample>) -> (r: Vec<u8>)
    requires
        samples@.len() <= u32::MAX,
        dts_steps_fit(samples@),
    ensures
        samples@.len() == 0 ==> r@ == box_bytes(stts_tag(), zeros(4) + u32_bytes(0)),
        samples@.len() > 0 ==> r@ == box_bytes(stts_tag(), zeros(4)
            + u32_bytes(rle(mux_deltas(samples@)).len() as u32) + runs_bytes(rle(mux_deltas(samples@)))),
{
    let t: [u8; 4] = [0x73, 0x74, 0x74, 0x73];
    assert(t@ =~= stts_tag());
    let mut body: Vec<u8> = Vec::new();
    push_repeat(&mut body, 0, 4);
    if samples.len() == 0 {
        push_u32(&mut body, 0);
        assert(body@ =~= zeros(4) + u32_bytes(0));
        return make_full_box(&t, body.as_slice());
    }
    let n = samples.len();
    let mut deltas: Vec<u32> = Vec::new();
    let mut i: usize = 0;
    while i < n
        invariant
            n == samples@.len(),
            n > 0,
            dts_steps_fit(samples@),
            i <= n,
            deltas@ == mux_deltas(samples@).take(i as int),
        decreases n - i,
    {
        let d: u32 = if i + 1 < n {
            assert(i64::MIN <= samples@[i + 1].dts - samples@[i as int].dts <= i64::MAX);
            (samples[i + 1].dts - samples[i].dts) as u32
        } else if i > 0 {
            assert(i64::MIN <= samples@[(i - 1) + 1].dts - samples@[i - 1].dts <= i64::MAX);
            (samples[i].dts - samples[i - 1].dts) as u32
        } else {
            1
        };
        deltas.push(d);
        i = i + 1;
        assert(deltas@ =~= mux_deltas(samples@).take(i as int));
    }
    assert(deltas@ =~= mux_deltas(samples@));
    let runs = encode_runs(&deltas);
    proof {
        lemma_rle_counts(deltas@);
    }
    push_u32(&mut body, runs.len() as u32);
    push_runs(&mut body, &runs);
    make_full_box(&t, body.as_slice())
}

/// Builds a `ctts` box (version 0) with the composition offsets run-length
/// encoded, or `None` when every offset is zero.
pub fn build_ctts(samples: &Vec<MuxSample>) -> (r: Option<Vec<u8>>)
    requires
        samples@.len() <= u32::MAX,
    ensures
        (forall|i: int| 0 <= i < samples@.len() ==> #[trigger] samples@[i].cts_offset == 0) <==> r is None,
        r matches Some(b) ==> b@ == box_bytes(ctts_tag(), zeros(4)
            + u32_bytes(rle(mux_cts(samples@)).len() as u32) + runs_bytes(rle(mux_cts(samples@)))),
{
    let n = samples.len();
    let mut values: Vec<u32> = Vec::new();
    let mut all_zero = true;
    let mut i: usize = 0;
    while i < n
        invariant
            n == samples@.len(),
            i <= n,
            values@ == mux_cts(samples@).take(i as int),
            all_zero <==> forall|k: int| 0 <= k < i ==> #[trigger] samples@[k].cts_offset == 0,
        decreases n - i,
    {
        let c = samples[i].cts_offset;
        if c != 0 {
            all_zero = false;
        }
        values.push(c as u32);
        i = i + 1;
        assert(values@ =~= mux_cts(samples@).take(i as int));
    }
    if all_zero {
        return None;
    }
    assert(values@ =~= mux_cts(samples@));
    let runs = encode_runs(&values);
    proof {
        lemma_rle_counts(values@);
    }
    let mut body: Vec<u8> = Vec::new();
    push_repeat(&mut body, 0, 4);
    push_u32(&mut body, runs.len() as u32);
    push_runs(&mut body, &runs);
    let t: [u8; 4] = [0x63, 0x74, 0x74, 0x73];
    assert(t@ =~= ctts_tag());
    Some(make_full_box(&t, body.as_slice()))
}

/// Builds an `stsc` box mapping every sample to a chunk of its own.
pub fn build_stsc(sample_count: u32) -> (r: Vec<u8>)
    ensures
        sample_count > 0 ==> r@ == box_bytes(stsc_tag(),
            zeros(4) + u32_bytes(1) + u32_bytes(1) + u32_bytes(1) + u32_bytes(1)),
        sample_count == 0 ==> r@ == box_bytes(stsc_tag(), zeros(4) + u32_bytes(0)),
{
    let mut body: Vec<u8> = Vec::new();
    push_repeat(&mut body, 0, 4);
    if sample_count > 0 {
        push_u32(&mut body, 1);
        push_u32(&mut body, 1);
        push_u32(&mut body, 1);
        push_u32(&mut body, 1);
        assert(body@ =~= zeros(4) + u32_bytes(1) + u32_bytes(1) + u32_bytes(1) + u32_bytes(1));
    } else {
        push_u32(&mut body, 0);
        assert(body@ =~= zeros(4) + u32_bytes(0));
    }
    let t: [u8; 4] = [0x73, 0x74, 0x73, 0x63];
    assert(t@ =~= stsc_tag());
    make_full_box(&t, body.as_slice())
}

/// Builds an `stsz` box listing every sample's size.
pub fn build_stsz(samples: &Vec<MuxSample>) -> (r: Vec<u8>)
    ensures
        r@ == box_bytes(stsz_tag(), zeros(4) + u32_bytes(0) + u32_bytes(samples@.len() as u32)
            + words(Seq::new(samples@.len(), |i: int| samples@[i].size))),
{
    let mut body: Vec<u8> = Vec::new();
    push_repeat(&mut body, 0, 4);
    push_u32(&mut body, 0);
    push_u32(&mut body, samples.len() as u32);
    let ghost head = body@;
    let mut i: usize = 0;
    while i < samples.len()
        invariant
            i <= samples@.len(),
            body@ == head + words(Seq::new(i as nat, |k: int| samples@[k].size)),
        decreases samples@.len() - i,
    {
        push_u32(&mut body, samples[i].size);
        proof {
            assert(Seq::new((i + 1) as nat, |k: int| samples@[k].size).drop_last()
                =~= Seq::new(i as nat, |k: int| samples@[k].size));
        }
        i = i + 1;
        assert(body@ =~= head + words(Seq::new(i as nat, |k: int| samples@[k].size)));
    }
    let t: [u8; 4] = [0x73, 0x74, 0x73, 0x7a];
    assert(t@ =~= stsz_tag());
    make_full_box(&t, body.as_slice())
}

/// Builds a `co64` box with every sample's 64-bit file offset (one chunk per sample).
pub fn build_stco(samples: &Vec<MuxSample>) -> (r: Vec<u8>)
    ensures
        r@ == box_bytes(co64_tag(), zeros(4) + u32_bytes(samples@.len() as u32)
            + words64(Seq::new(samples@.len(), |i: int| samples@[i].offset))),
{
    let mut body: Vec<u8> = Vec::new();
    push_repeat(&mut body, 0, 4);
    push_u32(&mut body, samples.len() as u32);
    let ghost head = body@;
    let mut i: usize = 0;
    while i < samples.len()
        invariant
            i <= samples@.len(),
            body@ == head + words64(Seq::new(i as nat, |k: int| samples@[k].offset)),
        decreases samples@.len() - i,
    {
        push_u64(&mut body, samples[i].offset);
        proof {
            assert(Seq::new((i + 1) as nat, |k: int| samples@[k].offset).drop_last()
                =~= Seq::new(i as nat, |k: int| samples@[k].offset));
        }
        i = i + 1;
        assert(body@ =~= head + words64(Seq::new(i as nat, |k: int| samples@[k].offset)));
    }
    let t: [u8; 4] = [0x63, 0x6f, 0x36, 0x34];
    assert(t@ =~= co64_tag());
    make_full_box(&t, body.as_slice())
}

pub proof fn lemma_sync_numbers_len(s: Seq<MuxSample>, n: int)
    requires
        0 <= n <= s.len(),
    ensures
        sync_numbers(s, n).len() <= n,
        sync_numbers(s, n).len() == n <==> forall|k: int| 0 <= k < n ==> #[trigger] s[k].is_sync,
    decreases n,
{
    if n > 0 {
        lemma_sync_numbers_len(s, n - 1);
    }
}

/// Builds an `stss` box listing the 1-based numbers of the sync samples, or
/// `None` when every sample is a sync sample.
pub fn build_stss(samples: &Vec<MuxSample>) -> (r: Option<Vec<u8>>)
    requires
        samples@.len() < u32::MAX,
    ensures
        (forall|i: int| 0 <= i < samples@.len() ==> #[trigger] samples@[i].is_sync) <==> r is None,
        r matches Some(b) ==> b@ == box_bytes(stss_tag(), zeros(4)
            + u32_bytes(sync_numbers(samples@, samples@.len() as int).len() as u32)
            + words(sync_numbers(samples@, samples@.len() as int))),
{
    let n = samples.len();
    let mut keyframes: Vec<u32> = Vec::new();
    let mut i: usize = 0;
    while i < n
        invariant
            n == samples@.len(),
            n < u32::MAX,
            i <= n,
            keyframes@ == sync_numbers(samples@, i as int),
        decreases n - i,
    {
        if samples[i].is_sync {
            keyframes.push(i as u32 + 1);
        }
        i = i + 1;
    }
    proof {
        lemma_sync_numbers_len(samples@, n as int);
    }
    if keyframes.len() == n {
        return None;
    }
    let mut body: Vec<u8> = Vec::new();
    push_repeat(&mut body, 0, 4);
    push_u32(&mut body, keyframes.len() as u32);
    let ghost head = body@;
    let mut k: usize = 0;
    while k < keyframes.len()
        invariant
            k <= keyframes@.len(),
            body@ == head + words(keyframes@.take(k as int)),
        decreases keyframes@.len() - k,
    {
        push_u32(&mut body, keyframes[k]);
        proof {
            assert(keyframes@.take(k + 1).drop_last() =~= keyframes@.take(k as int));
        }
        k = k + 1;
        assert(body@ =~= head + words(keyframes@.take(k as int)));
    }
    proof {
        assert(keyframes@.take(keyframes@.len() as int) =~= keyframes@);
    }
    let t: [u8; 4] = [0x73, 0x74, 0x73, 0x73];
    assert(t@ =~= stss_tag());
    Some(make_full_box(&t, body.as_slice()))
}

} // verus!
