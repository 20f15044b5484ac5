//! Box-building helpers specific to fragmented MP4 (fMP4).
//!
//! These functions produce the raw bytes of the ISO BMFF boxes unique to the
//! fragmented format (trex, mfhd, traf, tfhd, tfdt, trun and the empty
//! sample tables of the init segment).

use vstd::prelude::*;
use crate::error::MuxError;
use crate::mp4::box_builders::{box_bytes, make_box, make_full_box, zeros};
use crate::wire::{push_repeat, push_slice, push_u32, push_u64, u32_bytes, u64_bytes};

verus! {

/// A sample buffered within a fragment before it is flushed.
#[derive(Debug, Clone)]
pub struct FragmentSample {
    pub data: Vec<u8>,
    pub dts_ticks: i64,
    pub cts_offset: i32,
    pub is_keyframe: bool,
}

pub open spec fn iso5() -> Seq<u8> { seq![0x69u8, 0x73u8, 0x6fu8, 0x35u8] }
pub open spec fn iso6() -> Seq<u8> { seq![0x69u8, 0x73u8, 0x6fu8, 0x36u8] }
pub open spec fn msdh() -> Seq<u8> { seq![0x6du8, 0x73u8, 0x64u8, 0x68u8] }
pub open spec fn msix() -> Seq<u8> { seq![0x6du8, 0x73u8, 0x69u8, 0x78u8] }
pub open spec fn stco_tag() -> Seq<u8> { seq![0x73u8, 0x74u8, 0x63u8, 0x6fu8] }
pub open spec fn trex_tag() -> Seq<u8> { seq![0x74u8, 0x72u8, 0x65u8, 0x78u8] }
pub open spec fn mfhd_tag() -> Seq<u8> { seq![0x6du8, 0x66u8, 0x68u8, 0x64u8] }
pub open spec fn traf_tag() -> Seq<u8> { seq![0x74u8, 0x72u8, 0x61u8, 0x66u8] }
pub open spec fn tfhd_tag() -> Seq<u8> { seq![0x74u8, 0x66u8, 0x68u8, 0x64u8] }
pub open spec fn tfdt_tag() -> Seq<u8> { seq![0x74u8, 0x66u8, 0x64u8, 0x74u8] }
pub open spec fn trun_tag() -> Seq<u8> { seq![0x74u8, 0x72u8, 0x75u8, 0x6eu8] }

/// Whether any sample has a non-zero composition offset.
pub open spec fn has_cts(s: Seq<FragmentSample>) -> bool {
    exists|i: int| 0 <= i < s.len() && #[trigger] s[i].cts_offset != 0
}

/// The duration written for sample `i`: the distance to the next sample,
/// the distance from the previous one for the last sample, and 1 for a
/// lone sample.
pub open spec fn trun_duration(s: Seq<FragmentSample>, i: int) -> u32 {
    if i + 1 < s.len() {
        (s[i + 1].dts_ticks - s[i].dts_ticks) as u32
    } else if i > 0 {
        (s[i].dts_ticks - s[i - 1].dts_ticks) as u32
    } else {
        1
    }
}

/// The sample flags written for a sample.
pub open spec fn trun_sample_flags(keyframe: bool) -> u32 {
    if keyframe { 0x0200_0000 } else { 0x0101_0000 }
}

/// The per-sample entries of a trun box for the first `n` samples.
pub open spec fn trun_entries(s: Seq<FragmentSample>, n: int, cts: bool) -> Seq<u8>
    decreases n,
{
    if n <= 0 {
        seq![]
    } else {
        trun_entries(s, n - 1, cts) + u32_bytes(trun_duration(s, n - 1))
            + u32_bytes(s[n - 1].data@.len() as u32) + u32_bytes(trun_sample_flags(s[n - 1].is_keyframe))
            + (if cts { u32_bytes(s[n - 1].cts_offset as u32) } else { seq![] })
    }
}

/// The body of a trun box.
pub open spec fn trun_body(s: Seq<FragmentSample>, data_offset: u32) -> Seq<u8> {
    let flags: u32 = if has_cts(s) { 0x0000_0F01 } else { 0x0000_0701 };
    seq![if has_cts(s) { 1u8 } else { 0u8 }, (flags >> 16u32) as u8, (flags >> 8u32) as u8, flags as u8]
        + u32_bytes(s.len() as u32) + u32_bytes(data_offset) + trun_entries(s, s.len() as int, has_cts(s))
}

/// Whether adjacent decode times are at most an `i64` apart.
pub open spec fn fragment_steps_fit(s: Seq<FragmentSample>) -> bool {
    forall|i: int| 0 <= i < s.len() - 1 ==> i64::MIN <= #[trigger] s[i + 1].dts_ticks - s[i].dts_ticks <= i64::MAX
}

/// ftyp for fragmented MP4: brand iso5, version 1; iso5, iso6, msdh, msix.
pub fn build_fmp4_ftyp() -> (r: Vec<u8>)
    ensures
        r@ == box_bytes(crate::mp4::mux_sample_table::ftyp_tag(),
            iso5() + u32_bytes(1) + iso5() + iso6() + msdh() + msix()),
{
    let mut body: Vec<u8> = Vec::new();
    body.push(0x69);
    body.push(0x73);
    body.push(0x6f);
    body.push(0x35);
    push_u32(&mut body, 1);
    body.push(0x69);
    body.push(0x73);
    body.push(0x6f);
    body.push(0x35);
    body.push(0x69);
    body.push(0x73);
    body.push(0x6f);
    body.push(0x36);
    body.push(0x6d);
    body.push(0x73);
    body.push(0x64);
    body.push(0x68);
    body.push(0x6d);
    body.push(0x73);
    body.push(0x69);
    body.push(0x78);
    assert(body@ =~= iso5() + u32_bytes(1) + iso5() + iso6() + msdh() + msix());
    let t: [u8; 4] = [0x66, 0x74, 0x79, 0x70];
    assert(t@ =~= crate::mp4::mux_sample_table::ftyp_tag());
    make_box(&t, body.as_slice())
}

/// Empty stts box for the init segment.
pub fn build_empty_stts() -> (r: Vec<u8>)
    ensures
        r@ == box_bytes(crate::mp4::mux_sample_table::stts_tag(), zeros(4) + u32_bytes(0)),
{
    let mut body: Vec<u8> = Vec::new();
    push_repeat(&mut body, 0, 4);
    push_u32(&mut body, 0);
    assert(body@ =~= zeros(4) + u32_bytes(0));
    let t: [u8; 4] = [0x73, 0x74, 0x74, 0x73];
    assert(t@ =~= crate::mp4::mux_sample_table::stts_tag());
    make_full_box(&t, body.as_slice())
}

/// Empty stsc box for the init segment.
pub fn build_empty_stsc() -> (r: Vec<u8>)
    ensures
        r@ == box_bytes(crate::mp4::mux_sample_table::stsc_tag(), zeros(4) + u32_bytes(0)),
{
    let mut body: Vec<u8> = Vec::new();
    push_repeat(&mut body, 0, 4);
    push_u32(&mut body, 0);
    assert(body@ =~= zeros(4) + u32_bytes(0));
    let t: [u8; 4] = [0x73, 0x74, 0x73, 0x63];
    assert(t@ =~= crate::mp4::mux_sample_table::stsc_tag());
    make_full_box(&t, body.as_slice())
}

/// Empty stsz box for the init segment.
pub fn build_empty_stsz() -> (r: Vec<u8>)
    ensures
        r@ == box_bytes(crate::mp4::mux_sample_table::stsz_tag(), zeros(4) + u32_bytes(0) + u32_bytes(0)),
{
    let mut body: Vec<u8> = Vec::new();
    push_repeat(&mut body, 0, 4);
    push_u32(&mut body, 0);
    push_u32(&mut body, 0);
    assert(body@ =~= zeros(4) + u32_bytes(0) + u32_bytes(0));
    let t: [u8; 4] = [0x73, 0x74, 0x73, 0x7a];
    assert(t@ =~= crate::mp4::mux_sample_table::stsz_tag());
    make_full_box(&t, body.as_slice())
}

/// Empty stco box for the init segment.
pub fn build_empty_stco() -> (r: Vec<u8>)
    ensures
        r@ == box_bytes(stco_tag(), zeros(4) + u32_bytes(0)),
{
    let mut body: Vec<u8> = Vec::new();
    push_repeat(&mut body, 0, 4);
    push_u32(&mut body, 0);
    assert(body@ =~= zeros(4) + u32_bytes(0));
    let t: [u8; 4] = [0x73, 0x74, 0x63, 0x6f];
    assert(t@ =~= stco_tag());
    make_full_box(&t, body.as_slice())
}

/// trex (Track Extends): default values for the track's fragments.
pub fn build_trex(track_id: u32) -> (r: Vec<u8>)
    ensures
        r@ == box_bytes(trex_tag(), zeros(4) + u32_bytes(track_id) + u32_bytes(1) + u32_bytes(0)
            + u32_bytes(0) + u32_bytes(0)),
{
    let mut body: Vec<u8> = Vec::new();
    push_repeat(&mut body, 0, 4);
    push_u32(&mut body, track_id);
    push_u32(&mut body, 1);
    push_u32(&mut body, 0);
    push_u32(&mut body, 0);
    push_u32(&mut body, 0);
    assert(body@ =~= zeros(4) + u32_bytes(track_id) + u32_bytes(1) + u32_bytes(0) + u32_bytes(0) + u32_bytes(0));
    let t: [u8; 4] = [0x74, 0x72, 0x65, 0x78];
    assert(t@ =~= trex_tag());
    make_full_box(&t, body.as_slice())
}

/// mfhd (Movie Fragment Header).
pub fn build_mfhd(sequence_number: u32) -> (r: Vec<u8>)
    ensures
        r@ == box_bytes(mfhd_tag(), zeros(4) + u32_bytes(sequence_number)),
{
    let mut body: Vec<u8> = Vec::new();
    push_repeat(&mut body, 0, 4);
    push_u32(&mut body, sequence_number);
    assert(body@ =~= zeros(4) + u32_bytes(sequence_number));
    let t: [u8; 4] = [0x6d, 0x66, 0x68, 0x64];
    assert(t@ =~= mfhd_tag());
    make_full_box(&t, body.as_slice())
}

/// tfhd (Track Fragment Header), with the default-base-is-moof flag so that
/// the trun data offset is relative to the start of the moof box.
pub fn build_tfhd(track_id: u32) -> (r: Vec<u8>)
    ensures
        r@ == box_bytes(tfhd_tag(), seq![0u8, 0x02u8, 0u8, 0u8] + u32_bytes(track_id)),
{
    let mut body: Vec<u8> = Vec::new();
    body.push(0);
    body.push(0x02);
    body.push(0);
    body.push(0);
    push_u32(&mut body, track_id);
    assert(body@ =~= seq![0u8, 0x02u8, 0u8, 0u8] + u32_bytes(track_id));
    let t: [u8; 4] = [0x74, 0x66, 0x68, 0x64];
    assert(t@ =~= tfhd_tag());
    make_full_box(&t, body.as_slice())
}

/// tfdt (Track Fragment Decode Time), version 1 with a 64-bit time.
pub fn build_tfdt(base_media_decode_time: u64) -> (r: Vec<u8>)
    ensures
        r@ == box_bytes(tfdt_tag(), seq![1u8, 0u8, 0u8, 0u8] + u64_bytes(base_media_decode_time)),
{
    let mut body: Vec<u8> = Vec::new();
    body.push(1);
    body.push(0);
    body.push(0);
    body.push(0);
    push_u64(&mut body, base_media_decode_time);
    assert(body@ =~= seq![1u8, 0u8, 0u8, 0u8] + u64_bytes(base_media_decode_time));
    let t: [u8; 4] = [0x74, 0x66, 0x64, 0x74];
    assert(t@ =~= tfdt_tag());
    make_full_box(&t, body.as_slice())
}

/// trun (Track Fragment Run) with data offset, per-sample duration, size
/// and flags, and composition offsets (version 1) when any is non-zero.
pub fn build_trun(samples: &Vec<FragmentSample>, data_offset: u32) -> (r: Vec<u8>)
    requires
        fragment_steps_fit(samples@),
    ensures
        r@ == box_bytes(trun_tag(), trun_body(samples@, data_offset)),
{
    let n = samples.len();
    let mut any_cts = false;
    let mut i: usize = 0;
    while i < n
        invariant
            n == samples@.len(),
            i <= n,
            any_cts <==> exists|k: int| 0 <= k < i && #[trigger] samples@[k].cts_offset != 0,
        decreases n - i,
    {
        if samples[i].cts_offset != 0 {
            any_cts = true;
        }
        i = i + 1;
    }
    assert(any_cts == has_cts(samples@));
    let flags: u32 = if any_cts { 0x0000_0F01 } else { 0x0000_0701 };
    let mut body: Vec<u8> = Vec::new();
    body.push(if any_cts { 1u8 } else { 0u8 });
    body.push((flags >> 16u32) as u8);
    body.push((flags >> 8u32) as u8);
    body.push(flags as u8);
    push_u32(&mut body, n as u32);
    push_u32(&mut body, data_offset);
    let ghost head = body@;
    let mut i: usize = 0;
    while i < n
        invariant
            n == samples@.len(),
            i <= n,
            fragment_steps_fit(samples@),
            any_cts == has_cts(samples@),
            body@ == head + trun_entries(samples@, i as int, any_cts),
        decreases n - i,
    {
        let duration: u32 = if i + 1 < n {
            assert(i64::MIN <= samples@[i + 1].dts_ticks - samples@[i as int].dts_ticks <= i64::MAX);
            (samples[i + 1].dts_ticks - samples[i].dts_ticks) as u32
        } else if i > 0 {
            assert(i64::MIN <= samples@[(i - 1) + 1].dts_ticks - samples@[i - 1].dts_ticks <= i64::MAX);
            (samples[i].dts_ticks - samples[i - 1].dts_ticks) as u32
        } else {
            1
        };
        push_u32(&mut body, duration);
        push_u32(&mut body, samples[i].data.len() as u32);
        push_u32(&mut body, if samples[i].is_keyframe { 0x0200_0000u32 } else { 0x0101_0000u32 });
        if any_cts {
            push_u32(&mut body, samples[i].cts_offset as u32);
        }
        i = i + 1;
        assert(body@ =~= head + trun_entries(samples@, i as int, any_cts));
    }
    assert(body@ =~= trun_body(samples@, data_offset));
    let t: [u8; 4] = [0x74, 0x72, 0x75, 0x6e];
    assert(t@ =~= trun_tag());
    make_full_box(&t, body.as_slice())
}

/// Builds a traf box for one track's fragment: tfhd, tfdt and trun.
pub fn build_traf(
    track_id: u32,
    base_decode_time: u64,
    pending_samples: &Vec<FragmentSample>,
    data_offset: u32,
) -> (r: Result<Vec<u8>, MuxError>)
    requires
        fragment_steps_fit(pending_samples@),
    ensures
        r matches Ok(b) && b@ == box_bytes(traf_tag(),
            box_bytes(tfhd_tag(), seq![0u8, 0x02u8, 0u8, 0u8] + u32_bytes(track_id))
            + box_bytes(tfdt_tag(), seq![1u8, 0u8, 0u8, 0u8] + u64_bytes(base_decode_time))
            + box_bytes(trun_tag(), trun_body(pending_samples@, data_offset))),
{
    let tfhd = build_tfhd(track_id);
    let tfdt = build_tfdt(base_decode_time);
    let trun = build_trun(pending_samples, data_offset);
    let mut traf_body = tfhd;
    push_slice(&mut traf_body, tfdt.as_slice());
    push_slice(&mut traf_body, trun.as_slice());
    let t: [u8; 4] = [0x74, 0x72, 0x61, 0x66];
    assert(t@ =~= traf_tag());
    Ok(make_box(&t, traf_body.as_slice()))
}

} // verus!
