//! WebCodecs codec string builders.
//!
//! Builds codec strings from raw container-level config records (avcC, hvcC,
//! av1C, VP9 CodecPrivate) and reads the AAC audio object type from esds.

use vstd::prelude::*;
use crate::text::{
    dec, dec2, hex2_lower, hex2_upper, hex_upper, push_char, push_dec, push_dec2, push_hex2_lower,
    push_hex2_upper, push_hex_upper, push_text,
};
use crate::wire::{read_be32_at, seq_be32};

verus! {

/// The AVC codec string for avcC data.
pub open spec fn avc_codec_text(b: Seq<u8>) -> Seq<char> {
    if b.len() >= 4 {
        "avc1."@ + hex2_lower(b[1]) + hex2_lower(b[2]) + hex2_lower(b[3])
    } else {
        "avc1"@
    }
}

/// Builds a WebCodecs AVC codec string from avcC data.
///
/// Format: `avc1.PPCCLL` where PP=profile, CC=compatibility, LL=level.
/// Falls back to `"avc1"` if the avcC data is too short.
pub fn build_avc_codec_string(avcc: &[u8]) -> (r: String)
    ensures
        r@ == avc_codec_text(avcc@),
{
    let mut s = String::new();
    if avcc.len() >= 4 {
        push_text(&mut s, "avc1.");
        push_hex2_lower(&mut s, avcc[1]);
        push_hex2_lower(&mut s, avcc[2]);
        push_hex2_lower(&mut s, avcc[3]);
    } else {
        push_text(&mut s, "avc1");
    }
    s
}

/// Builds a WebCodecs AVC codec string from optional CodecPrivate data.
/// Falls back to `"avc1"` when data is `None` or too short.
pub fn build_avc_codec_string_from_optional(codec_private: Option<&[u8]>) -> (r: String)
    ensures
        r@ == (match codec_private {
            Some(d) => avc_codec_text(d@),
            None => "avc1"@,
        }),
{
    match codec_private {
        Some(data) => build_avc_codec_string(data),
        None => {
            let mut s = String::new();
            push_text(&mut s, "avc1");
            s
        },
    }
}

/// Moves the low `n` bits of `x`, lowest first, onto the low end of `acc`.
pub open spec fn reverse_acc(x: u32, n: nat, acc: u32) -> u32
    decreases n,
{
    if n == 0 {
        acc
    } else {
        reverse_acc(x >> 1u32, (n - 1) as nat, (acc << 1u32) | (x & 1))
    }
}

/// `x` with the order of its 32 bits reversed.
pub open spec fn reverse32(x: u32) -> u32 {
    reverse_acc(x, 32, 0)
}

/// Reverses the order of the bits of a `u32` (`u32::reverse_bits`).
#[verifier::external_body]
fn reverse_bits(x: u32) -> (r: u32)
    ensures
        r == reverse32(x),
{
    x.reverse_bits()
}

/// Number of leading constraint bytes kept: up to the last non-zero one.
pub open spec fn kept_constraints(c: Seq<u8>) -> int
    decreases c.len(),
{
    if c.len() == 0 {
        0
    } else if c.last() != 0 {
        c.len() as int
    } else {
        kept_constraints(c.drop_last())
    }
}

/// `.XX` for each byte.
pub open spec fn dotted_hex(c: Seq<u8>) -> Seq<char>
    decreases c.len(),
{
    if c.len() == 0 {
        seq![]
    } else {
        dotted_hex(c.drop_last()) + "."@ + hex2_upper(c.last())
    }
}

/// The HEVC codec string for hvcC data, given the bit-reversed profile
/// compatibility flags.
pub open spec fn hevc_codec_text(b: Seq<u8>, compat_reversed: u32) -> Seq<char> {
    let c = b.subrange(6, 12);
    "hev1."@ + dec((b[1] & 0x1F) as nat) + "."@ + hex_upper(compat_reversed as nat) + "."@
        + seq![if (b[1] >> 5u8) & 1 == 1 { 'H' } else { 'L' }] + dec(b[12] as nat)
        + dotted_hex(c.subrange(0, kept_constraints(c)))
}

proof fn lemma_kept_constraints(c: Seq<u8>)
    ensures
        0 <= kept_constraints(c) <= c.len(),
        forall|i: int| kept_constraints(c) <= i < c.len() ==> c[i] == 0,
        kept_constraints(c) > 0 ==> c[kept_constraints(c) - 1] != 0,
    decreases c.len(),
{
    if c.len() > 0 && c.last() == 0 {
        let p = c.drop_last();
        lemma_kept_constraints(p);
        assert forall|i: int| kept_constraints(c) <= i < c.len() implies c[i] == 0 by {
            if i < p.len() {
                assert(p[i] == c[i]);
            }
        }
        if kept_constraints(c) > 0 {
            assert(p[kept_constraints(c) - 1] == c[kept_constraints(c) - 1]);
        }
    }
}

/// Builds a WebCodecs HEVC codec string from hvcC data.
///
/// Format: `hev1.{profile}.{compat_reversed}.{tier}{level}[.constraints]`
/// per ISO/IEC 14496-15. Falls back to `"hev1"` if the hvcC data is too short.
pub fn build_hevc_codec_string(hvcc: &[u8]) -> (r: String)
    ensures
        hvcc@.len() < 13 ==> r@ == "hev1"@,
        hvcc@.len() >= 13 ==> r@ == hevc_codec_text(hvcc@, reverse32(seq_be32(hvcc@, 2))),
{
    let mut s = String::new();
    if hvcc.len() < 13 {
        push_text(&mut s, "hev1");
        return s;
    }
    let profile_idc = hvcc[1] & 0x1F;
    let tier_flag = (hvcc[1] >> 5u8) & 0x01;
    let level_idc = hvcc[12];
    let compat = read_be32_at(hvcc, 2);
    let compat_reversed = reverse_bits(compat);
    push_text(&mut s, "hev1.");
    push_dec(&mut s, profile_idc as u64);
    push_text(&mut s, ".");
    push_hex_upper(&mut s, compat_reversed as u64);
    push_text(&mut s, ".");
    push_char(&mut s, if tier_flag == 1 { 'H' } else { 'L' });
    push_dec(&mut s, level_idc as u64);
    let ghost c = hvcc@.subrange(6, 12);
    let mut last_nonzero: usize = 6;
    assert(c.subrange(0, 6) =~= c);
    while last_nonzero > 0 && hvcc[5 + last_nonzero] == 0
        invariant
            0 <= last_nonzero <= 6,
            hvcc@.len() >= 13,
            c == hvcc@.subrange(6, 12),
            kept_constraints(c) == kept_constraints(c.subrange(0, last_nonzero as int)),
        decreases last_nonzero,
    {
        proof {
            assert(c.subrange(0, last_nonzero as int).drop_last() =~= c.subrange(0, last_nonzero - 1));
        }
        last_nonzero = last_nonzero - 1;
    }
    proof {
        if last_nonzero > 0 {
            assert(c.subrange(0, last_nonzero as int).last() == hvcc@[5 + last_nonzero]);
        }
    }
    let ghost head = s@;
    let mut k: usize = 0;
    while k < last_nonzero
        invariant
            k <= last_nonzero <= 6,
            hvcc@.len() >= 13,
            c == hvcc@.subrange(6, 12),
            s@ == head + dotted_hex(c.subrange(0, k as int)),
        decreases last_nonzero - k,
    {
        push_text(&mut s, ".");
        push_hex2_upper(&mut s, hvcc[6 + k]);
        proof {
            assert(c.subrange(0, k + 1).drop_last() =~= c.subrange(0, k as int));
        }
        k = k + 1;
    }
    proof {
        assert(s@ =~= hevc_codec_text(hvcc@, compat_reversed));
    }
    s
}

/// The AV1 codec string for av1C data.
pub open spec fn av1_codec_text(b: Seq<u8>) -> Seq<char> {
    if b.len() < 4 {
        "av01"@
    } else {
        let profile = (b[1] >> 5u8) & 0x07;
        let level = b[1] & 0x1F;
        let tier = if (b[2] >> 7u8) & 0x01 == 1 { 'H' } else { 'M' };
        let depth: nat = if (b[2] >> 6u8) & 0x01 == 1 {
            if (b[2] >> 5u8) & 0x01 == 1 { 12 } else { 10 }
        } else {
            8
        };
        "av01."@ + dec(profile as nat) + "."@ + dec2(level as nat) + seq![tier] + "."@ + dec2(depth)
    }
}

/// Builds a WebCodecs AV1 codec string from av1C data.
///
/// Format: `av01.P.LLT.BB` per the AV1 codec ISO media file format.
/// Falls back to `"av01"` if the av1C data is too short.
pub fn build_av1_codec_string(av1c: &[u8]) -> (r: String)
    ensures
        r@ == av1_codec_text(av1c@),
{
    let mut s = String::new();
    if av1c.len() < 4 {
        push_text(&mut s, "av01");
        return s;
    }
    let profile = (av1c[1] >> 5u8) & 0x07;
    let level = av1c[1] & 0x1F;
    let tier = if (av1c[2] >> 7u8) & 0x01 == 1 { 'H' } else { 'M' };
    let high_bitdepth = (av1c[2] >> 6u8) & 0x01;
    let twelve_bit = (av1c[2] >> 5u8) & 0x01;
    let bit_depth: u64 = if high_bitdepth == 1 {
        if twelve_bit == 1 { 12 } else { 10 }
    } else {
        8
    };
    push_text(&mut s, "av01.");
    push_dec(&mut s, profile as u64);
    push_text(&mut s, ".");
    push_dec2(&mut s, level as u64);
    push_char(&mut s, tier);
    push_text(&mut s, ".");
    push_dec2(&mut s, bit_depth);
    assert(s@ =~= av1_codec_text(av1c@));
    s
}

/// Profile, level and bit depth after reading the VP codec feature records
/// of `d` from `pos` on, starting from `(p, l, b)`.
pub open spec fn vp9_features(d: Seq<u8>, pos: int, p: u8, l: u8, b: u8) -> (u8, u8, u8)
    decreases d.len() - pos,
{
    if pos < 0 || pos + 2 > d.len() {
        (p, l, b)
    } else {
        let id = d[pos];
        let len = d[pos + 1] as int;
        let start = pos + 2;
        if start + len > d.len() {
            (p, l, b)
        } else if len == 1 {
            let v = d[start];
            if id == 1 {
                vp9_features(d, start + 1, v, l, b)
            } else if id == 2 {
                vp9_features(d, start + 1, p, v, b)
            } else if id == 3 {
                vp9_features(d, start + 1, p, l, v)
            } else {
                vp9_features(d, start + 1, p, l, b)
            }
        } else {
            vp9_features(d, start + len, p, l, b)
        }
    }
}

/// The VP9 codec string for optional CodecPrivate data.
pub open spec fn vp9_codec_text(d: Option<Seq<u8>>) -> Seq<char> {
    let (p, l, b) = match d {
        Some(s) => vp9_features(s, 0, 0, 10, 8),
        None => (0u8, 10u8, 8u8),
    };
    "vp09."@ + dec2(p as nat) + "."@ + dec2(l as nat) + "."@ + dec2(b as nat)
}

/// Builds a WebCodecs VP9 codec string from CodecPrivate data.
///
/// Reads the VP codec feature records (profile, level, bit depth) of the
/// CodecPrivate bytes. Falls back to `"vp09.00.10.08"` (profile 0, level
/// 1.0, 8-bit) for absent features.
pub fn build_vp9_codec_string(codec_private: Option<&[u8]>) -> (r: String)
    ensures
        r@ == vp9_codec_text(match codec_private {
            Some(d) => Some(d@),
            None => None,
        }),
{
    let mut profile: u8 = 0;
    let mut level: u8 = 10;
    let mut bit_depth: u8 = 8;
    match codec_private {
        Some(data) => {
            let mut pos: usize = 0;
            while data.len() - pos >= 2
                invariant_except_break
                    pos <= data@.len(),
                    vp9_features(data@, 0, 0, 10, 8) == vp9_features(data@, pos as int, profile, level, bit_depth),
                ensures
                    vp9_features(data@, 0, 0, 10, 8) == (profile, level, bit_depth),
                decreases data@.len() - pos,
            {
                let id = data[pos];
                let len = data[pos + 1] as usize;
                pos = pos + 2;
                if len > data.len() - pos {
                    break;
                }
                if len == 1 {
                    if id == 1 {
                        profile = data[pos];
                    } else if id == 2 {
                        level = data[pos];
                    } else if id == 3 {
                        bit_depth = data[pos];
                    }
                }
                pos = pos + len;
            }
        },
        None => {},
    }
    let mut s = String::new();
    push_text(&mut s, "vp09.");
    push_dec2(&mut s, profile as u64);
    push_text(&mut s, ".");
    push_dec2(&mut s, level as u64);
    push_text(&mut s, ".");
    push_dec2(&mut s, bit_depth as u64);
    s
}

/// The descriptor size read from up to four bytes at `pos` (seven bits per
/// byte, high bit set on all but the last), with the position after it;
/// `None` when the data ends first.
pub open spec fn descriptor_size(d: Seq<u8>, pos: int, k: int, acc: int) -> Option<(int, int)>
    decreases 4 - k,
{
    if k >= 4 {
        Some((acc, pos))
    } else if pos >= d.len() {
        None
    } else {
        let b = d[pos];
        let acc2 = acc * 128 + (b % 128) as int;
        if b < 0x80 {
            Some((acc2, pos + 1))
        } else {
            descriptor_size(d, pos + 1, k + 1, acc2)
        }
    }
}

/// The audio object type found by scanning esds descriptors from `pos`.
pub open spec fn aot_scan(d: Seq<u8>, pos: int) -> u8
    decreases d.len() - pos,
{
    if pos < 0 || pos >= d.len() {
        2
    } else {
        let tag = d[pos];
        proof {
            lemma_descriptor_size(d, pos + 1, 0, 0);
        }
        match descriptor_size(d, pos + 1, 0, 0) {
            None => 2,
            Some((size, p)) => if tag == 5 {
                if p < d.len() && (d[p] >> 3u8) > 0 {
                    d[p] >> 3u8
                } else {
                    2
                }
            } else if tag == 3 {
                aot_scan(d, if p + 3 <= d.len() { p + 3 } else { p })
            } else if tag == 4 {
                aot_scan(d, if p + 13 <= d.len() { p + 13 } else { p })
            } else {
                aot_scan(d, if p + size > d.len() { d.len() as int } else { p + size })
            },
        }
    }
}

/// The audio object type a scan finds is always a valid one, 1 to 31:
/// the five bits read when non-zero, else the AAC-LC fallback 2.
pub proof fn lemma_aot_scan_range(d: Seq<u8>, pos: int)
    ensures
        1 <= aot_scan(d, pos) <= 31,
    decreases d.len() - pos,
{
    if 0 <= pos < d.len() {
        let tag = d[pos];
        lemma_descriptor_size(d, pos + 1, 0, 0);
        match descriptor_size(d, pos + 1, 0, 0) {
            None => {},
            Some((size, p)) => {
                if tag == 5 {
                    if p < d.len() {
                        let x = d[p];
                        assert(x >> 3u8 <= 31) by (bit_vector);
                    }
                } else if tag == 3 {
                    lemma_aot_scan_range(d, if p + 3 <= d.len() { p + 3 } else { p });
                } else if tag == 4 {
                    lemma_aot_scan_range(d, if p + 13 <= d.len() { p + 13 } else { p });
                } else {
                    lemma_aot_scan_range(d, if p + size > d.len() { d.len() as int } else { p + size });
                }
            },
        }
    }
}

/// Whether the `w` bytes of `d` at `q` are an MPEG-4 expandable size: one
/// to four bytes, the high bit set on each but the last.
pub open spec fn expandable_size_at(d: Seq<u8>, q: int, w: int) -> bool {
    &&& 1 <= w <= 4
    &&& 0 <= q
    &&& q + w <= d.len()
    &&& forall|j: int| 0 <= j < w - 1 ==> #[trigger] d[q + j] >= 0x80
    &&& d[q + w - 1] < 0x80
}

/// The value of an expandable size: seven bits from each byte, most
/// significant first.
pub open spec fn expandable_value(d: Seq<u8>, q: int, w: int) -> int
    decreases w,
{
    if w <= 0 {
        0
    } else {
        expandable_value(d, q, w - 1) * 128 + (d[q + w - 1] % 128) as int
    }
}

proof fn lemma_expandable_read(d: Seq<u8>, q: int, w: int, k: int)
    requires
        expandable_size_at(d, q, w),
        0 <= k < w,
    ensures
        descriptor_size(d, q + k, k, expandable_value(d, q, k)) == Some((expandable_value(d, q, w), q + w)),
    decreases w - k,
{
    if k < w - 1 {
        assert(d[q + k] >= 0x80);
        lemma_expandable_read(d, q, w, k + 1);
    }
}

/// The scan reads every descriptor's size as an expandable size, one to
/// four bytes, and goes on right after it: a DecoderSpecificInfo (tag 5)
/// gives the object type in its first byte's top five bits (when not 0),
/// an ES descriptor (tag 3) and a DecoderConfig descriptor (tag 4) are
/// entered past their 3 and 13 fixed bytes, and any other descriptor is
/// skipped whole, whatever width its size was written in.
pub proof fn lemma_aot_scan_reads_expandable_sizes(d: Seq<u8>, pos: int, w: int)
    requires
        0 <= pos < d.len(),
        expandable_size_at(d, pos + 1, w),
    ensures
        ({
            let p = pos + 1 + w;
            let size = expandable_value(d, pos + 1, w);
            &&& d[pos] == 5 && p < d.len() && (d[p] >> 3u8) > 0 ==> aot_scan(d, pos) == d[p] >> 3u8
            &&& d[pos] == 3 && p + 3 <= d.len() ==> aot_scan(d, pos) == aot_scan(d, p + 3)
            &&& d[pos] == 4 && p + 13 <= d.len() ==> aot_scan(d, pos) == aot_scan(d, p + 13)
            &&& d[pos] != 3 && d[pos] != 4 && d[pos] != 5 ==> aot_scan(d, pos) == aot_scan(
                d,
                if p + size > d.len() { d.len() as int } else { p + size },
            )
        }),
{
    lemma_expandable_read(d, pos + 1, w, 0);
    assert(expandable_value(d, pos + 1, 0) == 0);
}

pub proof fn lemma_descriptor_size(d: Seq<u8>, pos: int, k: int, acc: int)
    requires
        0 <= pos <= d.len(),
        0 <= k <= 4,
        0 <= acc < pow128(k),
    ensures
        descriptor_size(d, pos, k, acc) matches Some((size, p)) ==> pos <= p && p <= pos + 4 - k
            && p <= d.len() && (k < 4 ==> pos < p) && 0 <= size < 0x1000_0000,
    decreases 4 - k,
{
    if k < 4 && pos < d.len() {
        let b = d[pos];
        let acc2 = acc * 128 + (b % 128) as int;
        assert(0 <= acc2 < pow128(k + 1)) by (nonlinear_arith)
            requires 0 <= acc < pow128(k), pow128(k + 1) == pow128(k) * 128, 0 <= b % 128 < 128,
                acc2 == acc * 128 + (b % 128) as int;
        lemma_pow128(k);
        if b >= 0x80 {
            lemma_descriptor_size(d, pos + 1, k + 1, acc2);
        }
    }
    lemma_pow128(k);
}

/// `128` to the power `k`, for `k <= 4`.
pub open spec fn pow128(k: int) -> int {
    if k <= 0 { 1 } else if k == 1 { 128 } else if k == 2 { 16384 } else if k == 3 { 2097152 } else { 268435456 }
}

pub proof fn lemma_pow128(k: int)
    requires
        0 <= k <= 4,
    ensures
        k < 4 ==> pow128(k + 1) == pow128(k) * 128,
        pow128(k) <= 0x1000_0000,
        k < 4 ==> pow128(k) <= 0x20_0000,
{
}

/// Extracts the AAC Audio Object Type from esds box data.
///
/// Walks the descriptors of the esds (after its version and flags) to the
/// DecoderSpecificInfo (tag 5); the first five bits of the
/// AudioSpecificConfig there are the object type: 2 = AAC-LC, 5 = HE-AAC,
/// 29 = HE-AAC v2. Falls back to 2 (AAC-LC) if the data is too short.
pub fn extract_aac_audio_object_type(esds: &[u8]) -> (r: u8)
    requires
        esds@.len() + 0x1000_0000 <= usize::MAX,
    ensures
        r == aot_scan(esds@, if esds@.len() >= 4 { 4 } else { 0 }),
        1 <= r <= 31,
{
    proof {
        lemma_aot_scan_range(esds@, if esds@.len() >= 4 { 4 } else { 0 });
    }
    let mut pos: usize = 0;
    if esds.len() >= 4 {
        pos = 4;
    }
    while pos < esds.len()
        invariant
            pos <= esds@.len(),
            esds@.len() + 0x1000_0000 <= usize::MAX,
            aot_scan(esds@, if esds@.len() >= 4 { 4 } else { 0 }) == aot_scan(esds@, pos as int),
            1 <= aot_scan(esds@, if esds@.len() >= 4 { 4 } else { 0 }) <= 31,
        decreases esds@.len() - pos,
    {
        let ghost start = pos as int;
        let tag = esds[pos];
        pos = pos + 1;
        let mut size: usize = 0;
        let mut k: usize = 0;
        proof {
            lemma_descriptor_size(esds@, pos as int, 0, 0);
        }
        loop
            invariant_except_break
                k < 4,
                pos <= esds@.len(),
                start < pos,
                start < esds@.len(),
                tag == esds@[start],
                aot_scan(esds@, if esds@.len() >= 4 { 4 } else { 0 }) == aot_scan(esds@, start),
                1 <= aot_scan(esds@, if esds@.len() >= 4 { 4 } else { 0 }) <= 31,
                size < pow128(k as int),
                descriptor_size(esds@, start + 1, 0, 0) == descriptor_size(esds@, pos as int, k as int, size as int),
            ensures
                pos <= esds@.len(),
                descriptor_size(esds@, start + 1, 0, 0) == Some((size as int, pos as int)),
            decreases 4 - k,
        {
            if pos >= esds.len() {
                return 2;
            }
            let b = esds[pos];
            pos = pos + 1;
            proof {
                lemma_pow128(k as int);
                assert(size * 128 + (b % 128) < pow128(k + 1)) by (nonlinear_arith)
                    requires size < pow128(k as int), pow128(k + 1) == pow128(k as int) * 128, b % 128 < 128;
                assert(size < 0x20_0000) by (nonlinear_arith)
                    requires size < pow128(k as int), pow128(k as int) <= 0x20_0000;
                assert(((size << 7usize) | ((b & 0x7F) as usize)) == size * 128 + (b % 128) as usize) by (bit_vector)
                    requires size < 0x20_0000usize;
            }
            size = (size << 7usize) | ((b & 0x7F) as usize);
            assert((b & 0x80 == 0) == (b < 0x80)) by (bit_vector);
            if b & 0x80 == 0 {
                break;
            }
            k = k + 1;
            if k == 4 {
                break;
            }
        }
        proof {
            lemma_descriptor_size(esds@, start + 1, 0, 0);
        }
        if tag == 0x05 {
            if pos < esds.len() {
                let aot = esds[pos] >> 3u8;
                if aot > 0 {
                    return aot;
                }
            }
            return 2;
        }
        if tag == 0x03 {
            if pos + 3 <= esds.len() {
                pos = pos + 3;
            }
        } else if tag == 0x04 {
            if pos + 13 <= esds.len() {
                pos = pos + 13;
            }
        } else {
            pos = pos + size;
        }
        if pos > esds.len() {
            pos = esds.len();
        }
    }
    2
}

} // verus!
