//! Container format detection from raw bytes.
//!
//! Sniffs the container format from the first bytes of a media file, for
//! callers that hold a header slice rather than a seekable stream.

use vstd::prelude::*;
use crate::media::ContainerFormat;

verus! {

/// Width in bytes of an EBML variable-length integer with first byte `b`
/// (one more than the number of leading zero bits; `b` is non-zero).
pub open spec fn vint_width(b: u8) -> int {
    if b >= 0x80 {
        1
    } else if b >= 0x40 {
        2
    } else if b >= 0x20 {
        3
    } else if b >= 0x10 {
        4
    } else if b >= 0x08 {
        5
    } else if b >= 0x04 {
        6
    } else if b >= 0x02 {
        7
    } else {
        8
    }
}

/// Big-endian value of the `n` bytes of `s` from `start`.
pub open spec fn be_bytes(s: Seq<u8>, start: int, n: nat) -> int
    decreases n,
{
    if n == 0 {
        0
    } else {
        be_bytes(s, start, (n - 1) as nat) * 256 + s[start + n - 1]
    }
}

/// First position at or after `i` (and before `len - 3`) holding the
/// DocType element ID `42 82`.
pub open spec fn find_doctype(d: Seq<u8>, i: int) -> Option<int>
    decreases d.len() - i,
{
    if i < 0 || i + 3 >= d.len() {
        None
    } else if d[i] == 0x42 && d[i + 1] == 0x82 {
        Some(i)
    } else {
        find_doctype(d, i + 1)
    }
}

/// Whether the DocType element at `i` holds the string `webm` (before any
/// trailing zero bytes).
pub open spec fn doctype_is_webm(d: Seq<u8>, i: int) -> bool {
    let ss = i + 2;
    let b = d[ss];
    let w = vint_width(b);
    let size = be_bytes(d, ss, w as nat) % pow2_7(w);
    let start = ss + w;
    &&& b != 0
    &&& start <= d.len()
    &&& start + size <= d.len()
    &&& size >= 4
    &&& d[start] == 0x77 && d[start + 1] == 0x65 && d[start + 2] == 0x62 && d[start + 3] == 0x6d
    &&& (size == 4 || d[start + 4] == 0)
}

/// `2` to the power `7 * w`, for widths 1 to 8.
pub open spec fn pow2_7(w: int) -> int {
    if w <= 1 {
        0x80
    } else if w == 2 {
        0x4000
    } else if w == 3 {
        0x20_0000
    } else if w == 4 {
        0x1000_0000
    } else if w == 5 {
        0x8_0000_0000
    } else if w == 6 {
        0x400_0000_0000
    } else if w == 7 {
        0x2_0000_0000_0000
    } else {
        0x100_0000_0000_0000
    }
}

/// The container format an EBML file's DocType names: WebM for `webm`,
/// else MKV (the superset).
pub open spec fn ebml_format(d: Seq<u8>) -> ContainerFormat {
    match find_doctype(d, 4) {
        Some(i) => if doctype_is_webm(d, i) { ContainerFormat::WebM } else { ContainerFormat::Mkv },
        None => ContainerFormat::Mkv,
    }
}

/// The format the header bytes `d` show.
pub open spec fn detected(d: Seq<u8>) -> Option<ContainerFormat> {
    if d.len() < 4 {
        None
    } else if d[0] == 0x1A && d[1] == 0x45 && d[2] == 0xDF && d[3] == 0xA3 {
        Some(ebml_format(d))
    } else if d.len() >= 8 && d[4] == 0x66 && d[5] == 0x74 && d[6] == 0x79 && d[7] == 0x70 {
        Some(ContainerFormat::Mp4)
    } else {
        None
    }
}

/// Detects the container format from raw header bytes.
///
/// Requires at least 12 bytes to detect MP4, and typically 32-64 bytes to
/// distinguish WebM from MKV. Returns `None` if the format cannot be
/// determined from the given bytes.
pub fn detect_container(data: &[u8]) -> (r: Option<ContainerFormat>)
    ensures
        r == detected(data@),
{
    if data.len() < 4 {
        return None;
    }
    if data[0] == 0x1A && data[1] == 0x45 && data[2] == 0xDF && data[3] == 0xA3 {
        return Some(detect_ebml_doctype(data));
    }
    if data.len() >= 8 && data[4] == 0x66 && data[5] == 0x74 && data[6] == 0x79 && data[7] == 0x70 {
        return Some(ContainerFormat::Mp4);
    }
    None
}

fn vint_len(b: u8) -> (r: usize)
    ensures
        r == vint_width(b),
{
    if b >= 0x80 {
        1
    } else if b >= 0x40 {
        2
    } else if b >= 0x20 {
        3
    } else if b >= 0x10 {
        4
    } else if b >= 0x08 {
        5
    } else if b >= 0x04 {
        6
    } else if b >= 0x02 {
        7
    } else {
        8
    }
}

/// Parses the EBML header to find the DocType element and tell WebM from
/// MKV. Falls back to MKV when the DocType cannot be found or is not `webm`.
fn detect_ebml_doctype(data: &[u8]) -> (r: ContainerFormat)
    ensures
        r == ebml_format(data@),
{
    let len = data.len();
    let end = len.saturating_sub(3);
    let mut i: usize = 4;
    while i < end
        invariant
            4 <= i,
            len == data@.len(),
            end == (if len >= 3 { len - 3 } else { 0 }),
            find_doctype(data@, 4) == find_doctype(data@, i as int),
        decreases end - i,
    {
        if data[i] == 0x42 && data[i + 1] == 0x82 {
            let size_start = i + 2;
            let size_byte = data[size_start];
            if size_byte == 0 {
                return ContainerFormat::Mkv;
            }
            let width = vint_len(size_byte);
            if width > len - size_start {
                return ContainerFormat::Mkv;
            }
            let mut size: u64 = 0;
            let mut k: usize = 0;
            while k < width
                invariant
                    k <= width <= 8,
                    size_start + width <= len,
                    len == data@.len(),
                    size == be_bytes(data@, size_start as int, k as nat),
                    size < pow2_8(k as int),
                decreases width - k,
            {
                let b = data[size_start + k];
                proof {
                    lemma_pow2_8(k as int);
                    assert(size * 256 + b < pow2_8(k + 1)) by (nonlinear_arith)
                        requires size < pow2_8(k as int), pow2_8(k + 1) == pow2_8(k as int) * 256, b < 256;
                    assert(size < 0x100_0000_0000_0000) by (nonlinear_arith)
                        requires size < pow2_8(k as int), pow2_8(k as int) <= 0x100_0000_0000_0000;
                    assert(((size << 8u64) | (b as u64)) == size * 256 + b as u64) by (bit_vector)
                        requires size < 0x100_0000_0000_0000u64;
                }
                size = (size << 8u64) | (b as u64);
                k = k + 1;
            }
            let mask: u64 = if width == 1 {
                0x80
            } else if width == 2 {
                0x4000
            } else if width == 3 {
                0x20_0000
            } else if width == 4 {
                0x1000_0000
            } else if width == 5 {
                0x8_0000_0000
            } else if width == 6 {
                0x400_0000_0000
            } else if width == 7 {
                0x2_0000_0000_0000
            } else {
                0x100_0000_0000_0000
            };
            let value = size % mask;
            let str_start = size_start + width;
            if value > (len - str_start) as u64 {
                return ContainerFormat::Mkv;
            }
            let n = value as usize;
            let is_webm = n >= 4 && data[str_start] == 0x77 && data[str_start + 1] == 0x65
                && data[str_start + 2] == 0x62 && data[str_start + 3] == 0x6d
                && (n == 4 || data[str_start + 4] == 0);
            return if is_webm { ContainerFormat::WebM } else { ContainerFormat::Mkv };
        }
        i = i + 1;
    }
    ContainerFormat::Mkv
}

/// `2` to the power `8 * k`, for `k` up to 8.
pub open spec fn pow2_8(k: int) -> int {
    if k <= 0 {
        1
    } else if k == 1 {
        0x100
    } else if k == 2 {
        0x1_0000
    } else if k == 3 {
        0x100_0000
    } else if k == 4 {
        0x1_0000_0000
    } else if k == 5 {
        0x100_0000_0000
    } else if k == 6 {
        0x1_0000_0000_0000
    } else if k == 7 {
        0x100_0000_0000_0000
    } else {
        0x1_0000_0000_0000_0000
    }
}

proof fn lemma_pow2_8(k: int)
    requires
        0 <= k < 8,
    ensures
        pow2_8(k + 1) == pow2_8(k) * 256,
        pow2_8(k) <= 0x100_0000_0000_0000,
{
}


proof fn lemma_find_doctype_first(d: Seq<u8>, from: int, i: int)
    requires
        4 <= from <= i,
        i + 3 < d.len(),
        d[i] == 0x42 && d[i + 1] == 0x82,
        forall|j: int| from <= j < i ==> !(d[j] == 0x42 && #[trigger] d[j + 1] == 0x82),
    ensures
        find_doctype(d, from) == Some(i),
    decreases i - from,
{
    if from < i {
        assert(!(d[from] == 0x42 && d[from + 1] == 0x82));
        lemma_find_doctype_first(d, from + 1, i);
    }
}

proof fn lemma_find_doctype_none(d: Seq<u8>, from: int)
    requires
        4 <= from,
        forall|j: int| from <= j && j + 3 < d.len() ==> !(d[j] == 0x42 && #[trigger] d[j + 1] == 0x82),
    ensures
        find_doctype(d, from) is None,
    decreases d.len() - from,
{
    if from + 3 < d.len() {
        assert(!(d[from] == 0x42 && d[from + 1] == 0x82));
        lemma_find_doctype_none(d, from + 1);
    }
}

/// An EBML file is WebM when its first DocType element, wherever it stands
/// among the EBML header's elements from byte 4 on, holds `webm` (one-byte
/// size 4): the elements before it, whatever they are, do not matter.
pub proof fn lemma_webm_doctype_anywhere(d: Seq<u8>, i: int)
    requires
        d.len() >= 4,
        d[0] == 0x1A && d[1] == 0x45 && d[2] == 0xDF && d[3] == 0xA3,
        4 <= i,
        i + 7 <= d.len(),
        d[i] == 0x42 && d[i + 1] == 0x82,
        forall|j: int| 4 <= j < i ==> !(d[j] == 0x42 && #[trigger] d[j + 1] == 0x82),
        d[i + 2] == 0x84,
        d[i + 3] == 0x77 && d[i + 4] == 0x65 && d[i + 5] == 0x62 && d[i + 6] == 0x6d,
    ensures
        detected(d) == Some(ContainerFormat::WebM),
{
    lemma_find_doctype_first(d, 4, i);
    assert(be_bytes(d, i + 2, 1) == d[i + 2]) by {
        assert(be_bytes(d, i + 2, 0) == 0);
    }
}

/// An EBML file whose first DocType element (wherever it stands from byte
/// 4 on) holds `matroska` (one-byte size 8) is MKV, and so is one with no
/// DocType element at all.
pub proof fn lemma_matroska_or_no_doctype(d: Seq<u8>, i: int)
    requires
        d.len() >= 4,
        d[0] == 0x1A && d[1] == 0x45 && d[2] == 0xDF && d[3] == 0xA3,
    ensures
        (forall|j: int| 4 <= j && j + 3 < d.len() ==> !(d[j] == 0x42 && #[trigger] d[j + 1] == 0x82))
            ==> detected(d) == Some(ContainerFormat::Mkv),
        ({
            &&& 4 <= i
            &&& i + 11 <= d.len()
            &&& d[i] == 0x42 && d[i + 1] == 0x82
            &&& forall|j: int| 4 <= j < i ==> !(d[j] == 0x42 && #[trigger] d[j + 1] == 0x82)
            &&& d[i + 2] == 0x88
            &&& d[i + 3] == 0x6d && d[i + 4] == 0x61 && d[i + 5] == 0x74 && d[i + 6] == 0x72
        }) ==> detected(d) == Some(ContainerFormat::Mkv),
{
    if forall|j: int| 4 <= j && j + 3 < d.len() ==> !(d[j] == 0x42 && #[trigger] d[j + 1] == 0x82) {
        lemma_find_doctype_none(d, 4);
    }
    if 4 <= i && i + 11 <= d.len() && d[i] == 0x42 && d[i + 1] == 0x82
        && (forall|j: int| 4 <= j < i ==> !(d[j] == 0x42 && #[trigger] d[j + 1] == 0x82)) {
        lemma_find_doctype_first(d, 4, i);
        assert(be_bytes(d, i + 2, 1) == d[i + 2]) by {
            assert(be_bytes(d, i + 2, 0) == 0);
        }
    }
}

} // verus!
