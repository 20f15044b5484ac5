//! Matroska (MKV) writing support: EBML element encoding and errors.
//!
//! These are the write-side primitives for building EBML elements.

use vstd::prelude::*;
use crate::container_detect::{be_bytes, pow2_7, vint_width};
use crate::error::MuxError;
use crate::text::{dec, push_dec, push_text};
use crate::wire::push_slice;

verus! {

/// The bytes of an EBML element ID: its significant bytes, big-endian.
pub open spec fn element_id_bytes(id: u32) -> Seq<u8> {
    if id <= 0xFF {
        seq![id as u8]
    } else if id <= 0xFFFF {
        seq![(id >> 8u32) as u8, id as u8]
    } else if id <= 0xFF_FFFF {
        seq![(id >> 16u32) as u8, (id >> 8u32) as u8, id as u8]
    } else {
        seq![(id >> 24u32) as u8, (id >> 16u32) as u8, (id >> 8u32) as u8, id as u8]
    }
}

/// The bytes of an EBML data size (a vint with its marker bit), in the
/// narrowest of the one- to four-byte forms.
pub open spec fn data_size_bytes(size: u64) -> Seq<u8> {
    if size < 0x7F {
        seq![(size as u8) | 0x80]
    } else if size < 0x3FFF {
        let v = size | 0x4000;
        seq![(v >> 8u64) as u8, v as u8]
    } else if size < 0x1F_FFFF {
        let v = size | 0x20_0000;
        seq![(v >> 16u64) as u8, (v >> 8u64) as u8, v as u8]
    } else {
        let v = size | 0x1000_0000;
        seq![(v >> 24u64) as u8, (v >> 16u64) as u8, (v >> 8u64) as u8, v as u8]
    }
}

/// The bytes of an EBML element: ID, data size, body.
pub open spec fn element_bytes(id: u32, body: Seq<u8>) -> Seq<u8> {
    element_id_bytes(id) + data_size_bytes(body.len() as u64) + body
}

/// The minimal big-endian bytes of an unsigned integer: its bytes from the
/// most significant non-zero one down (one zero byte for 0).
pub open spec fn uint_bytes(v: u64) -> Seq<u8>
    decreases v,
{
    if v <= 0xFF {
        seq![v as u8]
    } else {
        proof {
            assert(v > 0xFF ==> (v >> 8u64) < v) by (bit_vector);
        }
        uint_bytes(v >> 8u64).push(v as u8)
    }
}

/// The bytes of an unsigned integer element are as few as hold its value:
/// one more than the bytes above its lowest that the value reaches, the
/// first of them non-zero unless the value is 0.
pub proof fn lemma_uint_bytes_minimal(v: u64)
    ensures
        uint_bytes(v).len() == 1 + uint_width_above(v),
        v > 0 ==> uint_bytes(v)[0] != 0,
    decreases v,
{
    lemma_uint_len_steps(v);
    if v > 0xFF {
        assert((v >> 8u64) < v && (v >> 8u64) > 0) by (bit_vector)
            requires v > 0xFF;
        lemma_uint_bytes_minimal(v >> 8u64);
        assert(uint_bytes(v)[0] == uint_bytes(v >> 8u64)[0]);
    }
}

/// The number of bytes above the least significant one that are still
/// below the highest non-zero byte.
pub open spec fn uint_width_above(v: u64) -> nat {
    if v <= 0xFF {
        0
    } else if v <= 0xFFFF {
        1
    } else if v <= 0xFF_FFFF {
        2
    } else if v <= 0xFFFF_FFFF {
        3
    } else if v <= 0xFF_FFFF_FFFF {
        4
    } else if v <= 0xFFFF_FFFF_FFFF {
        5
    } else if v <= 0xFF_FFFF_FFFF_FFFF {
        6
    } else {
        7
    }
}

proof fn lemma_uint_len_steps(v: u64)
    ensures
        uint_bytes(v).len() == 1 + uint_width_above(v),
    decreases v,
{
    if v > 0xFF {
        assert((v >> 8u64) < v) by (bit_vector)
            requires v > 0xFF;
        lemma_uint_len_steps(v >> 8u64);
        let w = v >> 8u64;
        assert(uint_width_above(w) + 1 == uint_width_above(v)) by {
            assert(v <= 0xFFFF ==> w <= 0xFF) by (bit_vector) requires w == v >> 8u64;
            assert(v > 0xFFFF ==> w > 0xFF) by (bit_vector) requires w == v >> 8u64;
            assert(v <= 0xFF_FFFF ==> w <= 0xFFFF) by (bit_vector) requires w == v >> 8u64;
            assert(v > 0xFF_FFFF ==> w > 0xFFFF) by (bit_vector) requires w == v >> 8u64;
            assert(v <= 0xFFFF_FFFF ==> w <= 0xFF_FFFF) by (bit_vector) requires w == v >> 8u64;
            assert(v > 0xFFFF_FFFF ==> w > 0xFF_FFFF) by (bit_vector) requires w == v >> 8u64;
            assert(v <= 0xFF_FFFF_FFFF ==> w <= 0xFFFF_FFFF) by (bit_vector) requires w == v >> 8u64;
            assert(v > 0xFF_FFFF_FFFF ==> w > 0xFFFF_FFFF) by (bit_vector) requires w == v >> 8u64;
            assert(v <= 0xFFFF_FFFF_FFFF ==> w <= 0xFF_FFFF_FFFF) by (bit_vector) requires w == v >> 8u64;
            assert(v > 0xFFFF_FFFF_FFFF ==> w > 0xFF_FFFF_FFFF) by (bit_vector) requires w == v >> 8u64;
            assert(v <= 0xFF_FFFF_FFFF_FFFF ==> w <= 0xFFFF_FFFF_FFFF) by (bit_vector) requires w == v >> 8u64;
            assert(v > 0xFF_FFFF_FFFF_FFFF ==> w > 0xFFFF_FFFF_FFFF) by (bit_vector) requires w == v >> 8u64;
            assert(w <= 0xFF_FFFF_FFFF_FFFF) by (bit_vector) requires w == v >> 8u64;
        }
    }
}

/// Encodes an EBML element ID into bytes (preserving marker bits).
pub fn encode_element_id(id: u32) -> (r: Vec<u8>)
    ensures
        r@ == element_id_bytes(id),
{
    let mut v: Vec<u8> = Vec::new();
    if id <= 0xFF {
        v.push(id as u8);
    } else if id <= 0xFFFF {
        v.push((id >> 8u32) as u8);
        v.push(id as u8);
    } else if id <= 0xFF_FFFF {
        v.push((id >> 16u32) as u8);
        v.push((id >> 8u32) as u8);
        v.push(id as u8);
    } else {
        v.push((id >> 24u32) as u8);
        v.push((id >> 16u32) as u8);
        v.push((id >> 8u32) as u8);
        v.push(id as u8);
    }
    assert(v@ =~= element_id_bytes(id));
    v
}

/// Encodes a data size as an EBML vint (with marker bit).
pub fn encode_data_size(size: u64) -> (r: Vec<u8>)
    ensures
        r@ == data_size_bytes(size),
{
    let mut v: Vec<u8> = Vec::new();
    if size < 0x7F {
        v.push((size as u8) | 0x80);
    } else if size < 0x3FFF {
        let val = size | 0x4000;
        v.push((val >> 8u64) as u8);
        v.push(val as u8);
    } else if size < 0x1F_FFFF {
        let val = size | 0x20_0000;
        v.push((val >> 16u64) as u8);
        v.push((val >> 8u64) as u8);
        v.push(val as u8);
    } else {
        let val = size | 0x1000_0000;
        v.push((val >> 24u64) as u8);
        v.push((val >> 16u64) as u8);
        v.push((val >> 8u64) as u8);
        v.push(val as u8);
    }
    assert(v@ =~= data_size_bytes(size));
    v
}

/// Builds a complete EBML element: ID + data size + body.
pub fn build_element(id: u32, body: &[u8]) -> (r: Vec<u8>)
    ensures
        r@ == element_bytes(id, body@),
{
    let mut out = encode_element_id(id);
    let size = encode_data_size(body.len() as u64);
    push_slice(&mut out, size.as_slice());
    push_slice(&mut out, body);
    assert(out@ =~= element_bytes(id, body@));
    out
}

/// Encodes a `u64` as a big-endian unsigned integer with minimal byte width.
fn encode_uint(value: u64) -> (r: Vec<u8>)
    ensures
        r@ == uint_bytes(value),
    decreases value,
{
    if value <= 0xFF {
        let v: Vec<u8> = vec![value as u8];
        assert(v@ =~= uint_bytes(value));
        v
    } else {
        assert((value >> 8u64) < value) by (bit_vector)
            requires value > 0xFF;
        let mut v = encode_uint(value >> 8u64);
        v.push(value as u8);
        v
    }
}

/// Builds an EBML unsigned integer element.
pub fn uint_element(id: u32, value: u64) -> (r: Vec<u8>)
    ensures
        r@ == element_bytes(id, uint_bytes(value)),
{
    let body = encode_uint(value);
    build_element(id, body.as_slice())
}

/// The UTF-8 bytes of a string (`str::as_bytes`).
#[verifier::external_body]
fn utf8_bytes(s: &str) -> (r: &[u8])
    ensures
        r@ == crate::mkv::utf8(s@),
{
    s.as_bytes()
}

/// The UTF-8 encoding of one character: one to four bytes by the size of
/// its code point.
pub open spec fn utf8_char(c: char) -> Seq<u8> {
    let v = c as u32;
    if v < 0x80 {
        seq![v as u8]
    } else if v < 0x800 {
        seq![(0xC0u32 | (v >> 6u32)) as u8, (0x80u32 | (v & 0x3Fu32)) as u8]
    } else if v < 0x1_0000 {
        seq![(0xE0u32 | (v >> 12u32)) as u8, (0x80u32 | ((v >> 6u32) & 0x3Fu32)) as u8, (0x80u32 | (v & 0x3Fu32)) as u8]
    } else {
        seq![
            (0xF0u32 | (v >> 18u32)) as u8,
            (0x80u32 | ((v >> 12u32) & 0x3Fu32)) as u8,
            (0x80u32 | ((v >> 6u32) & 0x3Fu32)) as u8,
            (0x80u32 | (v & 0x3Fu32)) as u8,
        ]
    }
}

/// The UTF-8 encoding of a string: its characters' encodings in order.
pub open spec fn utf8(s: Seq<char>) -> Seq<u8>
    decreases s.len(),
{
    if s.len() == 0 {
        seq![]
    } else {
        utf8(s.drop_last()) + utf8_char(s.last())
    }
}

/// Builds an EBML string element holding the UTF-8 bytes of `s`.
pub fn string_element(id: u32, s: &str) -> (r: Vec<u8>)
    ensures
        r@ == element_bytes(id, utf8(s@)),
{
    build_element(id, utf8_bytes(s))
}

/// A data size written by `encode_data_size` reads back, as an EBML vint,
/// as the size, for every size below 2^28.
pub proof fn lemma_data_size_round_trip(size: u64)
    requires
        size < 0x1000_0000,
    ensures
        ({
            let b = data_size_bytes(size);
            let w = vint_width(b[0]);
            &&& b.len() == w
            &&& be_bytes(b, 0, w as nat) % pow2_7(w) == size
        }),
{
    let b = data_size_bytes(size);
    reveal_with_fuel(be_bytes, 5);
    if size < 0x7F {
        let x = (size as u8) | 0x80;
        assert(x >= 0x80 && x % 0x80 == size) by (bit_vector) requires size < 0x7F, x == (size as u8) | 0x80;
    } else if size < 0x3FFF {
        let v = size | 0x4000;
        let (b0, b1) = ((v >> 8u64) as u8, v as u8);
        assert(0x40 <= b0 < 0x80 && (b0 as u64 * 256 + b1 as u64) % 0x4000 == size) by (bit_vector)
            requires size < 0x3FFF, v == size | 0x4000, b0 == (v >> 8u64) as u8, b1 == v as u8;
    } else if size < 0x1F_FFFF {
        let v = size | 0x20_0000;
        let (b0, b1, b2) = ((v >> 16u64) as u8, (v >> 8u64) as u8, v as u8);
        assert(0x20 <= b0 < 0x40 && ((b0 as u64 * 256 + b1 as u64) * 256 + b2 as u64) % 0x20_0000 == size)
            by (bit_vector)
            requires size < 0x1F_FFFF, v == size | 0x20_0000, b0 == (v >> 16u64) as u8,
                b1 == (v >> 8u64) as u8, b2 == v as u8;
    } else {
        let v = size | 0x1000_0000;
        let (b0, b1, b2, b3) = ((v >> 24u64) as u8, (v >> 16u64) as u8, (v >> 8u64) as u8, v as u8);
        assert(0x10 <= b0 < 0x20 && (((b0 as u64 * 256 + b1 as u64) * 256 + b2 as u64) * 256 + b3 as u64)
            % 0x1000_0000 == size) by (bit_vector)
            requires size < 0x1000_0000, v == size | 0x1000_0000, b0 == (v >> 24u64) as u8,
                b1 == (v >> 16u64) as u8, b2 == (v >> 8u64) as u8, b3 == v as u8;
    }
}

/// Errors produced by MKV operations.
///
/// `Io` carries the message of the underlying I/O failure.
#[derive(Debug)]
pub enum MkvError {
    NotMkv,
    InvalidElement { offset: u64, message: String },
    UnexpectedEof { offset: u64 },
    UnsupportedCodec { codec_id: String },
    MissingElement { name: &'static str },
    Io(String),
}

impl MkvError {
    /// The error message.
    pub open spec fn spec_text(&self) -> Seq<char> {
        match self {
            MkvError::NotMkv => "not a valid Matroska file"@,
            MkvError::InvalidElement { offset, message } =>
                "invalid EBML element at offset "@ + dec(*offset as nat) + ": "@ + message@,
            MkvError::UnexpectedEof { offset } => "unexpected end of file at offset "@ + dec(*offset as nat),
            MkvError::UnsupportedCodec { codec_id } => "unsupported codec: "@ + codec_id@,
            MkvError::MissingElement { name } => "missing required element: "@ + name@,
            MkvError::Io(m) => m@,
        }
    }

    /// The error message.
    pub fn to_string(&self) -> (r: String)
        ensures
            r@ == self.spec_text(),
    {
        let mut s = String::new();
        match self {
            MkvError::NotMkv => push_text(&mut s, "not a valid Matroska file"),
            MkvError::InvalidElement { offset, message } => {
                push_text(&mut s, "invalid EBML element at offset ");
                push_dec(&mut s, *offset);
                push_text(&mut s, ": ");
                push_text(&mut s, message.as_str());
            },
            MkvError::UnexpectedEof { offset } => {
                push_text(&mut s, "unexpected end of file at offset ");
                push_dec(&mut s, *offset);
            },
            MkvError::UnsupportedCodec { codec_id } => {
                push_text(&mut s, "unsupported codec: ");
                push_text(&mut s, codec_id.as_str());
            },
            MkvError::MissingElement { name } => {
                push_text(&mut s, "missing required element: ");
                push_text(&mut s, *name);
            },
            MkvError::Io(m) => push_text(&mut s, m.as_str()),
        }
        s
    }

    /// Converts into the generic muxer error: an I/O error carrying this
    /// error's message.
    pub fn into_mux_error(self) -> (r: MuxError)
        ensures
            r matches MuxError::Io(m) && m@ == self.spec_text(),
    {
        MuxError::Io(self.to_string())
    }
}

} // verus!
