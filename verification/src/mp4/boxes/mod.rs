//! ISO BMFF box header parsing and iteration over sibling boxes.
//!
//! All parsing functions are pure: they take byte slices and return typed results.

pub mod ctts;
pub mod ftyp;
pub mod hdlr;
pub mod mdhd;
pub mod mvhd;
pub mod stco;
pub mod stsc;
pub mod stsd;
pub mod stss;
pub mod stsz;
pub mod stts;
pub mod tkhd;

use vstd::prelude::*;
use crate::mp4::error::Mp4Error;
use crate::text::{dec, hex2_lower, push_char, push_dec, push_hex2_lower, push_text};
use crate::wire::{read_be32_at, read_be64_at, seq_be16, seq_be32, seq_be64, sub_slice, read_be16_at};

verus! {

/// Four-character code identifying a box type.
#[derive(Clone, Copy, Debug)]
pub struct FourCC(pub [u8; 4]);

impl FourCC {
    /// The `ftyp` box code.
    pub fn ftyp() -> (r: FourCC)
        ensures
            r.0@ == seq![0x66u8, 0x74u8, 0x79u8, 0x70u8],
    {
        let r = FourCC([0x66, 0x74, 0x79, 0x70]);
        assert(r.0@ =~= seq![0x66u8, 0x74u8, 0x79u8, 0x70u8]);
        r
    }

    /// The `moov` box code.
    pub fn moov() -> (r: FourCC)
        ensures
            r.0@ == seq![0x6du8, 0x6fu8, 0x6fu8, 0x76u8],
    {
        let r = FourCC([0x6d, 0x6f, 0x6f, 0x76]);
        assert(r.0@ =~= seq![0x6du8, 0x6fu8, 0x6fu8, 0x76u8]);
        r
    }

    /// The `mvhd` box code.
    pub fn mvhd() -> (r: FourCC)
        ensures
            r.0@ == seq![0x6du8, 0x76u8, 0x68u8, 0x64u8],
    {
        let r = FourCC([0x6d, 0x76, 0x68, 0x64]);
        assert(r.0@ =~= seq![0x6du8, 0x76u8, 0x68u8, 0x64u8]);
        r
    }

    /// The `trak` box code.
    pub fn trak() -> (r: FourCC)
        ensures
            r.0@ == seq![0x74u8, 0x72u8, 0x61u8, 0x6bu8],
    {
        let r = FourCC([0x74, 0x72, 0x61, 0x6b]);
        assert(r.0@ =~= seq![0x74u8, 0x72u8, 0x61u8, 0x6bu8]);
        r
    }

    /// The `tkhd` box code.
    pub fn tkhd() -> (r: FourCC)
        ensures
            r.0@ == seq![0x74u8, 0x6bu8, 0x68u8, 0x64u8],
    {
        let r = FourCC([0x74, 0x6b, 0x68, 0x64]);
        assert(r.0@ =~= seq![0x74u8, 0x6bu8, 0x68u8, 0x64u8]);
        r
    }

    /// The `mdia` box code.
    pub fn mdia() -> (r: FourCC)
        ensures
            r.0@ == seq![0x6du8, 0x64u8, 0x69u8, 0x61u8],
    {
        let r = FourCC([0x6d, 0x64, 0x69, 0x61]);
        assert(r.0@ =~= seq![0x6du8, 0x64u8, 0x69u8, 0x61u8]);
        r
    }

    /// The `mdhd` box code.
    pub fn mdhd() -> (r: FourCC)
        ensures
            r.0@ == seq![0x6du8, 0x64u8, 0x68u8, 0x64u8],
    {
        let r = FourCC([0x6d, 0x64, 0x68, 0x64]);
        assert(r.0@ =~= seq![0x6du8, 0x64u8, 0x68u8, 0x64u8]);
        r
    }

    /// The `hdlr` box code.
    pub fn hdlr() -> (r: FourCC)
        ensures
            r.0@ == seq![0x68u8, 0x64u8, 0x6cu8, 0x72u8],
    {
        let r = FourCC([0x68, 0x64, 0x6c, 0x72]);
        assert(r.0@ =~= seq![0x68u8, 0x64u8, 0x6cu8, 0x72u8]);
        r
    }

    /// The `minf` box code.
    pub fn minf() -> (r: FourCC)
        ensures
            r.0@ == seq![0x6du8, 0x69u8, 0x6eu8, 0x66u8],
    {
        let r = FourCC([0x6d, 0x69, 0x6e, 0x66]);
        assert(r.0@ =~= seq![0x6du8, 0x69u8, 0x6eu8, 0x66u8]);
        r
    }

    /// The `stbl` box code.
    pub fn stbl() -> (r: FourCC)
        ensures
            r.0@ == seq![0x73u8, 0x74u8, 0x62u8, 0x6cu8],
    {
        let r = FourCC([0x73, 0x74, 0x62, 0x6c]);
        assert(r.0@ =~= seq![0x73u8, 0x74u8, 0x62u8, 0x6cu8]);
        r
    }

    /// The `stsd` box code.
    pub fn stsd() -> (r: FourCC)
        ensures
            r.0@ == seq![0x73u8, 0x74u8, 0x73u8, 0x64u8],
    {
        let r = FourCC([0x73, 0x74, 0x73, 0x64]);
        assert(r.0@ =~= seq![0x73u8, 0x74u8, 0x73u8, 0x64u8]);
        r
    }

    /// The `stts` box code.
    pub fn stts() -> (r: FourCC)
        ensures
            r.0@ == seq![0x73u8, 0x74u8, 0x74u8, 0x73u8],
    {
        let r = FourCC([0x73, 0x74, 0x74, 0x73]);
        assert(r.0@ =~= seq![0x73u8, 0x74u8, 0x74u8, 0x73u8]);
        r
    }

    /// The `ctts` box code.
    pub fn ctts() -> (r: FourCC)
        ensures
            r.0@ == seq![0x63u8, 0x74u8, 0x74u8, 0x73u8],
    {
        let r = FourCC([0x63, 0x74, 0x74, 0x73]);
        assert(r.0@ =~= seq![0x63u8, 0x74u8, 0x74u8, 0x73u8]);
        r
    }

    /// The `stsc` box code.
    pub fn stsc() -> (r: FourCC)
        ensures
            r.0@ == seq![0x73u8, 0x74u8, 0x73u8, 0x63u8],
    {
        let r = FourCC([0x73, 0x74, 0x73, 0x63]);
        assert(r.0@ =~= seq![0x73u8, 0x74u8, 0x73u8, 0x63u8]);
        r
    }

    /// The `stsz` box code.
    pub fn stsz() -> (r: FourCC)
        ensures
            r.0@ == seq![0x73u8, 0x74u8, 0x73u8, 0x7au8],
    {
        let r = FourCC([0x73, 0x74, 0x73, 0x7a]);
        assert(r.0@ =~= seq![0x73u8, 0x74u8, 0x73u8, 0x7au8]);
        r
    }

    /// The `stco` box code.
    pub fn stco() -> (r: FourCC)
        ensures
            r.0@ == seq![0x73u8, 0x74u8, 0x63u8, 0x6fu8],
    {
        let r = FourCC([0x73, 0x74, 0x63, 0x6f]);
        assert(r.0@ =~= seq![0x73u8, 0x74u8, 0x63u8, 0x6fu8]);
        r
    }

    /// The `co64` box code.
    pub fn co64() -> (r: FourCC)
        ensures
            r.0@ == seq![0x63u8, 0x6fu8, 0x36u8, 0x34u8],
    {
        let r = FourCC([0x63, 0x6f, 0x36, 0x34]);
        assert(r.0@ =~= seq![0x63u8, 0x6fu8, 0x36u8, 0x34u8]);
        r
    }

    /// The `stss` box code.
    pub fn stss() -> (r: FourCC)
        ensures
            r.0@ == seq![0x73u8, 0x74u8, 0x73u8, 0x73u8],
    {
        let r = FourCC([0x73, 0x74, 0x73, 0x73]);
        assert(r.0@ =~= seq![0x73u8, 0x74u8, 0x73u8, 0x73u8]);
        r
    }

    /// The `mdat` box code.
    pub fn mdat() -> (r: FourCC)
        ensures
            r.0@ == seq![0x6du8, 0x64u8, 0x61u8, 0x74u8],
    {
        let r = FourCC([0x6d, 0x64, 0x61, 0x74]);
        assert(r.0@ =~= seq![0x6du8, 0x64u8, 0x61u8, 0x74u8]);
        r
    }

    /// The `udta` box code.
    pub fn udta() -> (r: FourCC)
        ensures
            r.0@ == seq![0x75u8, 0x64u8, 0x74u8, 0x61u8],
    {
        let r = FourCC([0x75, 0x64, 0x74, 0x61]);
        assert(r.0@ =~= seq![0x75u8, 0x64u8, 0x74u8, 0x61u8]);
        r
    }

    /// The `meta` box code.
    pub fn meta() -> (r: FourCC)
        ensures
            r.0@ == seq![0x6du8, 0x65u8, 0x74u8, 0x61u8],
    {
        let r = FourCC([0x6d, 0x65, 0x74, 0x61]);
        assert(r.0@ =~= seq![0x6du8, 0x65u8, 0x74u8, 0x61u8]);
        r
    }

    /// Whether two codes hold the same four bytes.
    pub fn same(&self, other: &FourCC) -> (r: bool)
        ensures
            r == (self.0@ == other.0@),
    {
        let r = self.0[0] == other.0[0] && self.0[1] == other.0[1] && self.0[2] == other.0[2]
            && self.0[3] == other.0[3];
        proof {
            if r {
                assert(self.0@ =~= other.0@);
            }
        }
        r
    }

    /// The printed form of the code: printable ASCII bytes as themselves,
    /// every other byte as a `\xNN` escape.
    pub open spec fn spec_text(&self) -> Seq<char> {
        byte_text(self.0@[0]) + byte_text(self.0@[1]) + byte_text(self.0@[2]) + byte_text(self.0@[3])
    }

    /// Returns the printed form of the code.
    pub fn to_string(&self) -> (r: String)
        ensures
            r@ == self.spec_text(),
    {
        let mut s = String::new();
        push_byte_text(&mut s, self.0[0]);
        push_byte_text(&mut s, self.0[1]);
        push_byte_text(&mut s, self.0[2]);
        push_byte_text(&mut s, self.0[3]);
        assert(s@ =~= self.spec_text());
        s
    }
}

impl PartialEq for FourCC {
    fn eq(&self, other: &FourCC) -> (r: bool) {
        self.same(other)
    }
}

impl vstd::std_specs::cmp::PartialEqSpecImpl for FourCC {
    open spec fn obeys_eq_spec() -> bool {
        true
    }

    open spec fn eq_spec(&self, other: &FourCC) -> bool {
        self.0@ == other.0@
    }
}

impl Eq for FourCC {}

/// The printed form of one byte of a four-character code.
pub open spec fn byte_text(b: u8) -> Seq<char> {
    if 0x20 <= b <= 0x7e {
        seq![b as char]
    } else {
        "\\x"@ + hex2_lower(b)
    }
}

fn push_byte_text(s: &mut String, b: u8)
    ensures
        final(s)@ == old(s)@ + byte_text(b),
{
    if 0x20 <= b && b <= 0x7e {
        push_char(s, b as char);
        assert(final(s)@ =~= old(s)@ + byte_text(b));
    } else {
        push_text(s, "\\x");
        push_hex2_lower(s, b);
        assert(final(s)@ =~= old(s)@ + byte_text(b));
    }
}

/// Parsed box header.
#[derive(Debug, Clone, Copy)]
pub struct BoxHeader {
    /// Four-character code.
    pub box_type: FourCC,
    /// Total box size in bytes (including header); 0 means "to the end of the data".
    pub size: u64,
    /// Size of just the header (8 or 16 bytes).
    pub header_size: u8,
}

impl BoxHeader {
    /// Size of the body (total size minus header).
    pub fn body_size(&self) -> (r: u64)
        requires
            self.size >= self.header_size,
        ensures
            r == self.size - self.header_size,
    {
        self.size - self.header_size as u64
    }
}

/// Whether the bytes at `p` hold a complete box header.
pub open spec fn header_complete(s: Seq<u8>, p: int) -> bool {
    p + 8 <= s.len() && (seq_be32(s, p) == 1 ==> p + 16 <= s.len())
}

/// Header length of the box at `p` (16 when the 64-bit size form is used).
pub open spec fn header_len(s: Seq<u8>, p: int) -> int {
    if seq_be32(s, p) == 1 {
        16
    } else {
        8
    }
}

/// The size field of the box header at `p` (0 stands for "to the end").
pub open spec fn header_size_field(s: Seq<u8>, p: int) -> u64 {
    if seq_be32(s, p) == 1 {
        seq_be64(s, p + 8)
    } else {
        seq_be32(s, p) as u64
    }
}

/// Parse a box header from the start of a byte slice.
pub fn parse_box_header(data: &[u8], offset: u64) -> (r: Result<BoxHeader, Mp4Error>)
    ensures
        r is Ok <==> header_complete(data@, 0),
        r matches Ok(h) ==> {
            &&& h.box_type.0@ == data@.subrange(4, 8)
            &&& h.header_size == header_len(data@, 0)
            &&& h.size == header_size_field(data@, 0)
        },
        r matches Err(e) ==> e matches Mp4Error::UnexpectedEof { offset: o } && o == offset,
{
    if data.len() < 8 {
        return Err(Mp4Error::UnexpectedEof { offset });
    }
    let size_field = read_be32_at(data, 0);
    let box_type = FourCC([data[4], data[5], data[6], data[7]]);
    assert(box_type.0@ =~= data@.subrange(4, 8));
    if size_field == 1 {
        if data.len() < 16 {
            return Err(Mp4Error::UnexpectedEof { offset });
        }
        let extended = read_be64_at(data, 8);
        Ok(BoxHeader { box_type, size: extended, header_size: 16 })
    } else if size_field == 0 {
        Ok(BoxHeader { box_type, size: 0, header_size: 8 })
    } else {
        Ok(BoxHeader { box_type, size: size_field as u64, header_size: 8 })
    }
}

/// A parsed box: header + body bytes.
#[derive(Debug)]
pub struct ParsedBox<'a> {
    pub header: BoxHeader,
    pub body: &'a [u8],
    /// Offset of this box relative to the start of the parent data.
    pub offset: u64,
}

/// Total size of the box whose header is at `p` (a size field of 0 extends
/// the box to the end of the data).
pub open spec fn box_total(s: Seq<u8>, p: int) -> int {
    if header_size_field(s, p) == 0 {
        s.len() - p
    } else {
        header_size_field(s, p) as int
    }
}

/// How the walk over sibling boxes proceeds at position `p`.
pub enum BoxStep {
    /// Fewer than 8 bytes remain: the walk ends.
    Done,
    /// The box header or body runs past the data.
    Truncated,
    /// The declared size is smaller than the header.
    Undersized,
    /// A complete box lies at `p`.
    Whole,
}

pub open spec fn box_step(s: Seq<u8>, p: int) -> BoxStep {
    if p + 8 > s.len() {
        BoxStep::Done
    } else if !header_complete(s, p) {
        BoxStep::Truncated
    } else if box_total(s, p) < header_len(s, p) {
        BoxStep::Undersized
    } else if p + box_total(s, p) > s.len() {
        BoxStep::Truncated
    } else {
        BoxStep::Whole
    }
}

/// The error that the walk reports at position `p` (relative offsets start at `base`).
pub open spec fn step_error(e: Mp4Error, s: Seq<u8>, p: int, base: u64) -> bool {
    match box_step(s, p) {
        BoxStep::Truncated => e matches Mp4Error::UnexpectedEof { offset } && offset == base + p,
        BoxStep::Undersized => e matches Mp4Error::InvalidBox { offset, .. } && offset == base + p,
        _ => false,
    }
}

/// The box found at position `p`.
pub open spec fn box_at(b: ParsedBox, s: Seq<u8>, p: int, base: u64) -> bool {
    &&& b.offset == base + p
    &&& b.header.box_type.0@ == s.subrange(p + 4, p + 8)
    &&& b.header.header_size == header_len(s, p)
    &&& b.header.size == header_size_field(s, p)
    &&& b.body@ == s.subrange(p + header_len(s, p), p + box_total(s, p))
}

/// Iterator state over sibling boxes within a byte slice.
pub struct BoxIterator<'a> {
    data: &'a [u8],
    position: usize,
    base_offset: u64,
}

/// Iterate over sibling boxes within a byte slice.
pub fn iter_boxes(data: &[u8], base_offset: u64) -> (r: BoxIterator<'_>)
    ensures
        r.spec_data() == data@,
        r.spec_position() == 0,
        r.spec_base() == base_offset,
{
    BoxIterator { data, position: 0, base_offset }
}

impl<'a> BoxIterator<'a> {
    pub closed spec fn spec_data(&self) -> Seq<u8> {
        self.data@
    }

    pub closed spec fn spec_position(&self) -> int {
        self.position as int
    }

    pub closed spec fn spec_base(&self) -> u64 {
        self.base_offset
    }

    /// Yields the next sibling box, an error, or `None` at the end.
    pub fn next_box(&mut self) -> (r: Option<Result<ParsedBox<'a>, Mp4Error>>)
        requires
            old(self).spec_base() + old(self).spec_data().len() <= u64::MAX,
            old(self).spec_position() <= old(self).spec_data().len(),
        ensures
            final(self).spec_data() == old(self).spec_data(),
            final(self).spec_base() == old(self).spec_base(),
            final(self).spec_position() <= final(self).spec_data().len(),
            ({
                let s = old(self).spec_data();
                let p = old(self).spec_position();
                let base = old(self).spec_base();
                match box_step(s, p) {
                    BoxStep::Done => r is None && final(self).spec_position() == p,
                    BoxStep::Whole => r matches Some(Ok(b)) && box_at(b, s, p, base)
                        && final(self).spec_position() == p + box_total(s, p),
                    _ => r matches Some(Err(e)) && step_error(e, s, p, base)
                        && final(self).spec_position() == p,
                }
            }),
    {
        let len = self.data.len();
        if self.position >= len || len - self.position < 8 {
            return None;
        }
        let pos = self.position;
        let abs_offset = self.base_offset + pos as u64;
        let size_field = read_be32_at(self.data, pos);
        if size_field == 1 && len - pos < 16 {
            return Some(Err(Mp4Error::UnexpectedEof { offset: abs_offset }));
        }
        let header_size: u8 = if size_field == 1 { 16 } else { 8 };
        let size: u64 = if size_field == 1 { read_be64_at(self.data, pos + 8) } else { size_field as u64 };
        let box_type = FourCC([self.data[pos + 4], self.data[pos + 5], self.data[pos + 6], self.data[pos + 7]]);
        assert(box_type.0@ =~= self.data@.subrange(pos + 4, pos + 8));
        let header = BoxHeader { box_type, size, header_size };
        let total_size: u64 = if size == 0 { (len - pos) as u64 } else { size };
        if total_size < header_size as u64 {
            let mut message = String::new();
            push_text(&mut message, "box '");
            let name = box_type.to_string();
            push_text(&mut message, name.as_str());
            push_text(&mut message, "' size ");
            push_dec(&mut message, total_size);
            push_text(&mut message, " is smaller than header");
            return Some(Err(Mp4Error::InvalidBox { offset: abs_offset, message }));
        }
        if total_size > (len - pos) as u64 {
            return Some(Err(Mp4Error::UnexpectedEof { offset: abs_offset }));
        }
        let end = pos + total_size as usize;
        let body = sub_slice(self.data, pos + header_size as usize, end);
        self.position = end;
        Some(Ok(ParsedBox { header, body, offset: abs_offset }))
    }
}

/// Outcome of searching sibling boxes for a box type.
pub enum Search {
    Found(int),
    NotFound,
    Failed(int),
}

/// Walks the sibling boxes from `p` looking for the first box of type `t`.
pub open spec fn search_box(s: Seq<u8>, p: int, t: Seq<u8>) -> Search
    decreases s.len() - p,
{
    if p < 0 || p > s.len() {
        Search::NotFound
    } else {
        match box_step(s, p) {
            BoxStep::Done => Search::NotFound,
            BoxStep::Whole => if s.subrange(p + 4, p + 8) == t {
                Search::Found(p)
            } else {
                search_box(s, p + box_total(s, p), t)
            },
            _ => Search::Failed(p),
        }
    }
}

/// What `find_box` returns for a search outcome.
pub open spec fn search_result(r: Result<Option<ParsedBox>, Mp4Error>, s: Seq<u8>, t: Seq<u8>, base: u64) -> bool {
    match search_box(s, 0, t) {
        Search::Found(p) => r matches Ok(Some(b)) && box_at(b, s, p, base),
        Search::NotFound => r matches Ok(None),
        Search::Failed(p) => r matches Err(e) && step_error(e, s, p, base),
    }
}

/// Find the first box with the given type within a byte slice.
pub fn find_box<'a>(data: &'a [u8], box_type: FourCC, base_offset: u64) -> (r: Result<Option<ParsedBox<'a>>, Mp4Error>)
    requires
        base_offset + data@.len() <= u64::MAX,
    ensures
        search_result(r, data@, box_type.0@, base_offset),
{
    let mut it = iter_boxes(data, base_offset);
    loop
        invariant
            it.spec_data() == data@,
            it.spec_base() == base_offset,
            0 <= it.spec_position() <= data@.len(),
            base_offset + data@.len() <= u64::MAX,
            search_box(data@, 0, box_type.0@) == search_box(data@, it.spec_position(), box_type.0@),
        decreases data@.len() - it.spec_position(),
    {
        let ghost p = it.spec_position();
        match it.next_box() {
            None => {
                return Ok(None);
            },
            Some(Err(e)) => {
                return Err(e);
            },
            Some(Ok(parsed)) => {
                if parsed.header.box_type.same(&box_type) {
                    return Ok(Some(parsed));
                }
            },
        }
    }
}

/// Find a required box, returning `MissingBox` if not found.
pub fn require_box<'a>(data: &'a [u8], box_type: FourCC, base_offset: u64, name: &'static str) -> (r: Result<ParsedBox<'a>, Mp4Error>)
    requires
        base_offset + data@.len() <= u64::MAX,
    ensures
        match search_box(data@, 0, box_type.0@) {
            Search::Found(p) => r matches Ok(b) && box_at(b, data@, p, base_offset),
            Search::NotFound => r matches Err(Mp4Error::MissingBox { name: n }) && n == name,
            Search::Failed(p) => r matches Err(e) && step_error(e, data@, p, base_offset),
        },
{
    match find_box(data, box_type, base_offset) {
        Ok(Some(b)) => Ok(b),
        Ok(None) => Err(Mp4Error::MissingBox { name }),
        Err(e) => Err(e),
    }
}

/// Parse a full-box header (version + flags) from the start of a box body.
/// Returns (version, flags, remaining body after the 4-byte full-box header).
pub fn parse_full_box_header(body: &[u8], offset: u64) -> (r: Result<(u8, u32, &[u8]), Mp4Error>)
    ensures
        r is Ok <==> body@.len() >= 4,
        r matches Ok((v, f, rest)) ==> v == body@[0] && f == seq_be32(body@, 0) % 0x100_0000
            && rest@ == body@.subrange(4, body@.len() as int),
        r matches Err(e) ==> e matches Mp4Error::UnexpectedEof { offset: o } && o == offset,
{
    if body.len() < 4 {
        return Err(Mp4Error::UnexpectedEof { offset });
    }
    let version = body[0];
    let flags = ((body[1] as u32) << 16u32) | ((body[2] as u32) << 8u32) | (body[3] as u32);
    let (b0, b1, b2, b3) = (body[0], body[1], body[2], body[3]);
    assert((((b0 as u32) << 24u32) | ((b1 as u32) << 16u32) | ((b2 as u32) << 8u32) | (b3 as u32)) % 0x100_0000
        == ((b1 as u32) << 16u32) | ((b2 as u32) << 8u32) | (b3 as u32)) by (bit_vector);
    Ok((version, flags, sub_slice(body, 4, body.len())))
}

/// Read a big-endian u16 from a byte slice.
pub fn read_u16(data: &[u8], offset: u64) -> (r: Result<u16, Mp4Error>)
    ensures
        r is Ok <==> data@.len() >= 2,
        r matches Ok(v) ==> v == seq_be16(data@, 0),
        r matches Err(e) ==> e matches Mp4Error::UnexpectedEof { offset: o } && o == offset,
{
    if data.len() < 2 {
        return Err(Mp4Error::UnexpectedEof { offset });
    }
    Ok(read_be16_at(data, 0))
}

/// Read a big-endian u32 from a byte slice.
pub fn read_u32(data: &[u8], offset: u64) -> (r: Result<u32, Mp4Error>)
    ensures
        r is Ok <==> data@.len() >= 4,
        r matches Ok(v) ==> v == seq_be32(data@, 0),
        r matches Err(e) ==> e matches Mp4Error::UnexpectedEof { offset: o } && o == offset,
{
    if data.len() < 4 {
        return Err(Mp4Error::UnexpectedEof { offset });
    }
    Ok(read_be32_at(data, 0))
}

/// Read a big-endian u64 from a byte slice.
pub fn read_u64(data: &[u8], offset: u64) -> (r: Result<u64, Mp4Error>)
    ensures
        r is Ok <==> data@.len() >= 8,
        r matches Ok(v) ==> v == seq_be64(data@, 0),
        r matches Err(e) ==> e matches Mp4Error::UnexpectedEof { offset: o } && o == offset,
{
    if data.len() < 8 {
        return Err(Mp4Error::UnexpectedEof { offset });
    }
    Ok(read_be64_at(data, 0))
}

} // verus!
