//! Sample Description Box (stsd) parser.
//!
//! Extracts codec identification and configuration from the first sample
//! entry. Codec-specific sub-boxes (avcC, hvcC, av1C, esds) are kept as
//! opaque bytes for downstream decoders; an nclx `colr` box is decoded into
//! a colour space.

use vstd::prelude::*;
use crate::media::{ColorPrimaries, ColorRange, ColorSpace, MatrixCoefficients, TransferCharacteristics};
use crate::mp4::boxes::{box_total, find_box, header_len, search_box, FourCC, Search};
use crate::mp4::error::Mp4Error;
use crate::text::push_text;
use crate::wire::{push_slice, read_be16_at, read_be32_at, seq_be16, seq_be32, sub_slice};

verus! {

/// Codec configuration extracted from an stsd sample entry.
#[derive(Debug, Clone)]
pub enum CodecConfig {
    Avc1 {
        width: u16,
        height: u16,
        /// Raw avcC box data (contains SPS/PPS).
        avcc: Vec<u8>,
        color_space: Option<ColorSpace>,
    },
    Hev1 {
        width: u16,
        height: u16,
        /// Raw hvcC box data.
        hvcc: Vec<u8>,
        color_space: Option<ColorSpace>,
    },
    Av1 {
        width: u16,
        height: u16,
        /// Raw av1C box data.
        av1c: Vec<u8>,
        color_space: Option<ColorSpace>,
    },
    Mp4a {
        sample_rate: u32,
        channel_count: u16,
        /// Raw esds box data (contains AudioSpecificConfig).
        esds: Vec<u8>,
    },
    Unknown(String),
}

/// The contents of a codec configuration, with byte buffers as sequences.
pub enum ConfigView {
    Avc1 { width: u16, height: u16, avcc: Seq<u8>, color_space: Option<ColorSpace> },
    Hev1 { width: u16, height: u16, hvcc: Seq<u8>, color_space: Option<ColorSpace> },
    Av1 { width: u16, height: u16, av1c: Seq<u8>, color_space: Option<ColorSpace> },
    Mp4a { sample_rate: u32, channel_count: u16, esds: Seq<u8> },
    Unknown(Seq<char>),
}

impl View for CodecConfig {
    type V = ConfigView;

    open spec fn view(&self) -> ConfigView {
        match self {
            CodecConfig::Avc1 { width, height, avcc, color_space } =>
                ConfigView::Avc1 { width: *width, height: *height, avcc: avcc@, color_space: *color_space },
            CodecConfig::Hev1 { width, height, hvcc, color_space } =>
                ConfigView::Hev1 { width: *width, height: *height, hvcc: hvcc@, color_space: *color_space },
            CodecConfig::Av1 { width, height, av1c, color_space } =>
                ConfigView::Av1 { width: *width, height: *height, av1c: av1c@, color_space: *color_space },
            CodecConfig::Mp4a { sample_rate, channel_count, esds } =>
                ConfigView::Mp4a { sample_rate: *sample_rate, channel_count: *channel_count, esds: esds@ },
            CodecConfig::Unknown(name) => ConfigView::Unknown(name@),
        }
    }
}

pub open spec fn avc1_tag() -> Seq<u8> { seq![0x61u8, 0x76u8, 0x63u8, 0x31u8] }
pub open spec fn avc3_tag() -> Seq<u8> { seq![0x61u8, 0x76u8, 0x63u8, 0x33u8] }
pub open spec fn hev1_tag() -> Seq<u8> { seq![0x68u8, 0x65u8, 0x76u8, 0x31u8] }
pub open spec fn hvc1_tag() -> Seq<u8> { seq![0x68u8, 0x76u8, 0x63u8, 0x31u8] }
pub open spec fn av01_tag() -> Seq<u8> { seq![0x61u8, 0x76u8, 0x30u8, 0x31u8] }
pub open spec fn mp4a_tag() -> Seq<u8> { seq![0x6du8, 0x70u8, 0x34u8, 0x61u8] }
pub open spec fn opus_tag() -> Seq<u8> { seq![0x4fu8, 0x70u8, 0x75u8, 0x73u8] }
pub open spec fn avcc_tag() -> Seq<u8> { seq![0x61u8, 0x76u8, 0x63u8, 0x43u8] }
pub open spec fn hvcc_tag() -> Seq<u8> { seq![0x68u8, 0x76u8, 0x63u8, 0x43u8] }
pub open spec fn av1c_tag() -> Seq<u8> { seq![0x61u8, 0x76u8, 0x31u8, 0x43u8] }
pub open spec fn esds_tag() -> Seq<u8> { seq![0x65u8, 0x73u8, 0x64u8, 0x73u8] }
pub open spec fn colr_tag() -> Seq<u8> { seq![0x63u8, 0x6fu8, 0x6cu8, 0x72u8] }
pub open spec fn nclx_tag() -> Seq<u8> { seq![0x6eu8, 0x63u8, 0x6cu8, 0x78u8] }

/// The text `String::from_utf8_lossy` makes of some bytes.
pub uninterp spec fn utf8_lossy(b: Seq<u8>) -> Seq<char>;

/// Decodes bytes as UTF-8, replacing invalid sequences (`String::from_utf8_lossy`).
#[verifier::external_body]
fn lossy_text(b: [u8; 4]) -> (r: String)
    ensures
        r@ == utf8_lossy(b@),
{
    String::from_utf8_lossy(&b).to_string()
}

/// The kind of sample entry a four-character code names.
pub enum EntryKind {
    Avc,
    Hevc,
    Av1,
    Mp4a,
    Opus,
    Other,
}

pub open spec fn entry_kind(t: Seq<u8>) -> EntryKind {
    if t == avc1_tag() || t == avc3_tag() {
        EntryKind::Avc
    } else if t == hev1_tag() || t == hvc1_tag() {
        EntryKind::Hevc
    } else if t == av01_tag() {
        EntryKind::Av1
    } else if t == mp4a_tag() {
        EntryKind::Mp4a
    } else if t == opus_tag() {
        EntryKind::Opus
    } else {
        EntryKind::Other
    }
}

/// Colour primaries for an ISO 23001-8 code.
pub open spec fn primaries_of(code: u16) -> Option<ColorPrimaries> {
    if code == 1 {
        Some(ColorPrimaries::Bt709)
    } else if code == 9 {
        Some(ColorPrimaries::Bt2020)
    } else if code == 12 {
        Some(ColorPrimaries::Smpte432)
    } else {
        None
    }
}

/// Transfer characteristics for an ISO 23001-8 code.
pub open spec fn transfer_of(code: u16) -> Option<TransferCharacteristics> {
    if code == 1 {
        Some(TransferCharacteristics::Bt709)
    } else if code == 16 {
        Some(TransferCharacteristics::Smpte2084)
    } else if code == 18 {
        Some(TransferCharacteristics::HybridLogGamma)
    } else {
        None
    }
}

/// Matrix coefficients for an ISO 23001-8 code.
pub open spec fn matrix_of(code: u16) -> Option<MatrixCoefficients> {
    if code == 0 {
        Some(MatrixCoefficients::Identity)
    } else if code == 1 {
        Some(MatrixCoefficients::Bt709)
    } else if code == 9 {
        Some(MatrixCoefficients::Bt2020NonConstant)
    } else if code == 10 {
        Some(MatrixCoefficients::Bt2020Constant)
    } else {
        None
    }
}

/// The colour space an nclx `colr` body describes, when its codes are known.
/// The top bit of the eleventh byte is the full-range flag.
pub open spec fn nclx_color(b: Seq<u8>) -> Option<ColorSpace> {
    if b.len() >= 11 && b.subrange(0, 4) == nclx_tag() {
        match (primaries_of(seq_be16(b, 4)), transfer_of(seq_be16(b, 6)), matrix_of(seq_be16(b, 8))) {
            (Some(p), Some(t), Some(m)) => Some(ColorSpace {
                primaries: p,
                transfer: t,
                matrix: m,
                range: if b[10] >= 0x80 { ColorRange::Full } else { ColorRange::Limited },
            }),
            _ => None,
        }
    } else {
        None
    }
}

/// The body of the first box of type `t` among the sibling boxes in `s`,
/// or nothing when there is none.
pub open spec fn found_body(s: Seq<u8>, t: Seq<u8>) -> Seq<u8> {
    match search_box(s, 0, t) {
        Search::Found(p) => s.subrange(p + header_len(s, p), p + box_total(s, p)),
        _ => seq![],
    }
}

/// What parsing an stsd body comes to.
pub enum StsdOutcome {
    /// The data ends early.
    Eof,
    /// The entry count is zero.
    ZeroEntries,
    /// The walk over the sub-boxes `s` of the sample entry fails at position `p`.
    Failed(Seq<u8>, int),
    /// The sample entry parses to this configuration.
    Parsed(ConfigView),
}

/// What a visual sample entry body comes to, for the given codec.
pub open spec fn visual_outcome(e: Seq<u8>, kind: EntryKind) -> StsdOutcome {
    if e.len() < 78 {
        StsdOutcome::Eof
    } else {
        let sub = e.subrange(78, e.len() as int);
        let cfg = match kind {
            EntryKind::Avc => avcc_tag(),
            EntryKind::Hevc => hvcc_tag(),
            _ => av1c_tag(),
        };
        match search_box(sub, 0, cfg) {
            Search::Failed(p) => StsdOutcome::Failed(sub, p),
            _ => match search_box(sub, 0, colr_tag()) {
                Search::Failed(p) => StsdOutcome::Failed(sub, p),
                _ => {
                    let w = seq_be16(e, 24);
                    let h = seq_be16(e, 26);
                    let body = found_body(sub, cfg);
                    let cs = match search_box(sub, 0, colr_tag()) {
                        Search::Found(_) => nclx_color(found_body(sub, colr_tag())),
                        _ => None,
                    };
                    StsdOutcome::Parsed(match kind {
                        EntryKind::Avc => ConfigView::Avc1 { width: w, height: h, avcc: body, color_space: cs },
                        EntryKind::Hevc => ConfigView::Hev1 { width: w, height: h, hvcc: body, color_space: cs },
                        _ => ConfigView::Av1 { width: w, height: h, av1c: body, color_space: cs },
                    })
                },
            },
        }
    }
}

/// What an mp4a sample entry body comes to.
pub open spec fn audio_outcome(e: Seq<u8>) -> StsdOutcome {
    if e.len() < 28 {
        StsdOutcome::Eof
    } else {
        let sub = e.subrange(28, e.len() as int);
        match search_box(sub, 0, esds_tag()) {
            Search::Failed(p) => StsdOutcome::Failed(sub, p),
            _ => StsdOutcome::Parsed(ConfigView::Mp4a {
                sample_rate: seq_be32(e, 24) >> 16u32,
                channel_count: seq_be16(e, 16),
                esds: found_body(sub, esds_tag()),
            }),
        }
    }
}

/// What parsing the stsd body `d` comes to.
#[verifier::opaque]
pub open spec fn stsd_outcome(d: Seq<u8>) -> StsdOutcome {
    if d.len() < 8 {
        StsdOutcome::Eof
    } else if seq_be32(d, 4) == 0 {
        StsdOutcome::ZeroEntries
    } else if d.len() < 16 {
        StsdOutcome::Eof
    } else if seq_be32(d, 8) < 8 || seq_be32(d, 8) > d.len() - 8 {
        StsdOutcome::Eof
    } else {
        let t = d.subrange(12, 16);
        let e = d.subrange(16, 8 + seq_be32(d, 8));
        match entry_kind(t) {
            EntryKind::Mp4a => audio_outcome(e),
            EntryKind::Opus => StsdOutcome::Parsed(ConfigView::Unknown("Opus"@)),
            EntryKind::Other => StsdOutcome::Parsed(ConfigView::Unknown(utf8_lossy(t))),
            k => visual_outcome(e, k),
        }
    }
}

/// Whether a parse result matches an outcome, errors carrying `offset`.
pub open spec fn outcome_result(r: Result<CodecConfig, Mp4Error>, o: StsdOutcome, offset: u64) -> bool {
    match o {
        StsdOutcome::Eof => r matches Err(Mp4Error::UnexpectedEof { offset: x }) && x == offset,
        StsdOutcome::ZeroEntries => r matches Err(Mp4Error::InvalidBox { offset: x, message })
            && x == offset && message@ == "stsd has zero entries"@,
        StsdOutcome::Failed(s, p) => r matches Err(e) && crate::mp4::boxes::step_error(e, s, p, offset),
        StsdOutcome::Parsed(v) => r matches Ok(c) && c@ == v,
    }
}

fn tag_is(t: &[u8; 4], a: u8, b: u8, c: u8, d: u8) -> (r: bool)
    ensures
        r == (t@ == seq![a, b, c, d]),
{
    let r = t[0] == a && t[1] == b && t[2] == c && t[3] == d;
    proof {
        if t@ == seq![a, b, c, d] {
            assert(t@[0] == a && t@[1] == b && t@[2] == c && t@[3] == d);
        }
        if r {
            assert(t@ =~= seq![a, b, c, d]);
        }
    }
    r
}

fn tag(a: u8, b: u8, c: u8, d: u8) -> (r: FourCC)
    ensures
        r.0@ == seq![a, b, c, d],
{
    let r = FourCC([a, b, c, d]);
    assert(r.0@ =~= seq![a, b, c, d]);
    r
}

/// Copies the body of the first box of type `t` in `data`, or gives an
/// empty buffer when there is none.
fn copy_found(data: &[u8], t: FourCC, offset: u64) -> (r: Result<Vec<u8>, Mp4Error>)
    requires
        offset + data@.len() <= u64::MAX,
    ensures
        match search_box(data@, 0, t.0@) {
            Search::Failed(p) => r matches Err(e) && crate::mp4::boxes::step_error(e, data@, p, offset),
            _ => r matches Ok(v) && v@ == found_body(data@, t.0@),
        },
{
    match find_box(data, t, offset) {
        Ok(Some(b)) => {
            let mut v: Vec<u8> = Vec::new();
            push_slice(&mut v, b.body);
            assert(v@ =~= found_body(data@, t.0@));
            Ok(v)
        },
        Ok(None) => {
            let v: Vec<u8> = Vec::new();
            assert(v@ =~= found_body(data@, t.0@));
            Ok(v)
        },
        Err(e) => Err(e),
    }
}

fn primaries_from(code: u16) -> (r: Option<ColorPrimaries>)
    ensures
        r == primaries_of(code),
{
    if code == 1 {
        Some(ColorPrimaries::Bt709)
    } else if code == 9 {
        Some(ColorPrimaries::Bt2020)
    } else if code == 12 {
        Some(ColorPrimaries::Smpte432)
    } else {
        None
    }
}

fn transfer_from(code: u16) -> (r: Option<TransferCharacteristics>)
    ensures
        r == transfer_of(code),
{
    if code == 1 {
        Some(TransferCharacteristics::Bt709)
    } else if code == 16 {
        Some(TransferCharacteristics::Smpte2084)
    } else if code == 18 {
        Some(TransferCharacteristics::HybridLogGamma)
    } else {
        None
    }
}

fn matrix_from(code: u16) -> (r: Option<MatrixCoefficients>)
    ensures
        r == matrix_of(code),
{
    if code == 0 {
        Some(MatrixCoefficients::Identity)
    } else if code == 1 {
        Some(MatrixCoefficients::Bt709)
    } else if code == 9 {
        Some(MatrixCoefficients::Bt2020NonConstant)
    } else if code == 10 {
        Some(MatrixCoefficients::Bt2020Constant)
    } else {
        None
    }
}

/// Decodes the body of an nclx `colr` box.
fn parse_nclx(b: &[u8]) -> (r: Option<ColorSpace>)
    ensures
        r == nclx_color(b@),
{
    if b.len() < 11 {
        return None;
    }
    if !(b[0] == 0x6e && b[1] == 0x63 && b[2] == 0x6c && b[3] == 0x78) {
        proof {
            if b@.subrange(0, 4) == nclx_tag() {
                assert(b@.subrange(0, 4)[0] == b@[0]);
                assert(b@.subrange(0, 4)[1] == b@[1]);
                assert(b@.subrange(0, 4)[2] == b@[2]);
                assert(b@.subrange(0, 4)[3] == b@[3]);
            }
        }
        return None;
    }
    assert(b@.subrange(0, 4) =~= nclx_tag());
    let p = primaries_from(read_be16_at(b, 4));
    let t = transfer_from(read_be16_at(b, 6));
    let m = matrix_from(read_be16_at(b, 8));
    match (p, t, m) {
        (Some(p), Some(t), Some(m)) => Some(ColorSpace {
            primaries: p,
            transfer: t,
            matrix: m,
            range: if b[10] >= 0x80 { ColorRange::Full } else { ColorRange::Limited },
        }),
        _ => None,
    }
}

/// Parses a visual sample entry body (avc1/avc3, hev1/hvc1, av01).
fn parse_visual_sample_entry(data: &[u8], kind: u8, offset: u64) -> (r: Result<CodecConfig, Mp4Error>)
    requires
        kind <= 2,
        offset + data@.len() <= u64::MAX,
    ensures
        outcome_result(r, visual_outcome(data@, if kind == 0 {
            EntryKind::Avc
        } else if kind == 1 {
            EntryKind::Hevc
        } else {
            EntryKind::Av1
        }), offset),
{
    if data.len() < 78 {
        return Err(Mp4Error::UnexpectedEof { offset });
    }
    let width = read_be16_at(data, 24);
    let height = read_be16_at(data, 26);
    let sub = sub_slice(data, 78, data.len());
    let cfg_tag = if kind == 0 {
        tag(0x61, 0x76, 0x63, 0x43)
    } else if kind == 1 {
        tag(0x68, 0x76, 0x63, 0x43)
    } else {
        tag(0x61, 0x76, 0x31, 0x43)
    };
    let config = match copy_found(sub, cfg_tag, offset) {
        Ok(v) => v,
        Err(e) => return Err(e),
    };
    let color_space = match find_box(sub, tag(0x63, 0x6f, 0x6c, 0x72), offset) {
        Ok(Some(b)) => parse_nclx(b.body),
        Ok(None) => None,
        Err(e) => return Err(e),
    };
    if kind == 0 {
        Ok(CodecConfig::Avc1 { width, height, avcc: config, color_space })
    } else if kind == 1 {
        Ok(CodecConfig::Hev1 { width, height, hvcc: config, color_space })
    } else {
        Ok(CodecConfig::Av1 { width, height, av1c: config, color_space })
    }
}

/// Parses an mp4a sample entry body.
fn parse_audio_sample_entry(data: &[u8], offset: u64) -> (r: Result<CodecConfig, Mp4Error>)
    requires
        offset + data@.len() <= u64::MAX,
    ensures
        outcome_result(r, audio_outcome(data@), offset),
{
    if data.len() < 28 {
        return Err(Mp4Error::UnexpectedEof { offset });
    }
    let channel_count = read_be16_at(data, 16);
    let sample_rate_fp = read_be32_at(data, 24);
    let sample_rate = sample_rate_fp >> 16u32;
    let sub = sub_slice(data, 28, data.len());
    match copy_found(sub, tag(0x65, 0x73, 0x64, 0x73), offset) {
        Ok(esds) => Ok(CodecConfig::Mp4a { sample_rate, channel_count, esds }),
        Err(e) => Err(e),
    }
}

/// Parse an stsd box body, returning the codec config for the first sample entry.
pub fn parse_stsd(data: &[u8], offset: u64) -> (r: Result<CodecConfig, Mp4Error>)
    requires
        offset + data@.len() <= u64::MAX,
    ensures
        outcome_result(r, stsd_outcome(data@), offset),
{
    proof {
        reveal(stsd_outcome);
    }
    if data.len() < 8 {
        return Err(Mp4Error::UnexpectedEof { offset });
    }
    let entry_count = read_be32_at(data, 4);
    if entry_count == 0 {
        let mut message = String::new();
        push_text(&mut message, "stsd has zero entries");
        return Err(Mp4Error::InvalidBox { offset, message });
    }
    if data.len() < 16 {
        return Err(Mp4Error::UnexpectedEof { offset });
    }
    let entry_size = read_be32_at(data, 8) as usize;
    if entry_size < 8 || entry_size > data.len() - 8 {
        return Err(Mp4Error::UnexpectedEof { offset });
    }
    let t = [data[12], data[13], data[14], data[15]];
    let ghost tv = data@.subrange(12, 16);
    assert(t@ =~= tv);
    let entry_body = sub_slice(data, 16, 8 + entry_size);
    if tag_is(&t, 0x61, 0x76, 0x63, 0x31) || tag_is(&t, 0x61, 0x76, 0x63, 0x33) {
        parse_visual_sample_entry(entry_body, 0, offset)
    } else if tag_is(&t, 0x68, 0x65, 0x76, 0x31) || tag_is(&t, 0x68, 0x76, 0x63, 0x31) {
        parse_visual_sample_entry(entry_body, 1, offset)
    } else if tag_is(&t, 0x61, 0x76, 0x30, 0x31) {
        parse_visual_sample_entry(entry_body, 2, offset)
    } else if tag_is(&t, 0x6d, 0x70, 0x34, 0x61) {
        parse_audio_sample_entry(entry_body, offset)
    } else if tag_is(&t, 0x4f, 0x70, 0x75, 0x73) {
        let mut name = String::new();
        push_text(&mut name, "Opus");
        Ok(CodecConfig::Unknown(name))
    } else {
        Ok(CodecConfig::Unknown(lossy_text(t)))
    }
}

} // verus!
