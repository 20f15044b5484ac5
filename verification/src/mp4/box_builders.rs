//! MP4 box building helpers shared by the regular and fragmented muxers.
//!
//! These functions produce the raw bytes of ISO BMFF boxes that are
//! structurally identical between regular and fragmented MP4 files.

use vstd::prelude::*;
use crate::error::MuxError;
use crate::media::{ColorPrimaries, ColorRange, ColorSpace, MatrixCoefficients, TransferCharacteristics};
use crate::mp4::boxes::hdlr::{sbtl, soun, subt, text4, vide, HandlerType};
use crate::mp4::boxes::stsd::CodecConfig;
use crate::text::push_text;
use crate::mp4::boxes::{box_step, box_total, header_len, search_box, BoxStep, Search};
use crate::mp4::boxes::stsd::{
    audio_outcome, colr_tag, entry_kind, found_body, nclx_color, stsd_outcome, visual_outcome, ConfigView,
    EntryKind, StsdOutcome,
};
use crate::wire::{
    lemma_be16_roundtrip, lemma_be32_roundtrip, push_repeat, push_slice, push_u16, push_u32, seq_be16,
    seq_be32, u16_bytes, u32_bytes,
};

verus! {

/// `n` zero bytes.
pub open spec fn zeros(n: nat) -> Seq<u8> {
    Seq::new(n, |_i: int| 0u8)
}

/// A box of type `t` around `body`: 32-bit size, type, body.
pub open spec fn box_bytes(t: Seq<u8>, body: Seq<u8>) -> Seq<u8> {
    u32_bytes((8 + body.len()) as u32) + t + body
}

/// The unity transformation matrix of movie and track headers.
pub open spec fn unity_matrix() -> Seq<u8> {
    u32_bytes(0x0001_0000) + u32_bytes(0) + u32_bytes(0) + u32_bytes(0) + u32_bytes(0x0001_0000)
        + u32_bytes(0) + u32_bytes(0) + u32_bytes(0) + u32_bytes(0x4000_0000)
}

pub open spec fn mvhd_body(timescale: u32, duration: u32) -> Seq<u8> {
    zeros(4) + u32_bytes(0) + u32_bytes(0) + u32_bytes(timescale) + u32_bytes(duration)
        + u32_bytes(0x0001_0000) + u16_bytes(0x0100) + zeros(10) + unity_matrix() + zeros(24)
        + u32_bytes(0xFFFF_FFFF)
}

pub open spec fn tkhd_body(track_id: u32, duration: u32, width: u32, height: u32) -> Seq<u8> {
    seq![0u8, 0u8, 0u8, 3u8] + u32_bytes(0) + u32_bytes(0) + u32_bytes(track_id) + u32_bytes(0)
        + u32_bytes(duration) + zeros(8) + u16_bytes(0) + u16_bytes(0) + u16_bytes(0) + zeros(2)
        + unity_matrix() + u32_bytes(width << 16u32) + u32_bytes(height << 16u32)
}

pub open spec fn mdhd_body(timescale: u32, duration: u32) -> Seq<u8> {
    zeros(4) + u32_bytes(0) + u32_bytes(0) + u32_bytes(timescale) + u32_bytes(duration)
        + u16_bytes(0x55C4) + u16_bytes(0)
}

/// The video media header box: graphics mode copy, no opcolor.
pub open spec fn vmhd_box() -> Seq<u8> {
    box_bytes(vmhd_tag(), seq![0u8, 0u8, 0u8, 1u8] + u16_bytes(0) + zeros(6))
}

/// The sound media header box: centred balance.
pub open spec fn smhd_box() -> Seq<u8> {
    box_bytes(smhd_tag(), zeros(4) + u16_bytes(0) + u16_bytes(0))
}

/// The null media header box.
pub open spec fn nmhd_box() -> Seq<u8> {
    box_bytes(nmhd_tag(), zeros(4))
}

/// The data information box with one self-contained `url ` entry.
pub open spec fn dinf_box() -> Seq<u8> {
    box_bytes(dinf_tag(), box_bytes(dref_tag(), zeros(4) + u32_bytes(1) + box_bytes(url_tag(), seq![0u8, 0u8, 0u8, 1u8])))
}

pub open spec fn hdlr_body(h: HandlerType) -> Seq<u8> {
    zeros(4) + u32_bytes(0) + h.spec_bytes() + zeros(12) + seq![0u8]
}

pub open spec fn mvhd_tag() -> Seq<u8> { seq![0x6du8, 0x76u8, 0x68u8, 0x64u8] }
pub open spec fn tkhd_tag() -> Seq<u8> { seq![0x74u8, 0x6bu8, 0x68u8, 0x64u8] }
pub open spec fn mdhd_tag() -> Seq<u8> { seq![0x6du8, 0x64u8, 0x68u8, 0x64u8] }
pub open spec fn hdlr_tag() -> Seq<u8> { seq![0x68u8, 0x64u8, 0x6cu8, 0x72u8] }
pub open spec fn vmhd_tag() -> Seq<u8> { seq![0x76u8, 0x6du8, 0x68u8, 0x64u8] }
pub open spec fn smhd_tag() -> Seq<u8> { seq![0x73u8, 0x6du8, 0x68u8, 0x64u8] }
pub open spec fn nmhd_tag() -> Seq<u8> { seq![0x6eu8, 0x6du8, 0x68u8, 0x64u8] }
pub open spec fn dinf_tag() -> Seq<u8> { seq![0x64u8, 0x69u8, 0x6eu8, 0x66u8] }
pub open spec fn dref_tag() -> Seq<u8> { seq![0x64u8, 0x72u8, 0x65u8, 0x66u8] }
pub open spec fn url_tag() -> Seq<u8> { seq![0x75u8, 0x72u8, 0x6cu8, 0x20u8] }
pub open spec fn stsd_tag() -> Seq<u8> { seq![0x73u8, 0x74u8, 0x73u8, 0x64u8] }

/// The fixed part of a visual sample entry, before its sub-boxes.
pub open spec fn visual_entry_head(width: u16, height: u16) -> Seq<u8> {
    zeros(6) + u16_bytes(1) + zeros(16) + u16_bytes(width) + u16_bytes(height)
        + u32_bytes(0x0048_0000) + u32_bytes(0x0048_0000) + u32_bytes(0) + u16_bytes(1) + zeros(32)
        + u16_bytes(0x0018) + u16_bytes(0xFFFF)
}

/// ISO 23001-8 code of colour primaries.
pub open spec fn primaries_code(p: ColorPrimaries) -> u16 {
    match p {
        ColorPrimaries::Bt709 => 1,
        ColorPrimaries::Bt2020 => 9,
        ColorPrimaries::Smpte432 => 12,
    }
}

/// ISO 23001-8 code of transfer characteristics.
pub open spec fn transfer_code(t: TransferCharacteristics) -> u16 {
    match t {
        TransferCharacteristics::Bt709 => 1,
        TransferCharacteristics::Smpte2084 => 16,
        TransferCharacteristics::HybridLogGamma => 18,
    }
}

/// ISO 23001-8 code of matrix coefficients.
pub open spec fn matrix_code(m: MatrixCoefficients) -> u16 {
    match m {
        MatrixCoefficients::Identity => 0,
        MatrixCoefficients::Bt709 => 1,
        MatrixCoefficients::Bt2020NonConstant => 9,
        MatrixCoefficients::Bt2020Constant => 10,
    }
}

/// The body of an nclx `colr` box.
pub open spec fn colr_body(cs: ColorSpace) -> Seq<u8> {
    crate::mp4::boxes::stsd::nclx_tag() + u16_bytes(primaries_code(cs.primaries))
        + u16_bytes(transfer_code(cs.transfer)) + u16_bytes(matrix_code(cs.matrix))
        + seq![if cs.range == ColorRange::Full { 0x80u8 } else { 0u8 }]
}

/// A visual sample entry box.
pub open spec fn visual_entry(
    t: Seq<u8>,
    width: u16,
    height: u16,
    cfg_t: Seq<u8>,
    cfg: Seq<u8>,
    cs: Option<ColorSpace>,
) -> Seq<u8> {
    box_bytes(t, visual_entry_head(width, height) + visual_sub_boxes(cfg_t, cfg, cs))
}

/// The fixed part of an audio sample entry, before its sub-boxes.
pub open spec fn audio_entry_head(sample_rate: u32, channel_count: u16) -> Seq<u8> {
    zeros(6) + u16_bytes(1) + zeros(8) + u16_bytes(channel_count) + u16_bytes(16) + u16_bytes(0)
        + u16_bytes(0) + u32_bytes(sample_rate << 16u32)
}

/// An mp4a sample entry box.
pub open spec fn audio_entry(sample_rate: u32, channel_count: u16, esds: Seq<u8>) -> Seq<u8> {
    box_bytes(crate::mp4::boxes::stsd::mp4a_tag(), audio_entry_head(sample_rate, channel_count)
        + (if esds.len() > 0 { box_bytes(crate::mp4::boxes::stsd::esds_tag(), esds) } else { seq![] }))
}

/// The sample entry box a codec configuration is written as.
pub open spec fn sample_entry(c: CodecConfig) -> Seq<u8> {
    match c {
        CodecConfig::Avc1 { width, height, avcc, color_space } => visual_entry(
            crate::mp4::boxes::stsd::avc1_tag(), width, height, crate::mp4::boxes::stsd::avcc_tag(), avcc@, color_space),
        CodecConfig::Hev1 { width, height, hvcc, color_space } => visual_entry(
            crate::mp4::boxes::stsd::hev1_tag(), width, height, crate::mp4::boxes::stsd::hvcc_tag(), hvcc@, color_space),
        CodecConfig::Av1 { width, height, av1c, color_space } => visual_entry(
            crate::mp4::boxes::stsd::av01_tag(), width, height, crate::mp4::boxes::stsd::av1c_tag(), av1c@, color_space),
        CodecConfig::Mp4a { sample_rate, channel_count, esds } => audio_entry(sample_rate, channel_count, esds@),
        CodecConfig::Unknown(_) => seq![],
    }
}

/// The `u16` stored big-endian at `i` is `v` when its two bytes are there.
pub proof fn lemma_read_u16_bytes(s: Seq<u8>, i: int, v: u16)
    requires
        0 <= i,
        i + 2 <= s.len(),
        s.subrange(i, i + 2) == u16_bytes(v),
    ensures
        seq_be16(s, i) == v,
{
    assert(s[i] == s.subrange(i, i + 2)[0]);
    assert(s[i + 1] == s.subrange(i, i + 2)[1]);
    lemma_be16_roundtrip(v);
}

/// The `u32` stored big-endian at `i` is `v` when its four bytes are there.
pub proof fn lemma_read_u32_bytes(s: Seq<u8>, i: int, v: u32)
    requires
        0 <= i,
        i + 4 <= s.len(),
        s.subrange(i, i + 4) == u32_bytes(v),
    ensures
        seq_be32(s, i) == v,
{
    assert(s[i] == s.subrange(i, i + 4)[0]);
    assert(s[i + 1] == s.subrange(i, i + 4)[1]);
    assert(s[i + 2] == s.subrange(i, i + 4)[2]);
    assert(s[i + 3] == s.subrange(i, i + 4)[3]);
    lemma_be32_roundtrip(v);
}

/// A box written by `box_bytes` at position `p` of `s` is read back as one
/// whole box of the same type and body.
pub proof fn lemma_box_reads_back(s: Seq<u8>, p: int, t: Seq<u8>, body: Seq<u8>)
    requires
        0 <= p,
        t.len() == 4,
        8 + body.len() <= u32::MAX,
        p + 8 + body.len() <= s.len(),
        s.subrange(p, p + 8 + body.len()) == box_bytes(t, body),
    ensures
        box_step(s, p) == BoxStep::Whole,
        seq_be32(s, p) == 8 + body.len(),
        header_len(s, p) == 8,
        box_total(s, p) == 8 + body.len(),
        s.subrange(p + 4, p + 8) == t,
        s.subrange(p + 8, p + 8 + body.len()) == body,
{
    let b = box_bytes(t, body);
    let n = (8 + body.len()) as u32;
    assert(s.subrange(p, p + 4) =~= b.subrange(0, 4));
    assert(b.subrange(0, 4) =~= u32_bytes(n));
    lemma_read_u32_bytes(s, p, n);
    assert(s.subrange(p + 4, p + 8) =~= b.subrange(4, 8));
    assert(b.subrange(4, 8) =~= t);
    assert(s.subrange(p + 8, p + 8 + body.len()) =~= b.subrange(8, 8 + body.len() as int));
    assert(b.subrange(8, 8 + body.len() as int) =~= body);
}

/// A built mvhd body parses (as version 0) to the timescale and duration written.
pub proof fn lemma_mvhd_round_trip(timescale: u32, duration: u32)
    ensures
        ({
            let b = mvhd_body(timescale, duration);
            &&& b.len() == 100
            &&& b[0] == 0
            &&& seq_be32(b, 12) == timescale
            &&& seq_be32(b, 16) == duration
        }),
{
    let b = mvhd_body(timescale, duration);
    assert(b.subrange(12, 16) =~= u32_bytes(timescale));
    assert(b.subrange(16, 20) =~= u32_bytes(duration));
    lemma_read_u32_bytes(b, 12, timescale);
    lemma_read_u32_bytes(b, 16, duration);
}

/// A built mdhd body parses (as version 0) to the timescale and duration written.
pub proof fn lemma_mdhd_round_trip(timescale: u32, duration: u32)
    ensures
        ({
            let b = mdhd_body(timescale, duration);
            &&& b.len() == 24
            &&& b[0] == 0
            &&& seq_be32(b, 12) == timescale
            &&& seq_be32(b, 16) == duration
        }),
{
    let b = mdhd_body(timescale, duration);
    assert(b.subrange(12, 16) =~= u32_bytes(timescale));
    assert(b.subrange(16, 20) =~= u32_bytes(duration));
    lemma_read_u32_bytes(b, 12, timescale);
    lemma_read_u32_bytes(b, 16, duration);
}

/// A built tkhd body parses (as version 0) to the track id, duration and
/// dimensions written, whenever the dimensions fit the 16.16 fields.
pub proof fn lemma_tkhd_round_trip(track_id: u32, duration: u32, width: u32, height: u32)
    requires
        width <= 0xFFFF,
        height <= 0xFFFF,
    ensures
        ({
            let b = tkhd_body(track_id, duration, width, height);
            &&& b.len() == 84
            &&& b[0] == 0
            &&& seq_be32(b, 12) == track_id
            &&& seq_be32(b, 20) == duration
            &&& seq_be32(b, 76) >> 16u32 == width
            &&& seq_be32(b, 80) >> 16u32 == height
        }),
{
    let b = tkhd_body(track_id, duration, width, height);
    assert(b.subrange(12, 16) =~= u32_bytes(track_id));
    assert(b.subrange(20, 24) =~= u32_bytes(duration));
    assert(b.subrange(76, 80) =~= u32_bytes(width << 16u32));
    assert(b.subrange(80, 84) =~= u32_bytes(height << 16u32));
    lemma_read_u32_bytes(b, 12, track_id);
    lemma_read_u32_bytes(b, 20, duration);
    lemma_read_u32_bytes(b, 76, width << 16u32);
    lemma_read_u32_bytes(b, 80, height << 16u32);
    assert((width << 16u32) >> 16u32 == width) by (bit_vector) requires width <= 0xFFFF;
    assert((height << 16u32) >> 16u32 == height) by (bit_vector) requires height <= 0xFFFF;
}

/// A built hdlr body parses to the handler written, unless that handler is
/// an `Other` code that spells one of the known handler codes.
pub proof fn lemma_hdlr_round_trip(h: HandlerType)
    requires
        h matches HandlerType::Other(x) ==> x@ != vide() && x@ != soun() && x@ != sbtl() && x@ != text4()
            && x@ != subt(),
    ensures
        hdlr_body(h).len() == 25,
        HandlerType::spec_from_bytes(hdlr_body(h).subrange(8, 12)) == h,
{
    let b = hdlr_body(h);
    assert(b.subrange(8, 12) =~= h.spec_bytes());
    match h {
        HandlerType::Video => {},
        HandlerType::Audio => {
            assert(soun()[0] != vide()[0]);
        },
        HandlerType::Subtitle => {
            assert(sbtl()[0] != vide()[0]);
            assert(sbtl()[1] != soun()[1]);
        },
        HandlerType::Other(x) => {
            let y: [u8; 4] = [x@[0], x@[1], x@[2], x@[3]];
            assert(y@ =~= x@);
            assert(y == x);
        },
    }
}

/// An nclx colour body reads back as the colour space written.
pub proof fn lemma_colr_round_trip(cs: ColorSpace)
    ensures
        nclx_color(colr_body(cs)) == Some(cs),
{
    let b = colr_body(cs);
    assert(b.subrange(0, 4) =~= crate::mp4::boxes::stsd::nclx_tag());
    assert(b.subrange(4, 6) =~= u16_bytes(primaries_code(cs.primaries)));
    assert(b.subrange(6, 8) =~= u16_bytes(transfer_code(cs.transfer)));
    assert(b.subrange(8, 10) =~= u16_bytes(matrix_code(cs.matrix)));
    lemma_read_u16_bytes(b, 4, primaries_code(cs.primaries));
    lemma_read_u16_bytes(b, 6, transfer_code(cs.transfer));
    lemma_read_u16_bytes(b, 8, matrix_code(cs.matrix));
}

/// Searching sibling boxes that hold one box of type `t0` followed by
/// nothing: the box is found when `t0` is the type searched for.
proof fn lemma_search_single(s: Seq<u8>, t0: Seq<u8>, body: Seq<u8>, t: Seq<u8>)
    requires
        t0.len() == 4,
        8 + body.len() <= u32::MAX,
        s == box_bytes(t0, body),
    ensures
        t0 == t ==> search_box(s, 0, t) == Search::Found(0),
        t0 == t ==> found_body(s, t) == body,
        t0 != t ==> search_box(s, 0, t) == Search::NotFound,
{
    assert(s.subrange(0, 8 + body.len() as int) =~= s);
    lemma_box_reads_back(s, 0, t0, body);
    assert(s.subrange(8, s.len() as int) =~= body);
    assert(search_box(s, s.len() as int, t) == Search::NotFound);
}

/// The sub-boxes written after a visual sample entry's fixed part.
pub open spec fn visual_sub_boxes(cfg_t: Seq<u8>, cfg: Seq<u8>, cs: Option<ColorSpace>) -> Seq<u8> {
    (if cfg.len() > 0 { box_bytes(cfg_t, cfg) } else { seq![] }) + (match cs {
        Some(c) => box_bytes(colr_tag(), colr_body(c)),
        None => seq![],
    })
}

/// The colour space the sub-box walk finds.
pub open spec fn found_color(sub: Seq<u8>) -> Option<ColorSpace> {
    match search_box(sub, 0, colr_tag()) {
        Search::Found(_) => nclx_color(found_body(sub, colr_tag())),
        _ => None,
    }
}

/// The sub-box walk of a visual sample entry finds exactly the boxes written.
#[verifier::rlimit(50)]
proof fn lemma_visual_sub_boxes(cfg_t: Seq<u8>, cfg: Seq<u8>, cs: Option<ColorSpace>)
    requires
        cfg_t.len() == 4,
        cfg_t[0] != colr_tag()[0],
        8 + cfg.len() + 19 <= u32::MAX,
    ensures
        ({
            let sub = visual_sub_boxes(cfg_t, cfg, cs);
            &&& !(search_box(sub, 0, cfg_t) is Failed)
            &&& !(search_box(sub, 0, colr_tag()) is Failed)
            &&& found_body(sub, cfg_t) == cfg
            &&& found_color(sub) == cs
        }),
{
    let sub = visual_sub_boxes(cfg_t, cfg, cs);
    if cfg.len() > 0 {
        let cfg_part = box_bytes(cfg_t, cfg);
        assert(sub.subrange(0, 8 + cfg.len() as int) =~= cfg_part);
        lemma_box_reads_back(sub, 0, cfg_t, cfg);
        assert(search_box(sub, 0, cfg_t) == Search::Found(0));
        assert(found_body(sub, cfg_t) =~= cfg);
        let p1: int = 8 + cfg.len() as int;
        match cs {
            Some(c) => {
                assert(sub.subrange(p1, p1 + 8 + colr_body(c).len() as int)
                    =~= box_bytes(colr_tag(), colr_body(c)));
                lemma_box_reads_back(sub, p1, colr_tag(), colr_body(c));
                assert(search_box(sub, p1, colr_tag()) == Search::Found(p1));
                assert(search_box(sub, 0, colr_tag()) == Search::Found(p1));
                assert(found_body(sub, colr_tag()) =~= colr_body(c));
                lemma_colr_round_trip(c);
            },
            None => {
                assert(search_box(sub, p1, colr_tag()) == Search::NotFound);
                assert(search_box(sub, 0, colr_tag()) == Search::NotFound);
            },
        }
    } else {
        match cs {
            Some(c) => {
                assert(sub =~= box_bytes(colr_tag(), colr_body(c)));
                lemma_search_single(sub, colr_tag(), colr_body(c), cfg_t);
                lemma_search_single(sub, colr_tag(), colr_body(c), colr_tag());
                assert(found_body(sub, colr_tag()) =~= colr_body(c));
                lemma_colr_round_trip(c);
            },
            None => {
                assert(sub.len() == 0);
            },
        }
        assert(found_body(sub, cfg_t) =~= cfg);
    }
}

/// A visual sample entry body reads back as the dimensions, codec
/// configuration and colour space written.
#[verifier::rlimit(50)]
proof fn lemma_visual_round_trip(kind: EntryKind, cfg_t: Seq<u8>, w: u16, h: u16, cfg: Seq<u8>, cs: Option<ColorSpace>)
    requires
        kind is Avc || kind is Hevc || kind is Av1,
        cfg_t == (match kind {
            EntryKind::Avc => crate::mp4::boxes::stsd::avcc_tag(),
            EntryKind::Hevc => crate::mp4::boxes::stsd::hvcc_tag(),
            _ => crate::mp4::boxes::stsd::av1c_tag(),
        }),
        8 + cfg.len() + 19 <= u32::MAX,
    ensures
        visual_outcome(visual_entry_head(w, h) + visual_sub_boxes(cfg_t, cfg, cs), kind)
            == StsdOutcome::Parsed(match kind {
                EntryKind::Avc => ConfigView::Avc1 { width: w, height: h, avcc: cfg, color_space: cs },
                EntryKind::Hevc => ConfigView::Hev1 { width: w, height: h, hvcc: cfg, color_space: cs },
                _ => ConfigView::Av1 { width: w, height: h, av1c: cfg, color_space: cs },
            }),
{
    let head = visual_entry_head(w, h);
    let sub = visual_sub_boxes(cfg_t, cfg, cs);
    let inner = head + sub;
    assert(head.len() == 78);
    assert(inner.subrange(24, 26) =~= u16_bytes(w));
    assert(inner.subrange(26, 28) =~= u16_bytes(h));
    lemma_read_u16_bytes(inner, 24, w);
    lemma_read_u16_bytes(inner, 26, h);
    assert(inner.subrange(78, inner.len() as int) =~= sub);
    assert(cfg_t[0] != colr_tag()[0]);
    lemma_visual_sub_boxes(cfg_t, cfg, cs);
}

/// The stsd body around a sample entry box of type `t` with body `inner`
/// reads as that entry.
#[verifier::rlimit(50)]
proof fn lemma_stsd_entry(t: Seq<u8>, inner: Seq<u8>)
    requires
        t.len() == 4,
        8 + inner.len() <= u32::MAX,
    ensures
        ({
            let d = zeros(4) + u32_bytes(1) + box_bytes(t, inner);
            &&& d.len() >= 16
            &&& seq_be32(d, 4) == 1
            &&& seq_be32(d, 8) == 8 + inner.len()
            &&& d.subrange(12, 16) == t
            &&& d.subrange(16, 8 + seq_be32(d, 8) as int) == inner
        }),
{
    let d = zeros(4) + u32_bytes(1) + box_bytes(t, inner);
    assert(d.subrange(4, 8) =~= u32_bytes(1));
    lemma_read_u32_bytes(d, 4, 1);
    assert(d.subrange(8, 8 + 8 + inner.len() as int) =~= box_bytes(t, inner));
    lemma_box_reads_back(d, 8, t, inner);
}

/// The body of a built stsd box parses back to the configuration written,
/// for every codec MP4 can carry, provided the sample entry fits a 32-bit box
/// size and (for audio) the sample rate fits the integer half of the 16.16
/// field.
/// The stsd body around a visual sample entry reads back as that entry.
#[verifier::rlimit(50)]
proof fn lemma_stsd_visual(t: Seq<u8>, kind: EntryKind, cfg_t: Seq<u8>, w: u16, h: u16, cfg: Seq<u8>, cs: Option<ColorSpace>)
    requires
        t.len() == 4,
        entry_kind(t) == kind,
        kind is Avc || kind is Hevc || kind is Av1,
        cfg_t == (match kind {
            EntryKind::Avc => crate::mp4::boxes::stsd::avcc_tag(),
            EntryKind::Hevc => crate::mp4::boxes::stsd::hvcc_tag(),
            _ => crate::mp4::boxes::stsd::av1c_tag(),
        }),
        box_bytes(t, visual_entry_head(w, h) + visual_sub_boxes(cfg_t, cfg, cs)).len() <= u32::MAX,
    ensures
        stsd_outcome(zeros(4) + u32_bytes(1) + box_bytes(t, visual_entry_head(w, h) + visual_sub_boxes(cfg_t, cfg, cs)))
            == StsdOutcome::Parsed(match kind {
                EntryKind::Avc => ConfigView::Avc1 { width: w, height: h, avcc: cfg, color_space: cs },
                EntryKind::Hevc => ConfigView::Hev1 { width: w, height: h, hvcc: cfg, color_space: cs },
                _ => ConfigView::Av1 { width: w, height: h, av1c: cfg, color_space: cs },
            }),
{
    reveal(stsd_outcome);
    let inner = visual_entry_head(w, h) + visual_sub_boxes(cfg_t, cfg, cs);
    lemma_stsd_entry(t, inner);
    lemma_visual_round_trip(kind, cfg_t, w, h, cfg, cs);
}

proof fn lemma_mp4a_kind()
    ensures
        entry_kind(crate::mp4::boxes::stsd::mp4a_tag()) == EntryKind::Mp4a,
{
    let t = crate::mp4::boxes::stsd::mp4a_tag();
    assert(t[0] != crate::mp4::boxes::stsd::avc1_tag()[0]);
    assert(t[0] != crate::mp4::boxes::stsd::avc3_tag()[0]);
    assert(t[0] != crate::mp4::boxes::stsd::hev1_tag()[0]);
    assert(t[0] != crate::mp4::boxes::stsd::hvc1_tag()[0]);
    assert(t[0] != crate::mp4::boxes::stsd::av01_tag()[0]);
}

/// The stsd body around an mp4a sample entry reads back as that entry.
#[verifier::rlimit(100)]
proof fn lemma_stsd_audio(sample_rate: u32, channel_count: u16, esds: Seq<u8>)
    requires
        sample_rate <= 0xFFFF,
        audio_entry(sample_rate, channel_count, esds).len() <= u32::MAX,
    ensures
        stsd_outcome(zeros(4) + u32_bytes(1) + audio_entry(sample_rate, channel_count, esds))
            == StsdOutcome::Parsed(ConfigView::Mp4a { sample_rate, channel_count, esds }),
{
    let t = crate::mp4::boxes::stsd::mp4a_tag();
    let et = crate::mp4::boxes::stsd::esds_tag();
    let esds_part: Seq<u8> = if esds.len() > 0 { box_bytes(et, esds) } else { seq![] };
    let inner = audio_entry_head(sample_rate, channel_count) + esds_part;
    assert(audio_entry(sample_rate, channel_count, esds) == box_bytes(t, inner));
    lemma_stsd_entry(t, inner);
    lemma_mp4a_kind();
    lemma_audio_round_trip(sample_rate, channel_count, esds);
    reveal(stsd_outcome);
}

/// The body of a built stsd box parses back to the configuration written,
/// for every codec MP4 can carry, provided the sample entry fits a 32-bit box
/// size and (for audio) the sample rate fits the integer half of the 16.16
/// field.
#[verifier::rlimit(100)]
pub proof fn lemma_stsd_round_trip(c: CodecConfig)
    requires
        !(c is Unknown),
        sample_entry(c).len() <= u32::MAX,
        c matches CodecConfig::Mp4a { sample_rate, .. } ==> sample_rate <= 0xFFFF,
    ensures
        stsd_outcome(zeros(4) + u32_bytes(1) + sample_entry(c)) == StsdOutcome::Parsed(c@),
{
    match c {
        CodecConfig::Avc1 { width, height, avcc, color_space } => {
            let t = crate::mp4::boxes::stsd::avc1_tag();
            assert(entry_kind(t) == EntryKind::Avc);
            lemma_stsd_visual(t, EntryKind::Avc, crate::mp4::boxes::stsd::avcc_tag(), width, height, avcc@, color_space);
        },
        CodecConfig::Hev1 { width, height, hvcc, color_space } => {
            let t = crate::mp4::boxes::stsd::hev1_tag();
            assert(t[0] != crate::mp4::boxes::stsd::avc1_tag()[0]);
            assert(t[0] != crate::mp4::boxes::stsd::avc3_tag()[0]);
            assert(entry_kind(t) == EntryKind::Hevc);
            lemma_stsd_visual(t, EntryKind::Hevc, crate::mp4::boxes::stsd::hvcc_tag(), width, height, hvcc@, color_space);
        },
        CodecConfig::Av1 { width, height, av1c, color_space } => {
            let t = crate::mp4::boxes::stsd::av01_tag();
            assert(t[2] != crate::mp4::boxes::stsd::avc1_tag()[2]);
            assert(t[2] != crate::mp4::boxes::stsd::avc3_tag()[2]);
            assert(t[0] != crate::mp4::boxes::stsd::hev1_tag()[0]);
            assert(t[0] != crate::mp4::boxes::stsd::hvc1_tag()[0]);
            assert(entry_kind(t) == EntryKind::Av1);
            lemma_stsd_visual(t, EntryKind::Av1, crate::mp4::boxes::stsd::av1c_tag(), width, height, av1c@, color_space);
        },
        CodecConfig::Mp4a { sample_rate, channel_count, esds } => {
            lemma_stsd_audio(sample_rate, channel_count, esds@);
        },
        CodecConfig::Unknown(_) => {},
    }
}

/// An mp4a sample entry body reads back as the rate, channel count and esds
/// written, whenever the rate fits the integer half of the 16.16 field.
#[verifier::rlimit(50)]
proof fn lemma_audio_round_trip(sample_rate: u32, channel_count: u16, esds: Seq<u8>)
    requires
        sample_rate <= 0xFFFF,
        8 + esds.len() <= u32::MAX,
    ensures
        audio_outcome(audio_entry_head(sample_rate, channel_count) + (if esds.len() > 0 {
            box_bytes(crate::mp4::boxes::stsd::esds_tag(), esds)
        } else {
            seq![]
        })) == StsdOutcome::Parsed(ConfigView::Mp4a { sample_rate, channel_count, esds }),
{
    let et = crate::mp4::boxes::stsd::esds_tag();
    let esds_part: Seq<u8> = if esds.len() > 0 { box_bytes(et, esds) } else { seq![] };
    let inner = audio_entry_head(sample_rate, channel_count) + esds_part;
    assert(inner.subrange(16, 18) =~= u16_bytes(channel_count));
    assert(inner.subrange(24, 28) =~= u32_bytes(sample_rate << 16u32));
    lemma_read_u16_bytes(inner, 16, channel_count);
    lemma_read_u32_bytes(inner, 24, sample_rate << 16u32);
    assert((sample_rate << 16u32) >> 16u32 == sample_rate) by (bit_vector) requires sample_rate <= 0xFFFF;
    let sub = inner.subrange(28, inner.len() as int);
    assert(sub =~= esds_part);
    if esds.len() > 0 {
        lemma_search_single(sub, et, esds, et);
        assert(found_body(sub, et) =~= esds);
    } else {
        assert(sub.len() == 0);
        assert(found_body(sub, et) =~= esds);
    }
}

/// Appends a box header for a body of `body_len` bytes and type `t`.
fn push_box_header(out: &mut Vec<u8>, t: &[u8; 4], body_len: usize)
    ensures
        final(out)@ == old(out)@ + u32_bytes((8 + body_len) as u32) + t@,
{
    let wide: u64 = (body_len as u32) as u64 + 8;
    let size = wide as u32;
    assert(size == (8 + body_len) as u32) by (bit_vector)
        requires
            wide == ((body_len as u32) as u64) + 8,
            size == wide as u32,
    ;
    push_u32(out, size);
    out.push(t[0]);
    out.push(t[1]);
    out.push(t[2]);
    out.push(t[3]);
    assert(final(out)@ =~= old(out)@ + u32_bytes((8 + body_len) as u32) + t@);
}

/// Wraps `body` in a standard ISO BMFF box with the given four-character code.
pub fn make_box(fourcc: &[u8; 4], body: &[u8]) -> (r: Vec<u8>)
    ensures
        r@ == box_bytes(fourcc@, body@),
{
    let mut buf: Vec<u8> = Vec::new();
    push_box_header(&mut buf, fourcc, body.len());
    push_slice(&mut buf, body);
    assert(buf@ =~= box_bytes(fourcc@, body@));
    buf
}

/// Wraps `body` in a full box (the body already starts with version and flags).
pub fn make_full_box(fourcc: &[u8; 4], body: &[u8]) -> (r: Vec<u8>)
    ensures
        r@ == box_bytes(fourcc@, body@),
{
    make_box(fourcc, body)
}

fn push_unity_matrix(out: &mut Vec<u8>)
    ensures
        final(out)@ == old(out)@ + unity_matrix(),
{
    let ghost start = out@;
    push_u32(out, 0x0001_0000);
    push_u32(out, 0);
    push_u32(out, 0);
    push_u32(out, 0);
    push_u32(out, 0x0001_0000);
    push_u32(out, 0);
    push_u32(out, 0);
    push_u32(out, 0);
    push_u32(out, 0x4000_0000);
    assert(out@ =~= start + unity_matrix());
}

/// Builds an `mvhd` (Movie Header) box.
pub fn build_mvhd(timescale: u32, duration: u32) -> (r: Vec<u8>)
    ensures
        r@ == box_bytes(mvhd_tag(), mvhd_body(timescale, duration)),
{
    let mut body: Vec<u8> = Vec::new();
    push_repeat(&mut body, 0, 4);
    push_u32(&mut body, 0);
    push_u32(&mut body, 0);
    push_u32(&mut body, timescale);
    push_u32(&mut body, duration);
    push_u32(&mut body, 0x0001_0000);
    push_u16(&mut body, 0x0100);
    push_repeat(&mut body, 0, 10);
    push_unity_matrix(&mut body);
    push_repeat(&mut body, 0, 24);
    push_u32(&mut body, 0xFFFF_FFFF);
    assert(body@ =~= mvhd_body(timescale, duration));
    let t: [u8; 4] = [0x6d, 0x76, 0x68, 0x64];
    assert(t@ =~= mvhd_tag());
    make_full_box(&t, body.as_slice())
}

/// Builds a `tkhd` (Track Header) box (flags: enabled and in movie).
pub fn build_tkhd(track_id: u32, duration: u32, width: u32, height: u32) -> (r: Vec<u8>)
    ensures
        r@ == box_bytes(tkhd_tag(), tkhd_body(track_id, duration, width, height)),
{
    let mut body: Vec<u8> = Vec::new();
    body.push(0);
    body.push(0);
    body.push(0);
    body.push(3);
    push_u32(&mut body, 0);
    push_u32(&mut body, 0);
    push_u32(&mut body, track_id);
    push_u32(&mut body, 0);
    push_u32(&mut body, duration);
    push_repeat(&mut body, 0, 8);
    push_u16(&mut body, 0);
    push_u16(&mut body, 0);
    push_u16(&mut body, 0);
    push_repeat(&mut body, 0, 2);
    push_unity_matrix(&mut body);
    push_u32(&mut body, width << 16u32);
    push_u32(&mut body, height << 16u32);
    assert(body@ =~= tkhd_body(track_id, duration, width, height));
    let t: [u8; 4] = [0x74, 0x6b, 0x68, 0x64];
    assert(t@ =~= tkhd_tag());
    make_full_box(&t, body.as_slice())
}

/// Builds an `mdhd` (Media Header) box with an undetermined language.
pub fn build_mdhd(timescale: u32, duration: u32) -> (r: Vec<u8>)
    ensures
        r@ == box_bytes(mdhd_tag(), mdhd_body(timescale, duration)),
{
    let mut body: Vec<u8> = Vec::new();
    push_repeat(&mut body, 0, 4);
    push_u32(&mut body, 0);
    push_u32(&mut body, 0);
    push_u32(&mut body, timescale);
    push_u32(&mut body, duration);
    push_u16(&mut body, 0x55C4);
    push_u16(&mut body, 0);
    assert(body@ =~= mdhd_body(timescale, duration));
    let t: [u8; 4] = [0x6d, 0x64, 0x68, 0x64];
    assert(t@ =~= mdhd_tag());
    make_full_box(&t, body.as_slice())
}

/// Builds an `hdlr` (Handler Reference) box with an empty name.
pub fn build_hdlr(handler_type: &HandlerType) -> (r: Vec<u8>)
    ensures
        r@ == box_bytes(hdlr_tag(), hdlr_body(*handler_type)),
{
    let mut body: Vec<u8> = Vec::new();
    push_repeat(&mut body, 0, 4);
    push_u32(&mut body, 0);
    let h = handler_type.as_bytes();
    body.push(h[0]);
    body.push(h[1]);
    body.push(h[2]);
    body.push(h[3]);
    push_repeat(&mut body, 0, 12);
    body.push(0);
    assert(body@ =~= hdlr_body(*handler_type));
    let t: [u8; 4] = [0x68, 0x64, 0x6c, 0x72];
    assert(t@ =~= hdlr_tag());
    make_full_box(&t, body.as_slice())
}

/// Builds a `vmhd` (Video Media Header) box.
pub fn build_vmhd() -> (r: Vec<u8>)
    ensures
        r@ == vmhd_box(),
{
    let mut body: Vec<u8> = Vec::new();
    body.push(0);
    body.push(0);
    body.push(0);
    body.push(1);
    push_u16(&mut body, 0);
    push_repeat(&mut body, 0, 6);
    assert(body@ =~= seq![0u8, 0u8, 0u8, 1u8] + u16_bytes(0) + zeros(6));
    let t: [u8; 4] = [0x76, 0x6d, 0x68, 0x64];
    assert(t@ =~= vmhd_tag());
    make_full_box(&t, body.as_slice())
}

/// Builds an `smhd` (Sound Media Header) box.
pub fn build_smhd() -> (r: Vec<u8>)
    ensures
        r@ == smhd_box(),
{
    let mut body: Vec<u8> = Vec::new();
    push_repeat(&mut body, 0, 4);
    push_u16(&mut body, 0);
    push_u16(&mut body, 0);
    assert(body@ =~= zeros(4) + u16_bytes(0) + u16_bytes(0));
    let t: [u8; 4] = [0x73, 0x6d, 0x68, 0x64];
    assert(t@ =~= smhd_tag());
    make_full_box(&t, body.as_slice())
}

/// Builds an `nmhd` (Null Media Header) box for subtitle/text tracks.
pub fn build_nmhd() -> (r: Vec<u8>)
    ensures
        r@ == nmhd_box(),
{
    let mut body: Vec<u8> = Vec::new();
    push_repeat(&mut body, 0, 4);
    let t: [u8; 4] = [0x6e, 0x6d, 0x68, 0x64];
    assert(t@ =~= nmhd_tag());
    make_full_box(&t, body.as_slice())
}

/// Builds a `dinf` (Data Information) box containing a self-contained `dref`.
pub fn build_dinf() -> (r: Vec<u8>)
    ensures
        r@ == dinf_box(),
{
    let mut url_body: Vec<u8> = Vec::new();
    url_body.push(0);
    url_body.push(0);
    url_body.push(0);
    url_body.push(1);
    let tu: [u8; 4] = [0x75, 0x72, 0x6c, 0x20];
    assert(tu@ =~= url_tag());
    assert(url_body@ =~= seq![0u8, 0u8, 0u8, 1u8]);
    let url_box = make_full_box(&tu, url_body.as_slice());
    let mut dref_body: Vec<u8> = Vec::new();
    push_repeat(&mut dref_body, 0, 4);
    push_u32(&mut dref_body, 1);
    push_slice(&mut dref_body, url_box.as_slice());
    let td: [u8; 4] = [0x64, 0x72, 0x65, 0x66];
    assert(td@ =~= dref_tag());
    assert(dref_body@ =~= zeros(4) + u32_bytes(1) + box_bytes(url_tag(), seq![0u8, 0u8, 0u8, 1u8]));
    let dref = make_full_box(&td, dref_body.as_slice());
    let ti: [u8; 4] = [0x64, 0x69, 0x6e, 0x66];
    assert(ti@ =~= dinf_tag());
    make_box(&ti, dref.as_slice())
}

/// Builds a `colr` box with the nclx (ISO 23001-8) colour type.
pub fn build_colr_nclx(cs: &ColorSpace) -> (r: Vec<u8>)
    ensures
        r@ == box_bytes(crate::mp4::boxes::stsd::colr_tag(), colr_body(*cs)),
{
    let primaries: u16 = match cs.primaries {
        ColorPrimaries::Bt709 => 1,
        ColorPrimaries::Bt2020 => 9,
        ColorPrimaries::Smpte432 => 12,
    };
    let transfer: u16 = match cs.transfer {
        TransferCharacteristics::Bt709 => 1,
        TransferCharacteristics::Smpte2084 => 16,
        TransferCharacteristics::HybridLogGamma => 18,
    };
    let matrix: u16 = match cs.matrix {
        MatrixCoefficients::Identity => 0,
        MatrixCoefficients::Bt709 => 1,
        MatrixCoefficients::Bt2020NonConstant => 9,
        MatrixCoefficients::Bt2020Constant => 10,
    };
    let full_range: u8 = match cs.range {
        ColorRange::Full => 0x80,
        ColorRange::Limited => 0x00,
    };
    let mut body: Vec<u8> = Vec::new();
    body.push(0x6e);
    body.push(0x63);
    body.push(0x6c);
    body.push(0x78);
    push_u16(&mut body, primaries);
    push_u16(&mut body, transfer);
    push_u16(&mut body, matrix);
    body.push(full_range);
    assert(body@ =~= colr_body(*cs));
    let t: [u8; 4] = [0x63, 0x6f, 0x6c, 0x72];
    assert(t@ =~= crate::mp4::boxes::stsd::colr_tag());
    make_box(&t, body.as_slice())
}

/// Builds a visual sample entry box (avc1, hev1, av01, etc.). The codec
/// configuration box is left out when `config_data` is empty.
pub fn build_visual_sample_entry(
    fourcc: &[u8; 4],
    width: u16,
    height: u16,
    config_fourcc: &[u8; 4],
    config_data: &[u8],
    color_space: Option<&ColorSpace>,
) -> (r: Vec<u8>)
    ensures
        r@ == visual_entry(fourcc@, width, height, config_fourcc@, config_data@, match color_space {
            Some(c) => Some(*c),
            None => None,
        }),
{
    let mut entry: Vec<u8> = Vec::new();
    push_repeat(&mut entry, 0, 6);
    push_u16(&mut entry, 1);
    push_repeat(&mut entry, 0, 16);
    push_u16(&mut entry, width);
    push_u16(&mut entry, height);
    push_u32(&mut entry, 0x0048_0000);
    push_u32(&mut entry, 0x0048_0000);
    push_u32(&mut entry, 0);
    push_u16(&mut entry, 1);
    push_repeat(&mut entry, 0, 32);
    push_u16(&mut entry, 0x0018);
    push_u16(&mut entry, 0xFFFF);
    assert(entry@ =~= visual_entry_head(width, height));
    let ghost head = entry@;
    if config_data.len() > 0 {
        let config_box = make_box(config_fourcc, config_data);
        push_slice(&mut entry, config_box.as_slice());
    }
    let ghost with_cfg = entry@;
    match color_space {
        Some(cs) => {
            let colr = build_colr_nclx(cs);
            push_slice(&mut entry, colr.as_slice());
        },
        None => {},
    }
    assert(entry@ =~= head + visual_sub_boxes(config_fourcc@, config_data@, match color_space {
        Some(c) => Some(*c),
        None => None,
    }));
    make_box(fourcc, entry.as_slice())
}

/// Builds an audio sample entry box (mp4a). The `esds` box is left out when
/// `esds` is empty.
pub fn build_audio_sample_entry(sample_rate: u32, channel_count: u16, esds: &[u8]) -> (r: Vec<u8>)
    ensures
        r@ == audio_entry(sample_rate, channel_count, esds@),
{
    let mut entry: Vec<u8> = Vec::new();
    push_repeat(&mut entry, 0, 6);
    push_u16(&mut entry, 1);
    push_repeat(&mut entry, 0, 8);
    push_u16(&mut entry, channel_count);
    push_u16(&mut entry, 16);
    push_u16(&mut entry, 0);
    push_u16(&mut entry, 0);
    push_u32(&mut entry, sample_rate << 16u32);
    assert(entry@ =~= audio_entry_head(sample_rate, channel_count));
    let ghost head = entry@;
    if esds.len() > 0 {
        let t: [u8; 4] = [0x65, 0x73, 0x64, 0x73];
        assert(t@ =~= crate::mp4::boxes::stsd::esds_tag());
        let esds_box = make_full_box(&t, esds);
        push_slice(&mut entry, esds_box.as_slice());
    }
    assert(entry@ =~= head + (if esds@.len() > 0 {
        box_bytes(crate::mp4::boxes::stsd::esds_tag(), esds@)
    } else {
        seq![]
    }));
    let t: [u8; 4] = [0x6d, 0x70, 0x34, 0x61];
    assert(t@ =~= crate::mp4::boxes::stsd::mp4a_tag());
    make_box(&t, entry.as_slice())
}

/// Builds an `stsd` (Sample Description) box holding one sample entry for
/// `config`. An unknown codec cannot be written to MP4.
pub fn build_stsd(config: &CodecConfig) -> (r: Result<Vec<u8>, MuxError>)
    ensures
        match config {
            CodecConfig::Unknown(name) => r matches Err(MuxError::IncompatibleCodec { codec, container })
                && codec@ == name@ && container@ == "mp4"@,
            _ => r matches Ok(v) && v@ == box_bytes(stsd_tag(), zeros(4) + u32_bytes(1) + sample_entry(*config)),
        },
{
    let mut body: Vec<u8> = Vec::new();
    push_repeat(&mut body, 0, 4);
    push_u32(&mut body, 1);
    let ghost head = body@;
    match config {
        CodecConfig::Avc1 { width, height, avcc, color_space } => {
            let t: [u8; 4] = [0x61, 0x76, 0x63, 0x31];
            let c: [u8; 4] = [0x61, 0x76, 0x63, 0x43];
            assert(t@ =~= crate::mp4::boxes::stsd::avc1_tag());
            assert(c@ =~= crate::mp4::boxes::stsd::avcc_tag());
            let cs = match color_space {
                Some(x) => Some(x),
                None => None,
            };
            let entry = build_visual_sample_entry(&t, *width, *height, &c, avcc.as_slice(), cs);
            push_slice(&mut body, entry.as_slice());
        },
        CodecConfig::Hev1 { width, height, hvcc, color_space } => {
            let t: [u8; 4] = [0x68, 0x65, 0x76, 0x31];
            let c: [u8; 4] = [0x68, 0x76, 0x63, 0x43];
            assert(t@ =~= crate::mp4::boxes::stsd::hev1_tag());
            assert(c@ =~= crate::mp4::boxes::stsd::hvcc_tag());
            let cs = match color_space {
                Some(x) => Some(x),
                None => None,
            };
            let entry = build_visual_sample_entry(&t, *width, *height, &c, hvcc.as_slice(), cs);
            push_slice(&mut body, entry.as_slice());
        },
        CodecConfig::Av1 { width, height, av1c, color_space } => {
            let t: [u8; 4] = [0x61, 0x76, 0x30, 0x31];
            let c: [u8; 4] = [0x61, 0x76, 0x31, 0x43];
            assert(t@ =~= crate::mp4::boxes::stsd::av01_tag());
            assert(c@ =~= crate::mp4::boxes::stsd::av1c_tag());
            let cs = match color_space {
                Some(x) => Some(x),
                None => None,
            };
            let entry = build_visual_sample_entry(&t, *width, *height, &c, av1c.as_slice(), cs);
            push_slice(&mut body, entry.as_slice());
        },
        CodecConfig::Mp4a { sample_rate, channel_count, esds } => {
            let entry = build_audio_sample_entry(*sample_rate, *channel_count, esds.as_slice());
            push_slice(&mut body, entry.as_slice());
        },
        CodecConfig::Unknown(name) => {
            let mut container = String::new();
            push_text(&mut container, "mp4");
            let mut codec = String::new();
            push_text(&mut codec, name.as_str());
            return Err(MuxError::IncompatibleCodec { codec, container });
        },
    }
    let t: [u8; 4] = [0x73, 0x74, 0x73, 0x64];
    assert(t@ =~= stsd_tag());
    Ok(make_full_box(&t, body.as_slice()))
}

} // verus!
