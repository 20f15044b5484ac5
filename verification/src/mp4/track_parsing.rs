//! Parses a `trak` box body into an `Mp4Track`, resolving the track header,
//! media header, handler and sample table sub-boxes.

use vstd::prelude::*;
use crate::mp4::boxes::{box_at, box_step, box_total, find_box, require_box, search_box, step_error, BoxStep, FourCC, Search};
use crate::mp4::boxes::{ctts, hdlr, mdhd, mvhd, stco, stsc, stsd, stss, stsz, stts, tkhd};
use crate::mp4::boxes::hdlr::HandlerType;
use crate::mp4::boxes::stsd::{found_body, stsd_outcome, StsdOutcome};
use crate::mp4::boxes::ctts::ctts_table;
use crate::mp4::boxes::stsc::stsc_table;
use crate::mp4::boxes::stts::stts_table;
use crate::mp4::error::Mp4Error;
use crate::mp4::mux_sample_table::{co64_tag, ctts_tag, stsc_tag, stss_tag, stsz_tag, stts_tag};
use crate::mp4::sample_table::{
    build_sample_table, ctts_expand, entries_match, layout, layout_fits, sample_table_fits, sizes_of, stts_dts, stts_total,
    SampleEntry,
};
use crate::mp4::track::Mp4Track;
use crate::text::{dec, push_text};
use crate::wire::{seq_be32, seq_be64};

verus! {

/// A box found by a search lies within the data, at or after where the
/// search started.
pub proof fn lemma_search_found(s: Seq<u8>, q: int, t: Seq<u8>)
    requires
        0 <= q,
    ensures
        search_box(s, q, t) matches Search::Found(p) ==> q <= p && box_step(s, p) == BoxStep::Whole
            && p + box_total(s, p) <= s.len() && s.subrange(p + 4, p + 8) == t,
    decreases s.len() - q,
{
    if 0 <= q <= s.len() && box_step(s, q) == BoxStep::Whole && s.subrange(q + 4, q + 8) != t {
        lemma_search_found(s, q + box_total(s, q), t);
    }
}

/// A whole box at `p` lies within the data.
pub proof fn lemma_box_in_data(s: Seq<u8>, p: int)
    requires
        0 <= p,
        box_step(s, p) == BoxStep::Whole,
    ensures
        p + box_total(s, p) <= s.len(),
        8 <= crate::mp4::boxes::header_len(s, p) <= box_total(s, p),
{
}

/// The track id in a tkhd body.
pub open spec fn tkhd_track_id(b: Seq<u8>) -> u32 {
    if b[0] == 0 { seq_be32(b, 12) } else { seq_be32(b, 20) }
}

/// The duration in a tkhd body.
pub open spec fn tkhd_duration(b: Seq<u8>) -> u64 {
    if b[0] == 0 { seq_be32(b, 20) as u64 } else { seq_be64(b, 28) }
}

/// The width in a tkhd body (integer part of the 16.16 field).
pub open spec fn tkhd_width(b: Seq<u8>) -> u32 {
    if b[0] == 0 { seq_be32(b, 76) >> 16u32 } else { seq_be32(b, 88) >> 16u32 }
}

/// The height in a tkhd body (integer part of the 16.16 field).
pub open spec fn tkhd_height(b: Seq<u8>) -> u32 {
    if b[0] == 0 { seq_be32(b, 80) >> 16u32 } else { seq_be32(b, 92) >> 16u32 }
}

/// The timescale in an mdhd body.
pub open spec fn mdhd_timescale(b: Seq<u8>) -> u32 {
    if b[0] == 0 { seq_be32(b, 12) } else { seq_be32(b, 20) }
}

/// The duration in an mdhd body.
pub open spec fn mdhd_duration(b: Seq<u8>) -> u64 {
    if b[0] == 0 { seq_be32(b, 16) as u64 } else { seq_be64(b, 24) }
}

pub open spec fn tkhd_tag() -> Seq<u8> { seq![0x74u8, 0x6bu8, 0x68u8, 0x64u8] }
pub open spec fn mdia_tag() -> Seq<u8> { seq![0x6du8, 0x64u8, 0x69u8, 0x61u8] }
pub open spec fn mdhd_tag() -> Seq<u8> { seq![0x6du8, 0x64u8, 0x68u8, 0x64u8] }
pub open spec fn hdlr_tag() -> Seq<u8> { seq![0x68u8, 0x64u8, 0x6cu8, 0x72u8] }
pub open spec fn minf_tag() -> Seq<u8> { seq![0x6du8, 0x69u8, 0x6eu8, 0x66u8] }
pub open spec fn stbl_tag() -> Seq<u8> { seq![0x73u8, 0x74u8, 0x62u8, 0x6cu8] }

pub open spec fn stco_tag() -> Seq<u8> { seq![0x73u8, 0x74u8, 0x63u8, 0x6fu8] }

/// The per-sample sizes an stsz payload gives: its default size for each
/// sample when that is non-zero, else the listed sizes.
pub open spec fn stsz_sizes(b: Seq<u8>) -> Seq<u32> {
    if seq_be32(b, 4) > 0 {
        Seq::new(seq_be32(b, 8) as nat, |_i: int| seq_be32(b, 4))
    } else {
        Seq::new(seq_be32(b, 8) as nat, |i: int| seq_be32(b, 12 + 4 * i))
    }
}

/// The chunk offsets of a sample table: from its stco box when it has one,
/// else from its co64 box.
pub open spec fn chunk_table(stbl: Seq<u8>) -> Seq<u64> {
    match search_box(stbl, 0, stco_tag()) {
        Search::Found(_) => {
            let b = found_body(stbl, stco_tag());
            Seq::new(seq_be32(b, 4) as nat, |i: int| seq_be32(b, 8 + 4 * i) as u64)
        },
        _ => {
            let b = found_body(stbl, co64_tag());
            Seq::new(seq_be32(b, 4) as nat, |i: int| seq_be64(b, 8 + 8 * i))
        },
    }
}

/// The composition offsets of a sample table: none without a ctts box.
pub open spec fn table_cts(stbl: Seq<u8>) -> Seq<i32> {
    match search_box(stbl, 0, ctts_tag()) {
        Search::Found(_) => ctts_expand(ctts_table(found_body(stbl, ctts_tag()))),
        _ => seq![],
    }
}

/// The sync sample numbers of a sample table: `None` without an stss box.
pub open spec fn table_sync(stbl: Seq<u8>) -> Option<Seq<u32>> {
    match search_box(stbl, 0, stss_tag()) {
        Search::Found(_) => {
            let b = found_body(stbl, stss_tag());
            Some(Seq::new(seq_be32(b, 4) as nat, |i: int| seq_be32(b, 8 + 4 * i)))
        },
        _ => None,
    }
}

/// The sample entries a sample table's boxes resolve to.
pub open spec fn table_entries_match(entries: Seq<SampleEntry>, stbl: Seq<u8>) -> bool {
    let sc = found_body(stbl, stsc_tag());
    let sz = found_body(stbl, stsz_tag());
    entries_match(
        entries,
        layout(stsc_table(sc), chunk_table(stbl), stsz_sizes(sz), seq_be32(sz, 8) as int, chunk_table(stbl).len() as int)->Some_0,
        stsz_sizes(sz),
        stts_dts(stts_table(found_body(stbl, stts_tag()))),
        table_cts(stbl),
        table_sync(stbl),
    )
}

/// The track duration in media ticks: the mdhd duration when non-zero, else
/// the tkhd duration rescaled from the movie timescale, else zero.
pub open spec fn track_duration(mdhd_duration: u64, timescale: u32, tkhd_duration: u64, movie_timescale: u32) -> int {
    if mdhd_duration > 0 {
        mdhd_duration as int
    } else if tkhd_duration > 0 && movie_timescale > 0 {
        tkhd_duration * timescale / (movie_timescale as int)
    } else {
        0
    }
}

/// What `parse_track` reads from a trak body, given the movie timescale:
/// the track header's id and dimensions, the media header's timescale and
/// duration (or the track header's, converted), the handler, the sample
/// description, and the sample entries the sample table resolves to.
#[verifier::opaque]
pub open spec fn track_read(t: Mp4Track, trak_body: Seq<u8>, movie_timescale: u32) -> bool {
    let tk = found_body(trak_body, tkhd_tag());
    let mdia = found_body(trak_body, mdia_tag());
    let mh = found_body(mdia, mdhd_tag());
    let hd = found_body(mdia, hdlr_tag());
    let stbl = found_body(found_body(mdia, minf_tag()), stbl_tag());
    let sd = found_body(stbl, crate::mp4::box_builders::stsd_tag());
    &&& t.track_id == tkhd_track_id(tk)
    &&& t.width == tkhd_width(tk)
    &&& t.height == tkhd_height(tk)
    &&& t.timescale == mdhd_timescale(mh)
    &&& t.duration == track_duration(mdhd_duration(mh), mdhd_timescale(mh), tkhd_duration(tk),
        movie_timescale)
    &&& t.handler_type == HandlerType::spec_from_bytes(hd.subrange(8, 12))
    &&& stsd_outcome(sd) == StsdOutcome::Parsed(t.codec_config@)
    &&& t.sample_table.timescale == t.timescale
    &&& t.sample_table.entries@.len() <= u32::MAX
    &&& table_entries_match(t.sample_table.entries@, stbl)
}

/// Whether a box of type `t` is among the sibling boxes `s`.
pub open spec fn has_box(s: Seq<u8>, t: Seq<u8>) -> bool {
    search_box(s, 0, t) is Found
}

/// Whether a full box body of version 0 or 1 is long enough for its version.
pub open spec fn version_fits(b: Seq<u8>, v0_len: int, v1_len: int) -> bool {
    b.len() >= 4 && ((b[0] == 0 && b.len() >= v0_len) || (b[0] == 1 && b.len() >= v1_len))
}

/// Whether an optional table box of type `t` is absent, or present with a
/// complete table of `width`-byte entries.
pub open spec fn optional_table_ok(s: Seq<u8>, t: Seq<u8>, width: int) -> bool {
    match search_box(s, 0, t) {
        Search::Found(_) => stts::table_fits(found_body(s, t), width),
        Search::NotFound => true,
        Search::Failed(_) => false,
    }
}

/// Whether an stsz payload holds its header and, without a default size,
/// one size per sample.
pub open spec fn stsz_complete(b: Seq<u8>) -> bool {
    b.len() >= 12 && (seq_be32(b, 4) == 0 ==> b.len() - 12 >= seq_be32(b, 8) * 4)
}

/// Whether a sample table has a complete stco box, or else a complete co64
/// box.
pub open spec fn chunk_offsets_ok(stbl: Seq<u8>) -> bool {
    match search_box(stbl, 0, stco_tag()) {
        Search::Found(_) => stts::table_fits(found_body(stbl, stco_tag()), 4),
        Search::NotFound => has_box(stbl, co64_tag()) && stts::table_fits(found_body(stbl, co64_tag()), 8),
        Search::Failed(_) => false,
    }
}

/// Whether the table boxes of a sample table (stts, stsc, stsz, stco or
/// co64, and the optional ctts and stss) are there and complete.
pub open spec fn tables_read_ok(stbl: Seq<u8>) -> bool {
    &&& has_box(stbl, stts_tag()) && stts::table_fits(found_body(stbl, stts_tag()), 8)
    &&& optional_table_ok(stbl, ctts_tag(), 8)
    &&& has_box(stbl, stsc_tag()) && stts::table_fits(found_body(stbl, stsc_tag()), 12)
    &&& has_box(stbl, stsz_tag()) && stsz_complete(found_body(stbl, stsz_tag()))
    &&& chunk_offsets_ok(stbl)
    &&& optional_table_ok(stbl, stss_tag(), 4)
}

/// The chunk layout of a sample table's samples (see `layout`).
pub open spec fn table_layout_of(stbl: Seq<u8>) -> Option<Seq<int>> {
    let sz = found_body(stbl, stsz_tag());
    let ch = chunk_table(stbl);
    layout(stsc_table(found_body(stbl, stsc_tag())), ch, stsz_sizes(sz), seq_be32(sz, 8) as int, ch.len() as int)
}

/// Whether a sample table's numbers fit: its decode times fit `i64`, it has
/// at most `u32::MAX` chunks, and every running byte offset fits `u64`.
pub open spec fn tables_fit(stbl: Seq<u8>) -> bool {
    let sz = found_body(stbl, stsz_tag());
    let ch = chunk_table(stbl);
    &&& stts_total(stts_table(found_body(stbl, stts_tag()))) <= i64::MAX
    &&& ch.len() <= u32::MAX
    &&& layout_fits(stsc_table(found_body(stbl, stsc_tag())), ch, stsz_sizes(sz), seq_be32(sz, 8) as int, ch.len() as int)
}

/// Whether the duration taken from the track header, in the media
/// timescale, overflows `u64`: when the media header gives none.
pub open spec fn duration_overflows(mh: Seq<u8>, tk: Seq<u8>, movie_timescale: u32) -> bool {
    mdhd_duration(mh) == 0 && tkhd_duration(tk) > 0 && movie_timescale > 0
        && tkhd_duration(tk) * mdhd_timescale(mh) > u64::MAX
}

/// Whether `parse_track` succeeds on a trak body, given the movie timescale:
/// every required box is there and parses, the sample table resolves, and
/// a duration converted from the track header fits `u64`.
pub open spec fn track_parses(tb: Seq<u8>, movie_timescale: u32) -> bool {
    let tk = found_body(tb, tkhd_tag());
    let mdia = found_body(tb, mdia_tag());
    let mh = found_body(mdia, mdhd_tag());
    let minf = found_body(mdia, minf_tag());
    let stbl = found_body(minf, stbl_tag());
    &&& has_box(tb, tkhd_tag()) && version_fits(tk, 84, 96)
    &&& has_box(tb, mdia_tag()) && has_box(mdia, mdhd_tag()) && version_fits(mh, 20, 32)
    &&& has_box(mdia, hdlr_tag()) && found_body(mdia, hdlr_tag()).len() >= 12
    &&& has_box(mdia, minf_tag()) && has_box(minf, stbl_tag())
    &&& has_box(stbl, crate::mp4::box_builders::stsd_tag())
    &&& stsd_outcome(found_body(stbl, crate::mp4::box_builders::stsd_tag())) is Parsed
    &&& tables_read_ok(stbl)
    &&& tables_fit(stbl)
    &&& table_layout_of(stbl) is Some
    &&& !duration_overflows(mh, tk, movie_timescale)
}

/// The error `parse_track` reports: that of the first step that fails, in
/// the order the trak body is read.
pub open spec fn track_error(e: Mp4Error, tb: Seq<u8>, base: u64, movie_timescale: u32) -> bool {
    let tk = found_body(tb, tkhd_tag());
    let mdia = found_body(tb, mdia_tag());
    let mh = found_body(mdia, mdhd_tag());
    let minf = found_body(mdia, minf_tag());
    let stbl = found_body(minf, stbl_tag());
    let sd = crate::mp4::box_builders::stsd_tag();
    if !has_box(tb, tkhd_tag()) {
        search_error(e, tb, tkhd_tag(), base, "tkhd")
    } else if !version_fits(tk, 84, 96) {
        version_error(e, tk, found_offset(tb, tkhd_tag(), base), "unsupported tkhd version "@)
    } else if !has_box(tb, mdia_tag()) {
        search_error(e, tb, mdia_tag(), base, "mdia")
    } else if !has_box(mdia, mdhd_tag()) {
        search_error(e, mdia, mdhd_tag(), base, "mdhd")
    } else if !version_fits(mh, 20, 32) {
        version_error(e, mh, found_offset(mdia, mdhd_tag(), base), "unsupported mdhd version "@)
    } else if !has_box(mdia, hdlr_tag()) {
        search_error(e, mdia, hdlr_tag(), base, "hdlr")
    } else if found_body(mdia, hdlr_tag()).len() < 12 {
        e matches Mp4Error::UnexpectedEof { offset: o } && o == found_offset(mdia, hdlr_tag(), base)
    } else if !has_box(mdia, minf_tag()) {
        search_error(e, mdia, minf_tag(), base, "minf")
    } else if !has_box(minf, stbl_tag()) {
        search_error(e, minf, stbl_tag(), base, "stbl")
    } else if !has_box(stbl, sd) {
        search_error(e, stbl, sd, base, "stsd")
    } else if !(stsd_outcome(found_body(stbl, sd)) is Parsed) {
        stsd::outcome_result(Err(e), stsd_outcome(found_body(stbl, sd)), found_offset(stbl, sd, base) as u64)
    } else if !tables_read_ok(stbl) {
        tables_error(e, stbl, base)
    } else if !tables_fit(stbl) {
        e matches Mp4Error::InvalidBox { offset, message } && offset == base
            && message@ == "sample table offsets or times overflow"@
    } else if table_layout_of(stbl) is None {
        e matches Mp4Error::InvalidBox { offset, message } && offset == 0 && message@ == "stsc has no entry for chunk"@
    } else {
        e matches Mp4Error::InvalidBox { offset, message } && offset == base && message@ == "track duration overflows"@
    }
}

/// The error `require_box` reports when the box of type `t` is not found
/// among the sibling boxes `s`: the box is missing, or the walk fails.
pub open spec fn search_error(e: Mp4Error, s: Seq<u8>, t: Seq<u8>, base: u64, name: &'static str) -> bool {
    match search_box(s, 0, t) {
        Search::NotFound => e matches Mp4Error::MissingBox { name: n } && n == name,
        Search::Failed(p) => step_error(e, s, p, base),
        Search::Found(_) => false,
    }
}


/// The offset reported for the box of type `t` found in `s`.
pub open spec fn found_offset(s: Seq<u8>, t: Seq<u8>, base: u64) -> int {
    base + search_box(s, 0, t)->Found_0
}

/// The error a version 0/1 full box parser reports: an unsupported version
/// (the message `prefix` and the version), or data that ends early.
pub open spec fn version_error(e: Mp4Error, b: Seq<u8>, offset: int, prefix: Seq<char>) -> bool {
    ||| b.len() >= 4 && b[0] > 1 && (e matches Mp4Error::InvalidBox { offset: o, message } && o == offset
        && message@ == prefix + dec(b[0] as nat))
    ||| (b.len() < 4 || b[0] <= 1) && (e matches Mp4Error::UnexpectedEof { offset: o } && o == offset)
}

/// The error reported for the table box of type `t` found in `s` when its
/// data ends early.
pub open spec fn table_eof(e: Mp4Error, s: Seq<u8>, t: Seq<u8>, base: u64) -> bool {
    e matches Mp4Error::UnexpectedEof { offset: o } && o == found_offset(s, t, base)
}

/// The error reported for an optional table box of type `t` in `s` that
/// is not reached, or is incomplete.
pub open spec fn optional_table_error(e: Mp4Error, s: Seq<u8>, t: Seq<u8>, base: u64) -> bool {
    match search_box(s, 0, t) {
        Search::Failed(p) => step_error(e, s, p, base),
        Search::Found(_) => table_eof(e, s, t, base),
        Search::NotFound => false,
    }
}

/// The error `read_sample_boxes` reports: that of the first table box that
/// is missing, not reached, or incomplete.
pub open spec fn tables_error(e: Mp4Error, stbl: Seq<u8>, base: u64) -> bool {
    if !has_box(stbl, stts_tag()) {
        search_error(e, stbl, stts_tag(), base, "stts")
    } else if !stts::table_fits(found_body(stbl, stts_tag()), 8) {
        table_eof(e, stbl, stts_tag(), base)
    } else if !optional_table_ok(stbl, ctts_tag(), 8) {
        optional_table_error(e, stbl, ctts_tag(), base)
    } else if !has_box(stbl, stsc_tag()) {
        search_error(e, stbl, stsc_tag(), base, "stsc")
    } else if !stts::table_fits(found_body(stbl, stsc_tag()), 12) {
        table_eof(e, stbl, stsc_tag(), base)
    } else if !has_box(stbl, stsz_tag()) {
        search_error(e, stbl, stsz_tag(), base, "stsz")
    } else if !stsz_complete(found_body(stbl, stsz_tag())) {
        table_eof(e, stbl, stsz_tag(), base)
    } else if !chunk_offsets_ok(stbl) {
        match search_box(stbl, 0, stco_tag()) {
            Search::Found(_) => table_eof(e, stbl, stco_tag(), base),
            Search::Failed(p) => step_error(e, stbl, p, base),
            Search::NotFound => match search_box(stbl, 0, co64_tag()) {
                Search::Found(_) => table_eof(e, stbl, co64_tag(), base),
                Search::Failed(p) => step_error(e, stbl, p, base),
                Search::NotFound => e matches Mp4Error::MissingBox { name } && name == "stco/co64",
            },
        }
    } else {
        optional_table_error(e, stbl, stss_tag(), base)
    }
}

/// The handler a trak body declares in its hdlr box.
pub open spec fn trak_handler(tb: Seq<u8>) -> HandlerType {
    HandlerType::spec_from_bytes(found_body(found_body(tb, mdia_tag()), hdlr_tag()).subrange(8, 12))
}

/// The errors `parse_track` reports are never about an unsupported codec.
pub proof fn lemma_track_error_not_codec(e: Mp4Error, tb: Seq<u8>, base: u64, movie_timescale: u32)
    requires
        track_error(e, tb, base, movie_timescale),
    ensures
        !(e is UnsupportedCodec),
{
}

/// The table boxes of a sample table, parsed.
struct SampleBoxes {
    stts: stts::TimeToSampleBox,
    ctts: Option<ctts::CompositionOffsetBox>,
    stsc: stsc::SampleToChunkBox,
    stsz: stsz::SampleSizeBox,
    chunks: stco::ChunkOffsetBox,
    stss: Option<stss::SyncSampleBox>,
}

/// Reads the table boxes of a sample table: stts, the optional ctts, stsc,
/// stsz, stco (or else co64) and the optional stss, in that order.
fn read_sample_boxes(stbl: &[u8], base_offset: u64) -> (r: Result<SampleBoxes, Mp4Error>)
    requires
        base_offset + stbl@.len() <= u64::MAX,
    ensures
        r is Ok <==> tables_read_ok(stbl@),
        r matches Err(e) ==> tables_error(e, stbl@, base_offset),
        r matches Ok(b) ==> {
            &&& b.stts.entries@ == stts_table(found_body(stbl@, stts_tag()))
            &&& b.stsc.entries@ == stsc_table(found_body(stbl@, stsc_tag()))
            &&& sizes_of(b.stsz) == stsz_sizes(found_body(stbl@, stsz_tag()))
            &&& b.stsz.sample_count == seq_be32(found_body(stbl@, stsz_tag()), 8)
            &&& b.chunks.offsets@ == chunk_table(stbl@)
            &&& crate::mp4::sample_table::cts_of(match b.ctts { Some(c) => Some(&c), None => None }) == table_cts(stbl@)
            &&& crate::mp4::sample_table::sync_of(match b.stss { Some(c) => Some(&c), None => None }) == table_sync(stbl@)
        },
{
    let stts_box = match require_box(stbl, FourCC::stts(), base_offset, "stts") {
        Ok(b) => b,
        Err(e) => return Err(e),
    };
    let time_to_sample = match stts::parse_stts(stts_box.body, stts_box.offset) {
        Ok(b) => b,
        Err(e) => return Err(e),
    };
    let composition_offset = match find_box(stbl, FourCC::ctts(), base_offset) {
        Ok(Some(b)) => match ctts::parse_ctts(b.body, b.offset) {
            Ok(c) => Some(c),
            Err(e) => return Err(e),
        },
        Ok(None) => None,
        Err(e) => return Err(e),
    };
    let stsc_box = match require_box(stbl, FourCC::stsc(), base_offset, "stsc") {
        Ok(b) => b,
        Err(e) => return Err(e),
    };
    let sample_to_chunk = match stsc::parse_stsc(stsc_box.body, stsc_box.offset) {
        Ok(b) => b,
        Err(e) => return Err(e),
    };
    let stsz_box = match require_box(stbl, FourCC::stsz(), base_offset, "stsz") {
        Ok(b) => b,
        Err(e) => return Err(e),
    };
    let sample_sizes = match stsz::parse_stsz(stsz_box.body, stsz_box.offset) {
        Ok(b) => b,
        Err(e) => return Err(e),
    };
    let chunk_offsets = match find_box(stbl, FourCC::stco(), base_offset) {
        Ok(Some(b)) => match stco::parse_stco(b.body, b.offset) {
            Ok(c) => c,
            Err(e) => return Err(e),
        },
        Ok(None) => match find_box(stbl, FourCC::co64(), base_offset) {
            Ok(Some(b)) => match stco::parse_co64(b.body, b.offset) {
                Ok(c) => c,
                Err(e) => return Err(e),
            },
            Ok(None) => return Err(Mp4Error::MissingBox { name: "stco/co64" }),
            Err(e) => return Err(e),
        },
        Err(e) => return Err(e),
    };
    let sync_samples = match find_box(stbl, FourCC::stss(), base_offset) {
        Ok(Some(b)) => match stss::parse_stss(b.body, b.offset) {
            Ok(s) => Some(s),
            Err(e) => return Err(e),
        },
        Ok(None) => None,
        Err(e) => return Err(e),
    };
    proof {
        let st = stbl@;
        assert(sizes_of(sample_sizes) =~= stsz_sizes(found_body(st, stsz_tag())));
        assert(chunk_offsets.offsets@ =~= chunk_table(st));
        match search_box(st, 0, stss_tag()) {
            Search::Found(_) => {
                assert(sync_samples->Some_0.sync_samples@ =~= table_sync(st)->Some_0);
            },
            _ => {},
        }
    }
    Ok(SampleBoxes {
        stts: time_to_sample,
        ctts: composition_offset,
        stsc: sample_to_chunk,
        stsz: sample_sizes,
        chunks: chunk_offsets,
        stss: sync_samples,
    })
}

/// Parses a single `trak` box body into an [`Mp4Track`].
///
/// Reads the required sub-boxes (tkhd, mdia, mdhd, hdlr, minf, stbl, stsd,
/// stts, stsc, stsz, stco or co64) and the optional ones (ctts, stss), and
/// builds the sample table. The movie header's timescale converts the track
/// header duration when the media header duration is zero. Sample tables
/// whose offsets or times would overflow, and durations that overflow `u64`,
/// are rejected as invalid boxes.
#[verifier::rlimit(80)]
pub fn parse_track(trak_body: &[u8], base_offset: u64, movie_header: &mvhd::MovieHeaderBox) -> (r: Result<
    Mp4Track,
    Mp4Error,
>)
    requires
        base_offset + trak_body@.len() <= u64::MAX,
    ensures
        r matches Ok(t) ==> track_read(t, trak_body@, movie_header.timescale),
        r matches Ok(t) ==> t.sample_table.entries@.len() <= u32::MAX,
        r is Ok <==> track_parses(trak_body@, movie_header.timescale),
        r matches Err(e) ==> track_error(e, trak_body@, base_offset, movie_header.timescale),
        r matches Ok(t) ==> t.handler_type == trak_handler(trak_body@),
{
    reveal(track_read);
    let tkhd_box = match require_box(trak_body, FourCC::tkhd(), base_offset, "tkhd") {
        Ok(b) => b,
        Err(e) => return Err(e),
    };
    proof {
        lemma_search_found(trak_body@, 0, tkhd_tag());
    }
    let track_header = match tkhd::parse_tkhd(tkhd_box.body, tkhd_box.offset) {
        Ok(h) => h,
        Err(e) => return Err(e),
    };
    let mdia_box = match require_box(trak_body, FourCC::mdia(), base_offset, "mdia") {
        Ok(b) => b,
        Err(e) => return Err(e),
    };
    proof {
        lemma_search_found(trak_body@, 0, mdia_tag());
    }
    let mdia = mdia_box.body;
    let mdhd_box = match require_box(mdia, FourCC::mdhd(), base_offset, "mdhd") {
        Ok(b) => b,
        Err(e) => return Err(e),
    };
    let media_header = match mdhd::parse_mdhd(mdhd_box.body, mdhd_box.offset) {
        Ok(h) => h,
        Err(e) => return Err(e),
    };
    let hdlr_box = match require_box(mdia, FourCC::hdlr(), base_offset, "hdlr") {
        Ok(b) => b,
        Err(e) => return Err(e),
    };
    let handler = match hdlr::parse_hdlr(hdlr_box.body, hdlr_box.offset) {
        Ok(h) => h,
        Err(e) => return Err(e),
    };
    let minf_box = match require_box(mdia, FourCC::minf(), base_offset, "minf") {
        Ok(b) => b,
        Err(e) => return Err(e),
    };
    proof {
        lemma_search_found(mdia@, 0, minf_tag());
    }
    let stbl_box = match require_box(minf_box.body, FourCC::stbl(), base_offset, "stbl") {
        Ok(b) => b,
        Err(e) => return Err(e),
    };
    proof {
        lemma_search_found(minf_box.body@, 0, stbl_tag());
    }
    let stbl = stbl_box.body;
    let stsd_box = match require_box(stbl, FourCC::stsd(), base_offset, "stsd") {
        Ok(b) => b,
        Err(e) => return Err(e),
    };
    proof {
        lemma_search_found(stbl@, 0, crate::mp4::box_builders::stsd_tag());
    }
    let codec_config = match stsd::parse_stsd(stsd_box.body, stsd_box.offset) {
        Ok(c) => c,
        Err(e) => return Err(e),
    };
    let boxes = match read_sample_boxes(stbl, base_offset) {
        Ok(b) => b,
        Err(e) => return Err(e),
    };
    if !sample_table_fits(&boxes.stts, &boxes.stsc, &boxes.stsz, &boxes.chunks) {
        let mut message = String::new();
        push_text(&mut message, "sample table offsets or times overflow");
        return Err(Mp4Error::InvalidBox { offset: base_offset, message });
    }
    let sample_table = match build_sample_table(
        &boxes.stts,
        boxes.ctts.as_ref(),
        &boxes.stsc,
        &boxes.stsz,
        &boxes.chunks,
        boxes.stss.as_ref(),
        media_header.timescale,
    ) {
        Ok(t) => t,
        Err(e) => return Err(e),
    };
    let duration: u64 = if media_header.duration > 0 {
        media_header.duration
    } else if track_header.duration > 0 && movie_header.timescale > 0 {
        match track_header.duration.checked_mul(media_header.timescale as u64) {
            Some(p) => p / movie_header.timescale as u64,
            None => {
                let mut message = String::new();
                push_text(&mut message, "track duration overflows");
                return Err(Mp4Error::InvalidBox { offset: base_offset, message });
            },
        }
    } else {
        0
    };
    Ok(Mp4Track {
        track_id: track_header.track_id,
        handler_type: handler.handler_type,
        timescale: media_header.timescale,
        duration,
        codec_config,
        sample_table,
        width: track_header.width,
        height: track_header.height,
    })
}

} // verus!
