//! MP4 muxer state: the sample tables collected while packets are written,
//! and the `moov` box built from them.
//!
//! The file is written in a streaming fashion:
//! 1. the `ftyp` box, then an `mdat` header whose 64-bit size is a placeholder;
//! 2. each packet's data as it arrives, its offset and timing recorded here;
//! 3. at the end, the `mdat` size is patched and the `moov` box appended.
//!
//! The writer itself stays with the caller; this type decides what is
//! written and keeps the accounting.

use vstd::prelude::*;
use crate::error::MuxError;
use crate::media::{Codec, Packet, ResourceBudget, TrackIndex, TrackInfo, TrackKind, VideoCodec};
use crate::mp4::box_builders::{
    box_bytes, build_dinf, build_hdlr, build_mdhd, build_mvhd, build_nmhd, build_smhd, build_stsd, build_tkhd,
    build_vmhd, dinf_box, hdlr_body, hdlr_tag, make_box, mdhd_body, mdhd_tag, mvhd_body, mvhd_tag, nmhd_box,
    sample_entry, smhd_box, stsd_tag, tkhd_body, tkhd_tag, vmhd_box, zeros,
};
use crate::mp4::boxes::hdlr::HandlerType;
use crate::mp4::boxes::stsd::{CodecConfig, ConfigView};
use crate::mp4::metadata::MetadataBox;
use crate::mp4::mux_sample_table::{
    build_ctts, build_stco, build_stsc, build_stss, build_stsz, build_stts, co64_tag, ctts_tag, dts_steps_fit, mux_cts,
    mux_deltas, rle, runs_bytes, stsc_tag, stss_tag, stsz_tag, stts_tag, sync_numbers, words, words64, MuxSample,
};
use crate::wire::push_slice;
use crate::text::{dec, push_dec, push_text};
use crate::timestamp::Timestamp;
use crate::wire::{push_u32, push_u64, u32_bytes, u64_bytes};

verus! {

/// Collected metadata for one track during muxing.
pub struct MuxTrack {
    pub track_info: TrackInfo,
    pub codec_config: CodecConfig,
    pub samples: Vec<MuxSample>,
    pub timescale: u32,
}

/// The state of an MP4 muxer: registered tracks and their samples, where
/// the `mdat` box stands, the resource budget and the running counts.
pub struct Mp4Muxer {
    tracks: Vec<MuxTrack>,
    mdat: MdatCursor,
    budget: Option<ResourceBudget>,
    packets_written: u64,
    metadata_boxes: Vec<MetadataBox>,
}

/// Where the mdat box stands and how much packet data it holds.
#[derive(Debug, Clone, Copy)]
struct MdatCursor {
    /// File offset where mdat body starts.
    body_start: u64,
    /// Current write position within mdat.
    pos: u64,
    /// Whether ftyp+mdat header have been written.
    header_written: bool,
    /// Bytes of packet data written to mdat.
    bytes_written: u64,
}

/// The `mdat` type code.
pub open spec fn mdat_tag() -> Seq<u8> {
    seq![0x6du8, 0x64u8, 0x61u8, 0x74u8]
}

/// Ticks of `t` in `timescale`: rescaled when the timebases differ and
/// the result fits in `i64`, else the ticks as they are.
pub open spec fn mux_ticks(t: Timestamp, timescale: u32) -> int {
    if t.spec_timebase() == timescale {
        t.spec_ticks() as int
    } else if i64::MIN <= t.rescaled_ticks(timescale) <= i64::MAX {
        t.rescaled_ticks(timescale)
    } else {
        t.spec_ticks() as int
    }
}

/// The codec configuration a track description implies when none is
/// given: empty decoder configuration records, stereo audio, and the
/// codec's name for subtitles. `None` when the description lacks the
/// metadata of its kind.
pub open spec fn inferred_config(info: TrackInfo) -> Option<ConfigView> {
    match (info.kind, info.video, info.audio) {
        (TrackKind::Video, Some(v), _) => if info.codec == Codec::Video(VideoCodec::H265) {
            Some(ConfigView::Hev1 { width: v.width as u16, height: v.height as u16, hvcc: seq![], color_space: v.color_space })
        } else {
            Some(ConfigView::Avc1 { width: v.width as u16, height: v.height as u16, avcc: seq![], color_space: v.color_space })
        },
        (TrackKind::Audio, _, Some(a)) => Some(ConfigView::Mp4a { sample_rate: a.sample_rate, channel_count: 2, esds: seq![] }),
        (TrackKind::Subtitle, _, _) => Some(ConfigView::Unknown(info.codec.spec_text())),
        _ => None,
    }
}

/// The timescale of a track: the audio sample rate, else 90 kHz.
pub open spec fn default_timescale(info: TrackInfo) -> u32 {
    match info.audio {
        Some(a) => a.sample_rate,
        None => 90000,
    }
}

impl Mp4Muxer {
    #[verifier::type_invariant]
    spec fn wf(self) -> bool {
        &&& self.mdat.header_written ==> 16 <= self.mdat.body_start <= self.mdat.pos
        &&& self.mdat.header_written ==> self.mdat.pos == self.mdat.body_start + self.mdat.bytes_written
        &&& !self.mdat.header_written ==> self.mdat.bytes_written == 0
        &&& self.budget matches Some(b) ==> {
            &&& self.mdat.bytes_written <= b.max_bytes
            &&& b.max_frames matches Some(m) ==> self.packets_written <= m
        }
    }

    /// Whether the recorded packet bytes and packets are within the budget.
    pub open spec fn keeps_budget(&self) -> bool {
        self.budget_of() matches Some(b) ==> {
            &&& self.bytes_so_far() <= b.max_bytes
            &&& b.max_frames matches Some(f) ==> self.packets_so_far() <= f
        }
    }

    /// The registered tracks, in order.
    pub closed spec fn track_list(&self) -> Seq<MuxTrack> {
        self.tracks@
    }

    /// Whether the ftyp box and the mdat header have been written.
    pub closed spec fn started(&self) -> bool {
        self.mdat.header_written
    }

    /// File offset where the mdat body starts.
    pub closed spec fn mdat_start(&self) -> u64 {
        self.mdat.body_start
    }

    /// File offset where the next packet's data goes.
    pub closed spec fn mdat_position(&self) -> u64 {
        self.mdat.pos
    }

    /// The resource budget.
    pub closed spec fn budget_of(&self) -> Option<ResourceBudget> {
        self.budget
    }

    /// Bytes of packet data accepted so far.
    pub closed spec fn bytes_so_far(&self) -> u64 {
        self.mdat.bytes_written
    }

    /// Packets accepted so far.
    pub closed spec fn packets_so_far(&self) -> u64 {
        self.packets_written
    }

    /// The metadata boxes written at the end of the moov box.
    pub closed spec fn metadata_list(&self) -> Seq<MetadataBox> {
        self.metadata_boxes@
    }

    /// A muxer with no tracks, nothing written and no budget.
    pub fn new() -> (r: Mp4Muxer)
        ensures
            r.track_list().len() == 0,
            !r.started(),
            r.budget_of() is None,
            r.mdat_start() == 0,
            r.mdat_position() == 0,
            r.bytes_so_far() == 0,
            r.packets_so_far() == 0,
            r.metadata_list().len() == 0,
    {
        Mp4Muxer {
            tracks: Vec::new(),
            mdat: MdatCursor { body_start: 0, pos: 0, header_written: false, bytes_written: 0 },
            budget: None,
            packets_written: 0,
            metadata_boxes: Vec::new(),
        }
    }

    /// A muxer whose packets count against `budget`: exceeding its byte or
    /// packet limit is refused before anything is written.
    pub fn new_with_budget(budget: ResourceBudget) -> (r: Mp4Muxer)
        ensures
            r.track_list().len() == 0,
            !r.started(),
            r.budget_of() == Some(budget),
            r.mdat_start() == 0,
            r.mdat_position() == 0,
            r.bytes_so_far() == 0,
            r.packets_so_far() == 0,
            r.metadata_list().len() == 0,
    {
        Mp4Muxer {
            tracks: Vec::new(),
            mdat: MdatCursor { body_start: 0, pos: 0, header_written: false, bytes_written: 0 },
            budget: Some(budget),
            packets_written: 0,
            metadata_boxes: Vec::new(),
        }
    }

    /// Sets the metadata boxes written into the output moov box, such as
    /// those a demuxer kept for passthrough.
    pub fn set_metadata(&mut self, boxes: Vec<MetadataBox>)
        ensures
            final(self).metadata_list() == boxes@,
            final(self).track_list() == old(self).track_list(),
            final(self).started() == old(self).started(),
            final(self).mdat_start() == old(self).mdat_start(),
            final(self).mdat_position() == old(self).mdat_position(),
            final(self).budget_of() == old(self).budget_of(),
            final(self).bytes_so_far() == old(self).bytes_so_far(),
            final(self).packets_so_far() == old(self).packets_so_far(),
    {
        proof {
            use_type_invariant(&*self);
        }
        self.metadata_boxes = boxes;
    }

    /// Registers a track with its full codec configuration (for
    /// passthrough muxing); its index is the number of tracks before it.
    pub fn add_track_with_config(&mut self, info: &TrackInfo, codec_config: CodecConfig, timescale: u32) -> (r: Result<
        TrackIndex,
        MuxError,
    >)
        ensures
            r == Ok::<TrackIndex, MuxError>(TrackIndex(old(self).track_list().len() as u32)),
            final(self).track_list().len() == old(self).track_list().len() + 1,
            forall|i: int| 0 <= i < old(self).track_list().len() ==> #[trigger] final(self).track_list()[i] == old(self).track_list()[i],
            final(self).track_list().last().track_info == *info,
            final(self).track_list().last().codec_config == codec_config,
            final(self).track_list().last().samples@.len() == 0,
            final(self).track_list().last().timescale == timescale,
            final(self).started() == old(self).started(),
            final(self).mdat_start() == old(self).mdat_start(),
            final(self).mdat_position() == old(self).mdat_position(),
            final(self).budget_of() == old(self).budget_of(),
            final(self).bytes_so_far() == old(self).bytes_so_far(),
            final(self).packets_so_far() == old(self).packets_so_far(),
            final(self).metadata_list() == old(self).metadata_list(),
    {
        proof {
            use_type_invariant(&*self);
        }
        let index = TrackIndex(self.tracks.len() as u32);
        let mut tracks: Vec<MuxTrack> = Vec::new();
        std::mem::swap(&mut tracks, &mut self.tracks);
        tracks.push(MuxTrack { track_info: info.copied(), codec_config, samples: Vec::new(), timescale });
        self.tracks = tracks;
        Ok(index)
    }

    /// Registers a track from its description alone, inferring a minimal
    /// codec configuration (see `inferred_config`) and the timescale.
    pub fn add_track(&mut self, info: &TrackInfo) -> (r: Result<TrackIndex, MuxError>)
        ensures
            inferred_config(*info) is None ==> (r matches Err(MuxError::InvalidTrackConfig { message })
                && message@ == "track must have video, audio, or subtitle metadata"@
                && final(self).track_list() == old(self).track_list()),
            inferred_config(*info) matches Some(c) ==> {
                &&& r == Ok::<TrackIndex, MuxError>(TrackIndex(old(self).track_list().len() as u32))
                &&& final(self).track_list().len() == old(self).track_list().len() + 1
                &&& forall|i: int| 0 <= i < old(self).track_list().len() ==> #[trigger] final(self).track_list()[i] == old(self).track_list()[i]
                &&& final(self).track_list().last().track_info == *info
                &&& final(self).track_list().last().codec_config@ == c
                &&& final(self).track_list().last().samples@.len() == 0
                &&& final(self).track_list().last().timescale == default_timescale(*info)
            },
            final(self).started() == old(self).started(),
            final(self).mdat_start() == old(self).mdat_start(),
            final(self).mdat_position() == old(self).mdat_position(),
            final(self).budget_of() == old(self).budget_of(),
            final(self).bytes_so_far() == old(self).bytes_so_far(),
            final(self).packets_so_far() == old(self).packets_so_far(),
            final(self).metadata_list() == old(self).metadata_list(),
    {
        let config = match (info.kind, &info.video, &info.audio) {
            (TrackKind::Video, Some(v), _) => {
                let is_h265 = match &info.codec {
                    Codec::Video(VideoCodec::H265) => true,
                    _ => false,
                };
                if is_h265 {
                    CodecConfig::Hev1 {
                        width: v.width as u16,
                        height: v.height as u16,
                        hvcc: Vec::new(),
                        color_space: v.color_space,
                    }
                } else {
                    CodecConfig::Avc1 {
                        width: v.width as u16,
                        height: v.height as u16,
                        avcc: Vec::new(),
                        color_space: v.color_space,
                    }
                }
            },
            (TrackKind::Audio, _, Some(a)) => CodecConfig::Mp4a {
                sample_rate: a.sample_rate,
                channel_count: 2,
                esds: Vec::new(),
            },
            (TrackKind::Subtitle, _, _) => CodecConfig::Unknown(info.codec.to_string()),
            _ => {
                let mut message = String::new();
                push_text(&mut message, "track must have video, audio, or subtitle metadata");
                return Err(MuxError::InvalidTrackConfig { message });
            },
        };
        let timescale = match &info.audio {
            Some(a) => a.sample_rate,
            None => 90000,
        };
        proof {
            assert(config@ =~= inferred_config(*info)->Some_0);
        }
        self.add_track_with_config(info, config, timescale)
    }
}

/// The header of the mdat box as first written: size field 1 (a 64-bit
/// size follows), the type, and a zero placeholder for the size.
pub fn mdat_placeholder_header() -> (r: Vec<u8>)
    ensures
        r@ == u32_bytes(1) + mdat_tag() + u64_bytes(0),
{
    let mut h: Vec<u8> = Vec::new();
    push_u32(&mut h, 1);
    h.push(0x6d);
    h.push(0x64);
    h.push(0x61);
    h.push(0x74);
    push_u64(&mut h, 0);
    assert(h@ =~= u32_bytes(1) + mdat_tag() + u64_bytes(0));
    h
}

impl Mp4Muxer {
    /// Whether the ftyp box and the mdat header have been written.
    pub fn is_started(&self) -> (r: bool)
        ensures
            r == self.started(),
    {
        self.mdat.header_written
    }

    /// File offset where the mdat body starts.
    pub fn mdat_body_start(&self) -> (r: u64)
        ensures
            r == self.mdat_start(),
    {
        self.mdat.body_start
    }

    /// File offset where the next packet's data goes.
    pub fn mdat_end(&self) -> (r: u64)
        ensures
            r == self.mdat_position(),
    {
        self.mdat.pos
    }

    /// Records that the ftyp box and the mdat header were written, the
    /// header (16 bytes) starting at `mdat_header_offset`.
    pub fn start_mdat(&mut self, mdat_header_offset: u64)
        requires
            !old(self).started(),
            mdat_header_offset <= u64::MAX - 16,
        ensures
            final(self).started(),
            final(self).mdat_start() == mdat_header_offset + 16,
            final(self).mdat_position() == mdat_header_offset + 16,
            final(self).track_list() == old(self).track_list(),
            final(self).budget_of() == old(self).budget_of(),
            final(self).bytes_so_far() == old(self).bytes_so_far(),
            final(self).packets_so_far() == old(self).packets_so_far(),
            final(self).metadata_list() == old(self).metadata_list(),
    {
        proof {
            use_type_invariant(&*self);
        }
        let start = mdat_header_offset + 16;
        self.mdat = MdatCursor { body_start: start, pos: start, header_written: true, bytes_written: self.mdat.bytes_written };
    }

    /// The size of the finished mdat box, header included: the 16-byte
    /// header and exactly the data of the packets accepted.
    pub fn mdat_size(&self) -> (r: u64)
        requires
            self.started(),
        ensures
            r == self.mdat_position() - (self.mdat_start() - 16),
            r == 16 + self.bytes_so_far(),
    {
        proof {
            use_type_invariant(self);
        }
        self.mdat.pos - (self.mdat.body_start - 16)
    }

    /// Whether a packet of `size` bytes stays within the budget: the byte
    /// limit, then the packet limit.
    pub open spec fn within_byte_budget(&self, size: u32) -> bool {
        self.budget_of() matches Some(b) ==> self.bytes_so_far() + size <= b.max_bytes
    }

    pub open spec fn within_frame_budget(&self) -> bool {
        self.budget_of() matches Some(b) ==> (b.max_frames matches Some(m) ==> self.packets_so_far() + 1 <= m)
    }

    /// Checks a packet before its data is written: its track must exist,
    /// and it must not take the byte count or the packet count past the
    /// budget.
    pub fn check_packet(&self, packet: &Packet) -> (r: Result<(), MuxError>)
        ensures
            ({
                let idx = packet.track_index.0 as int;
                let size = packet.data@.len() as u32;
                if idx >= self.track_list().len() {
                    (r matches Err(MuxError::InvalidTrackConfig { message })
                        && message@ == "track index "@ + dec(idx as nat) + " out of range"@)
                } else if !self.within_byte_budget(size) {
                    (r matches Err(MuxError::ResourceExhausted { message }) && message@ == "writing "@ + dec(size as nat)
                        + " bytes would exceed byte budget ("@ + dec(self.bytes_so_far() as nat) + " + "@ + dec(size as nat)
                        + " > "@ + dec(self.budget_of()->Some_0.max_bytes as nat) + ")"@)
                } else if !self.within_frame_budget() {
                    (r matches Err(MuxError::ResourceExhausted { message })
                        && message@ == "writing packet would exceed frame budget ("@ + dec(self.packets_so_far() as nat)
                        + " >= "@ + dec(self.budget_of()->Some_0.max_frames->Some_0 as nat) + ")"@)
                } else {
                    r is Ok
                }
            }),
    {
        let track_idx = packet.track_index.0 as usize;
        if track_idx >= self.tracks.len() {
            let mut message = String::new();
            push_text(&mut message, "track index ");
            push_dec(&mut message, track_idx as u64);
            push_text(&mut message, " out of range");
            return Err(MuxError::InvalidTrackConfig { message });
        }
        let size = packet.data.len() as u32;
        match &self.budget {
            Some(budget) => {
                if self.mdat.bytes_written as u128 + size as u128 > budget.max_bytes as u128 {
                    let mut message = String::new();
                    push_text(&mut message, "writing ");
                    push_dec(&mut message, size as u64);
                    push_text(&mut message, " bytes would exceed byte budget (");
                    push_dec(&mut message, self.mdat.bytes_written);
                    push_text(&mut message, " + ");
                    push_dec(&mut message, size as u64);
                    push_text(&mut message, " > ");
                    push_dec(&mut message, budget.max_bytes);
                    push_text(&mut message, ")");
                    return Err(MuxError::ResourceExhausted { message });
                }
                match budget.max_frames {
                    Some(max_frames) => {
                        if self.packets_written as u128 + 1 > max_frames as u128 {
                            let mut message = String::new();
                            push_text(&mut message, "writing packet would exceed frame budget (");
                            push_dec(&mut message, self.packets_written);
                            push_text(&mut message, " >= ");
                            push_dec(&mut message, max_frames);
                            push_text(&mut message, ")");
                            return Err(MuxError::ResourceExhausted { message });
                        }
                    },
                    None => {},
                }
            },
            None => {},
        }
        Ok(())
    }

    /// Whether a checked packet can be recorded: the header is written,
    /// the track exists and has a timescale, the packet keeps within the
    /// budget, the counts and the mdat position stay within `u64`, and the
    /// composition offset within `i64`.
    pub open spec fn can_commit(&self, packet: &Packet) -> bool {
        let idx = packet.track_index.0 as int;
        let size = packet.data@.len() as u32;
        &&& self.started()
        &&& idx < self.track_list().len()
        &&& self.within_byte_budget(size)
        &&& self.within_frame_budget()
        &&& self.track_list()[idx].timescale > 0
        &&& self.mdat_position() + size <= u64::MAX
        &&& self.bytes_so_far() + size <= u64::MAX
        &&& self.packets_so_far() + 1 <= u64::MAX
        &&& i64::MIN <= mux_ticks(packet.pts, self.track_list()[idx].timescale) - mux_ticks(
            packet.dts,
            self.track_list()[idx].timescale,
        ) <= i64::MAX
    }

    /// Ticks of `t` in `timescale`, as the sample table records them.
    fn ticks_in(t: Timestamp, timescale: u32) -> (r: i64)
        requires
            timescale > 0,
        ensures
            r == mux_ticks(t, timescale),
    {
        match t.rescale(timescale) {
            Some(x) => x.ticks(),
            None => t.ticks(),
        }
    }

    /// Tests `can_commit`.
    pub fn commit_allowed(&self, packet: &Packet) -> (r: bool)
        ensures
            r == self.can_commit(packet),
    {
        let idx = packet.track_index.0 as usize;
        if !self.mdat.header_written || idx >= self.tracks.len() {
            return false;
        }
        let timescale = self.tracks[idx].timescale;
        if timescale == 0 {
            return false;
        }
        let size = packet.data.len() as u32;
        if self.mdat.pos as u128 + size as u128 > u64::MAX as u128 || self.mdat.bytes_written as u128 + size as u128
            > u64::MAX as u128 || self.packets_written == u64::MAX {
            return false;
        }
        match self.budget {
            Some(b) => {
                if self.mdat.bytes_written as u128 + size as u128 > b.max_bytes as u128 {
                    return false;
                }
                match b.max_frames {
                    Some(m) => {
                        if self.packets_written >= m {
                            return false;
                        }
                    },
                    None => {},
                }
            },
            None => {},
        }
        let dts = Self::ticks_in(packet.dts, timescale);
        let pts = Self::ticks_in(packet.pts, timescale);
        let diff: i128 = pts as i128 - dts as i128;
        diff >= i64::MIN as i128 && diff <= i64::MAX as i128
    }

    /// Records a packet whose data was just written at the end of the mdat
    /// box: a sample at that offset, its decode time and composition
    /// offset in the track's timescale, and its sync flag.
    pub fn commit_packet(&mut self, packet: &Packet)
        requires
            old(self).can_commit(packet),
        ensures
            ({
                let idx = packet.track_index.0 as int;
                let size = packet.data@.len() as u32;
                let t = old(self).track_list()[idx];
                let dts = mux_ticks(packet.dts, t.timescale);
                let pts = mux_ticks(packet.pts, t.timescale);
                &&& final(self).track_list().len() == old(self).track_list().len()
                &&& forall|i: int| 0 <= i < old(self).track_list().len() && i != idx
                    ==> #[trigger] final(self).track_list()[i] == old(self).track_list()[i]
                &&& final(self).track_list()[idx].track_info == t.track_info
                &&& final(self).track_list()[idx].codec_config == t.codec_config
                &&& final(self).track_list()[idx].timescale == t.timescale
                &&& final(self).track_list()[idx].samples@ == t.samples@.push(MuxSample {
                    offset: old(self).mdat_position(),
                    size,
                    dts: dts as i64,
                    cts_offset: (pts - dts) as i32,
                    is_sync: packet.is_keyframe,
                })
                &&& final(self).mdat_position() == old(self).mdat_position() + size
                &&& final(self).bytes_so_far() == old(self).bytes_so_far() + size
                &&& final(self).packets_so_far() == old(self).packets_so_far() + 1
            }),
            final(self).started(),
            final(self).mdat_start() == old(self).mdat_start(),
            final(self).budget_of() == old(self).budget_of(),
            final(self).metadata_list() == old(self).metadata_list(),
            final(self).keeps_budget(),
    {
        proof {
            use_type_invariant(&*self);
        }
        let idx = packet.track_index.0 as usize;
        let size = packet.data.len() as u32;
        let offset = self.mdat.pos;
        let timescale = self.tracks[idx].timescale;
        let dts = Self::ticks_in(packet.dts, timescale);
        let pts = Self::ticks_in(packet.pts, timescale);
        let cts_offset = (pts - dts) as i32;
        let sample = MuxSample { offset, size, dts, cts_offset, is_sync: packet.is_keyframe };
        let mut tracks: Vec<MuxTrack> = Vec::new();
        std::mem::swap(&mut tracks, &mut self.tracks);
        tracks[idx].samples.push(sample);
        self.tracks = tracks;
        self.mdat = MdatCursor {
            body_start: self.mdat.body_start,
            pos: self.mdat.pos + size as u64,
            header_written: true,
            bytes_written: self.mdat.bytes_written + size as u64,
        };
        self.packets_written = self.packets_written + 1;
    }
}

pub open spec fn trak_tag() -> Seq<u8> { seq![0x74u8, 0x72u8, 0x61u8, 0x6bu8] }
pub open spec fn mdia_tag() -> Seq<u8> { seq![0x6du8, 0x64u8, 0x69u8, 0x61u8] }
pub open spec fn minf_tag() -> Seq<u8> { seq![0x6du8, 0x69u8, 0x6eu8, 0x66u8] }
pub open spec fn stbl_tag() -> Seq<u8> { seq![0x73u8, 0x74u8, 0x62u8, 0x6cu8] }
pub open spec fn moov_tag() -> Seq<u8> { seq![0x6du8, 0x6fu8, 0x6fu8, 0x76u8] }

/// The decode-time step between the first two samples (its magnitude), or
/// 1 for a lone sample: the length given to the last sample.
pub open spec fn first_delta(s: Seq<MuxSample>) -> int {
    if s.len() > 1 {
        let d = s[1].dts - s[0].dts;
        if d < 0 { -d } else { d }
    } else {
        1
    }
}

/// Where a track's samples end, in its timescale: the last decode time
/// (as unsigned) plus one step.
pub open spec fn end_ticks(s: Seq<MuxSample>) -> int {
    (s.last().dts as u64) + first_delta(s)
}

/// A track's duration in the movie timescale of 1000.
pub open spec fn movie_ticks(t: MuxTrack) -> int {
    if t.samples@.len() == 0 || t.timescale == 0 {
        0
    } else {
        end_ticks(t.samples@) * 1000 / (t.timescale as int)
    }
}

/// A track's duration in its own timescale.
pub open spec fn media_ticks(t: MuxTrack) -> int {
    if t.samples@.len() == 0 {
        0
    } else {
        end_ticks(t.samples@)
    }
}

/// The longest movie-timescale duration among the first `n` tracks.
pub open spec fn longest_ticks(tracks: Seq<MuxTrack>, n: int) -> int
    decreases n,
{
    if n <= 0 {
        0
    } else {
        let m = longest_ticks(tracks, n - 1);
        if movie_ticks(tracks[n - 1]) > m { movie_ticks(tracks[n - 1]) } else { m }
    }
}

/// Whether a track's sample tables can be written: fewer samples than
/// `u32::MAX`, decode steps within `i64`, and its end (scaled to the movie
/// timescale) within `u64`.
pub open spec fn track_fits(t: MuxTrack) -> bool {
    let s = t.samples@;
    &&& s.len() < u32::MAX
    &&& dts_steps_fit(s)
    &&& s.len() > 0 ==> end_ticks(s) <= u64::MAX
    &&& s.len() > 0 && t.timescale != 0 ==> end_ticks(s) * 1000 <= u64::MAX
}

pub open spec fn handler_for(k: TrackKind) -> HandlerType {
    match k {
        TrackKind::Video => HandlerType::Video,
        TrackKind::Audio => HandlerType::Audio,
        TrackKind::Subtitle => HandlerType::Subtitle,
    }
}

/// The media header box of a track kind: vmhd, smhd or nmhd.
pub open spec fn media_header_box(k: TrackKind) -> Seq<u8> {
    match k {
        TrackKind::Video => vmhd_box(),
        TrackKind::Audio => smhd_box(),
        TrackKind::Subtitle => nmhd_box(),
    }
}

pub open spec fn stts_box(s: Seq<MuxSample>) -> Seq<u8> {
    if s.len() == 0 {
        box_bytes(stts_tag(), zeros(4) + u32_bytes(0))
    } else {
        box_bytes(stts_tag(), zeros(4) + u32_bytes(rle(mux_deltas(s)).len() as u32) + runs_bytes(rle(mux_deltas(s))))
    }
}

/// The ctts box, absent when every composition offset is zero.
pub open spec fn ctts_box(s: Seq<MuxSample>) -> Seq<u8> {
    if forall|i: int| 0 <= i < s.len() ==> #[trigger] s[i].cts_offset == 0 {
        seq![]
    } else {
        box_bytes(ctts_tag(), zeros(4) + u32_bytes(rle(mux_cts(s)).len() as u32) + runs_bytes(rle(mux_cts(s))))
    }
}

pub open spec fn stsc_box(n: u32) -> Seq<u8> {
    if n > 0 {
        box_bytes(stsc_tag(), zeros(4) + u32_bytes(1) + u32_bytes(1) + u32_bytes(1) + u32_bytes(1))
    } else {
        box_bytes(stsc_tag(), zeros(4) + u32_bytes(0))
    }
}

pub open spec fn stsz_box(s: Seq<MuxSample>) -> Seq<u8> {
    box_bytes(stsz_tag(), zeros(4) + u32_bytes(0) + u32_bytes(s.len() as u32) + words(Seq::new(s.len(), |i: int| s[i].size)))
}

pub open spec fn co64_box(s: Seq<MuxSample>) -> Seq<u8> {
    box_bytes(co64_tag(), zeros(4) + u32_bytes(s.len() as u32) + words64(Seq::new(s.len(), |i: int| s[i].offset)))
}

/// The stss box, absent when every sample is a sync sample.
pub open spec fn stss_box(s: Seq<MuxSample>) -> Seq<u8> {
    if forall|i: int| 0 <= i < s.len() ==> #[trigger] s[i].is_sync {
        seq![]
    } else {
        box_bytes(stss_tag(), zeros(4) + u32_bytes(sync_numbers(s, s.len() as int).len() as u32)
            + words(sync_numbers(s, s.len() as int)))
    }
}

/// The sample table of a track: description, timing, chunking, sizes,
/// offsets and sync samples.
pub open spec fn stbl_body(t: MuxTrack) -> Seq<u8> {
    let s = t.samples@;
    box_bytes(stsd_tag(), zeros(4) + u32_bytes(1) + sample_entry(t.codec_config)) + stts_box(s) + ctts_box(s)
        + stsc_box(s.len() as u32) + stsz_box(s) + co64_box(s) + stss_box(s)
}

/// The trak box of a track with the given id.
pub open spec fn trak_box(t: MuxTrack, track_id: u32) -> Seq<u8> {
    let w: u32 = match t.track_info.video { Some(v) => v.width, None => 0 };
    let h: u32 = match t.track_info.video { Some(v) => v.height, None => 0 };
    box_bytes(trak_tag(),
        box_bytes(tkhd_tag(), tkhd_body(track_id, movie_ticks(t) as u32, w, h))
        + box_bytes(mdia_tag(),
            box_bytes(mdhd_tag(), mdhd_body(t.timescale, media_ticks(t) as u32))
            + box_bytes(hdlr_tag(), hdlr_body(handler_for(t.track_info.kind)))
            + box_bytes(minf_tag(), media_header_box(t.track_info.kind) + dinf_box() + box_bytes(stbl_tag(), stbl_body(t)))))
}

/// The trak boxes of the first `n` tracks, with ids 1, 2, ...
pub open spec fn traks_bytes(tracks: Seq<MuxTrack>, n: int) -> Seq<u8>
    decreases n,
{
    if n <= 0 {
        seq![]
    } else {
        traks_bytes(tracks, n - 1) + trak_box(tracks[n - 1], n as u32)
    }
}

/// The first of the first `n` tracks whose codec cannot be written to MP4.
pub open spec fn first_unknown(tracks: Seq<MuxTrack>, n: int) -> Option<int>
    decreases n,
{
    if n <= 0 {
        None
    } else {
        match first_unknown(tracks, n - 1) {
            Some(i) => Some(i),
            None => if tracks[n - 1].codec_config is Unknown { Some(n - 1) } else { None },
        }
    }
}

/// The bytes of the first `n` metadata boxes, back to back.
pub open spec fn metadata_bytes(boxes: Seq<MetadataBox>, n: int) -> Seq<u8>
    decreases n,
{
    if n <= 0 {
        seq![]
    } else {
        metadata_bytes(boxes, n - 1) + boxes[n - 1].data@
    }
}

/// The moov box: movie header (timescale 1000, the longest track's
/// duration), one trak per track, then the metadata boxes.
pub open spec fn moov_box(tracks: Seq<MuxTrack>, boxes: Seq<MetadataBox>) -> Seq<u8> {
    box_bytes(moov_tag(), box_bytes(mvhd_tag(), mvhd_body(1000, longest_ticks(tracks, tracks.len() as int) as u32))
        + traks_bytes(tracks, tracks.len() as int) + metadata_bytes(boxes, boxes.len() as int))
}

/// The end of a track's samples in its timescale (see `end_ticks`).
fn track_end(samples: &Vec<MuxSample>) -> (r: u64)
    requires
        samples@.len() > 0,
        dts_steps_fit(samples@),
        end_ticks(samples@) <= u64::MAX,
    ensures
        r == end_ticks(samples@),
{
    let n = samples.len();
    let last = samples[n - 1].dts;
    let delta: u64 = if n > 1 {
        let d: i128 = samples[1].dts as i128 - samples[0].dts as i128;
        assert(samples@[0int + 1].dts - samples@[0int].dts <= i64::MAX);
        if d < 0 {
            (0 - d) as u64
        } else {
            d as u64
        }
    } else {
        1
    };
    last as u64 + delta
}

/// `movie_ticks` of a track.
fn track_movie_ticks(t: &MuxTrack) -> (r: u64)
    requires
        track_fits(*t),
    ensures
        r == movie_ticks(*t),
{
    if t.samples.len() == 0 || t.timescale == 0 {
        return 0;
    }
    let end = track_end(&t.samples);
    let scaled = end * 1000;
    scaled / t.timescale as u64
}

/// Builds the stbl box of a track.
#[verifier::rlimit(40)]
fn build_stbl(track: &MuxTrack) -> (r: Result<Vec<u8>, MuxError>)
    requires
        track_fits(*track),
    ensures
        match track.codec_config {
            CodecConfig::Unknown(name) => r matches Err(MuxError::IncompatibleCodec { codec, container })
                && codec@ == name@ && container@ == "mp4"@,
            _ => r matches Ok(b) && b@ == box_bytes(stbl_tag(), stbl_body(*track)),
        },
{
    let stsd = match build_stsd(&track.codec_config) {
        Ok(b) => b,
        Err(e) => {
            return Err(e);
        },
    };
    let stts = build_stts(&track.samples);
    let ctts = build_ctts(&track.samples);
    let stsc = build_stsc(track.samples.len() as u32);
    let stsz = build_stsz(&track.samples);
    let stco = build_stco(&track.samples);
    let stss = build_stss(&track.samples);
    let ghost s = track.samples@;
    let mut stbl_body_v = stsd;
    push_slice(&mut stbl_body_v, stts.as_slice());
    match &ctts {
        Some(c) => push_slice(&mut stbl_body_v, c.as_slice()),
        None => {},
    }
    assert(stbl_body_v@ =~= box_bytes(stsd_tag(), zeros(4) + u32_bytes(1) + sample_entry(track.codec_config))
        + stts_box(s) + ctts_box(s));
    push_slice(&mut stbl_body_v, stsc.as_slice());
    push_slice(&mut stbl_body_v, stsz.as_slice());
    push_slice(&mut stbl_body_v, stco.as_slice());
    match &stss {
        Some(b) => push_slice(&mut stbl_body_v, b.as_slice()),
        None => {},
    }
    assert(stbl_body_v@ =~= stbl_body(*track));
    let t_stbl: [u8; 4] = [0x73, 0x74, 0x62, 0x6c];
    assert(t_stbl@ =~= stbl_tag());
    let stbl = make_box(&t_stbl, stbl_body_v.as_slice());
    Ok(stbl)
}

/// Builds the trak box of one track: header, media header, handler, media
/// header of its kind, data information and the sample table.
#[verifier::rlimit(40)]
fn build_trak(track: &MuxTrack, track_id: u32) -> (r: Result<Vec<u8>, MuxError>)
    requires
        track_fits(*track),
    ensures
        match track.codec_config {
            CodecConfig::Unknown(name) => r matches Err(MuxError::IncompatibleCodec { codec, container })
                && codec@ == name@ && container@ == "mp4"@,
            _ => r matches Ok(b) && b@ == trak_box(*track, track_id),
        },
{
    let (width, height) = match &track.track_info.video {
        Some(v) => (v.width, v.height),
        None => (0u32, 0u32),
    };
    let track_dur_movie = track_movie_ticks(track) as u32;
    let tkhd = build_tkhd(track_id, track_dur_movie, width, height);
    let media_duration: u32 = if track.samples.len() == 0 {
        0
    } else {
        track_end(&track.samples) as u32
    };
    let mdhd = build_mdhd(track.timescale, media_duration);
    let handler = match track.track_info.kind {
        TrackKind::Video => HandlerType::Video,
        TrackKind::Audio => HandlerType::Audio,
        TrackKind::Subtitle => HandlerType::Subtitle,
    };
    let hdlr = build_hdlr(&handler);
    let stbl = match build_stbl(track) {
        Ok(b) => b,
        Err(e) => {
            return Err(e);
        },
    };
    let xmhd = match track.track_info.kind {
        TrackKind::Video => build_vmhd(),
        TrackKind::Audio => build_smhd(),
        TrackKind::Subtitle => build_nmhd(),
    };
    let dinf = build_dinf();
    let mut minf_body = xmhd;
    push_slice(&mut minf_body, dinf.as_slice());
    push_slice(&mut minf_body, stbl.as_slice());
    let t_minf: [u8; 4] = [0x6d, 0x69, 0x6e, 0x66];
    assert(t_minf@ =~= minf_tag());
    let minf = make_box(&t_minf, minf_body.as_slice());
    let mut mdia_body = mdhd;
    push_slice(&mut mdia_body, hdlr.as_slice());
    push_slice(&mut mdia_body, minf.as_slice());
    let t_mdia: [u8; 4] = [0x6d, 0x64, 0x69, 0x61];
    assert(t_mdia@ =~= mdia_tag());
    let mdia = make_box(&t_mdia, mdia_body.as_slice());
    let mut trak_body = tkhd;
    push_slice(&mut trak_body, mdia.as_slice());
    let t_trak: [u8; 4] = [0x74, 0x72, 0x61, 0x6b];
    assert(t_trak@ =~= trak_tag());
    let trak = make_box(&t_trak, trak_body.as_slice());
    assert(trak@ =~= trak_box(*track, track_id));
    Ok(trak)
}

impl Mp4Muxer {
    /// Whether the moov box can be built: every track's tables fit, and
    /// the track ids stay within `u32`.
    pub open spec fn moov_fits(&self) -> bool {
        &&& self.track_list().len() < u32::MAX
        &&& forall|i: int| 0 <= i < self.track_list().len() ==> track_fits(#[trigger] self.track_list()[i])
    }

    /// Tests `moov_fits`.
    pub fn moov_allowed(&self) -> (r: bool)
        ensures
            r == self.moov_fits(),
    {
        if self.tracks.len() >= u32::MAX as usize {
            return false;
        }
        let mut i: usize = 0;
        while i < self.tracks.len()
            invariant
                i <= self.tracks@.len(),
                forall|k: int| 0 <= k < i ==> track_fits(#[trigger] self.tracks@[k]),
            decreases self.tracks@.len() - i,
        {
            if !track_allowed(&self.tracks[i]) {
                return false;
            }
            i = i + 1;
        }
        true
    }

    /// Builds the moov box: the movie header with the longest track's
    /// duration at timescale 1000, a trak box per track (ids from 1), and
    /// the metadata boxes as they are. Fails on the first track whose
    /// codec cannot be written to MP4.
    #[verifier::rlimit(40)]
    pub fn build_moov(&self) -> (r: Result<Vec<u8>, MuxError>)
        requires
            self.moov_fits(),
        ensures
            match first_unknown(self.track_list(), self.track_list().len() as int) {
                Some(i) => r matches Err(MuxError::IncompatibleCodec { codec, container })
                    && self.track_list()[i].codec_config matches CodecConfig::Unknown(name)
                    && codec@ == name@ && container@ == "mp4"@,
                None => r matches Ok(b) && b@ == moov_box(self.track_list(), self.metadata_list()),
            },
    {
        let movie_duration = longest_movie_ticks(&self.tracks);
        let mvhd = build_mvhd(1000, movie_duration as u32);
        let traks = match build_traks(&self.tracks) {
            Ok(b) => b,
            Err(e) => {
                return Err(e);
            },
        };
        let mut moov_body = mvhd;
        push_slice(&mut moov_body, traks.as_slice());
        append_metadata(&mut moov_body, &self.metadata_boxes);
        let t: [u8; 4] = [0x6d, 0x6f, 0x6f, 0x76];
        assert(t@ =~= moov_tag());
        let moov = make_box(&t, moov_body.as_slice());
        assert(moov@ =~= moov_box(self.track_list(), self.metadata_list()));
        Ok(moov)
    }
}

/// The longest movie-timescale duration among the tracks.
fn longest_movie_ticks(tracks: &Vec<MuxTrack>) -> (r: u64)
    requires
        forall|i: int| 0 <= i < tracks@.len() ==> track_fits(#[trigger] tracks@[i]),
    ensures
        r == longest_ticks(tracks@, tracks@.len() as int),
{
    let mut movie_duration: u64 = 0;
    let mut i: usize = 0;
    while i < tracks.len()
        invariant
            forall|k: int| 0 <= k < tracks@.len() ==> track_fits(#[trigger] tracks@[k]),
            i <= tracks@.len(),
            movie_duration == longest_ticks(tracks@, i as int),
        decreases tracks@.len() - i,
    {
        let d = track_movie_ticks(&tracks[i]);
        if d > movie_duration {
            movie_duration = d;
        }
        i = i + 1;
    }
    movie_duration
}

/// The trak boxes of all tracks, ids from 1; fails on the first track whose
/// codec cannot be written to MP4.
fn build_traks(tracks: &Vec<MuxTrack>) -> (r: Result<Vec<u8>, MuxError>)
    requires
        tracks@.len() < u32::MAX,
        forall|i: int| 0 <= i < tracks@.len() ==> track_fits(#[trigger] tracks@[i]),
    ensures
        match first_unknown(tracks@, tracks@.len() as int) {
            Some(i) => r matches Err(MuxError::IncompatibleCodec { codec, container })
                && tracks@[i].codec_config matches CodecConfig::Unknown(name)
                && codec@ == name@ && container@ == "mp4"@,
            None => r matches Ok(b) && b@ == traks_bytes(tracks@, tracks@.len() as int),
        },
{
    let mut traks: Vec<u8> = Vec::new();
    let mut j: usize = 0;
    while j < tracks.len()
        invariant
            tracks@.len() < u32::MAX,
            forall|k: int| 0 <= k < tracks@.len() ==> track_fits(#[trigger] tracks@[k]),
            j <= tracks@.len(),
            first_unknown(tracks@, j as int) is None,
            traks@ == traks_bytes(tracks@, j as int),
        decreases tracks@.len() - j,
    {
        let trak = match build_trak(&tracks[j], j as u32 + 1) {
            Ok(b) => b,
            Err(e) => {
                proof {
                    assert(first_unknown(tracks@, j + 1) == Some(j as int));
                    lemma_first_unknown_stays(tracks@, j + 1, tracks@.len() as int);
                }
                return Err(e);
            },
        };
        push_slice(&mut traks, trak.as_slice());
        j = j + 1;
    }
    Ok(traks)
}

/// Appends the bytes of the metadata boxes.
fn append_metadata(body: &mut Vec<u8>, boxes: &Vec<MetadataBox>)
    ensures
        final(body)@ == old(body)@ + metadata_bytes(boxes@, boxes@.len() as int),
{
    let ghost head = body@;
    let mut k: usize = 0;
    while k < boxes.len()
        invariant
            k <= boxes@.len(),
            body@ == head + metadata_bytes(boxes@, k as int),
        decreases boxes@.len() - k,
    {
        push_slice(body, boxes[k].data.as_slice());
        k = k + 1;
        assert(body@ =~= head + metadata_bytes(boxes@, k as int));
    }
}

/// Once a track with an unknown codec is found among the first `n`, it
/// stays the first among any more.
proof fn lemma_first_unknown_stays(tracks: Seq<MuxTrack>, n: int, m: int)
    requires
        n <= m,
        first_unknown(tracks, n) is Some,
    ensures
        first_unknown(tracks, m) == first_unknown(tracks, n),
    decreases m - n,
{
    if n < m {
        lemma_first_unknown_stays(tracks, n, m - 1);
    }
}

/// Tests `track_fits`.
fn track_allowed(t: &MuxTrack) -> (r: bool)
    ensures
        r == track_fits(*t),
{
    let n = t.samples.len();
    if n >= u32::MAX as usize {
        return false;
    }
    if n == 0 {
        return true;
    }
    let mut i: usize = 1;
    while i < n
        invariant
            n == t.samples@.len(),
            1 <= i <= n,
            forall|k: int| 0 <= k < i - 1 ==> i64::MIN <= #[trigger] t.samples@[k + 1].dts - t.samples@[k].dts <= i64::MAX,
        decreases n - i,
    {
        let d: i128 = t.samples[i].dts as i128 - t.samples[i - 1].dts as i128;
        if d < i64::MIN as i128 || d > i64::MAX as i128 {
            proof {
                let k = i - 1;
                assert(!(i64::MIN <= t.samples@[k + 1].dts - t.samples@[k].dts <= i64::MAX));
            }
            return false;
        }
        i = i + 1;
    }
    let last: u64 = t.samples[n - 1].dts as u64;
    let delta: u128 = if n > 1 {
        let d: i128 = t.samples[1].dts as i128 - t.samples[0].dts as i128;
        if d < 0 { (0 - d) as u128 } else { d as u128 }
    } else {
        1
    };
    assert(delta <= 0x1_0000_0000_0000_0000u128);
    let end: u128 = last as u128 + delta;
    if end > u64::MAX as u128 {
        return false;
    }
    if t.timescale != 0 && end * 1000 > u64::MAX as u128 {
        return false;
    }
    true
}

} // verus!
