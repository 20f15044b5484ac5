//! MP4 demuxing state: the tracks of a parsed moov box, the interleaved read
//! order of their samples, the read position, seeking and resource budgets.
//!
//! Reading bytes is left to the caller: `next_sample` says which bytes come
//! next, and `finish_packet` turns the bytes read into a packet.

use vstd::prelude::*;
use crate::error::DemuxError;
use crate::media::{Packet, ResourceBudget, TrackIndex, TrackInfo, TrackKind};
use crate::mp4::boxes::hdlr::HandlerType;
use crate::mp4::boxes::{box_at, iter_boxes, require_box, FourCC};
use crate::mp4::boxes::mvhd;
use crate::mp4::boxes::stsd::CodecConfig;
use crate::mp4::track_parsing::{
    found_offset, has_box, parse_track, search_error, track_error, track_parses, track_read, trak_handler, version_error,
    version_fits,
};
use crate::mp4::boxes::step_error;
use crate::mp4::boxes::{box_step, box_total, header_len, BoxStep};
use crate::mp4::boxes::stsd::found_body;
use crate::wire::seq_be32;
use crate::wire::{push_slice, push_u32, push_u64};
use crate::mp4::error::Mp4Error;
use crate::mp4::metadata::MetadataBox;
use crate::mp4::sample_table::SampleEntry;
use crate::mp4::track::{describes, Mp4Track};
use crate::text::{dec, push_dec, push_text};
use crate::timestamp::Timestamp;
use crate::traits::{SeekMode, Seekable};

verus! {


/// The sample the caller is to read next: where its bytes are, and what the
/// packet made of them carries.
#[derive(Debug, Clone, Copy)]
pub struct SampleRead {
    pub track_index: u32,
    pub offset: u64,
    pub size: u32,
    pub dts: i64,
    pub cts_offset: i32,
    pub is_keyframe: bool,
    pub timescale: u32,
}

/// The demuxing state of an MP4 file.
#[derive(Debug)]
pub struct Mp4Demuxer {
    tracks: Vec<TrackInfo>,
    mp4_tracks: Vec<Mp4Track>,
    /// Interleaved read order: (track index, sample index within the track).
    read_order: Vec<(usize, usize)>,
    /// Current position in the read order.
    position: usize,
    budget: Option<ResourceBudget>,
    /// Bytes of sample data read so far.
    bytes_read: u64,
    /// Packets read so far.
    packets_read: u64,
    /// Opaque metadata boxes (udta, meta) kept from moov.
    metadata_boxes: Vec<MetadataBox>,
}

/// The sample at a read-order entry.
pub open spec fn sample_of(tracks: Seq<Mp4Track>, e: (usize, usize)) -> SampleEntry {
    tracks[e.0 as int].sample_table.entries@[e.1 as int]
}

/// Whether a read-order entry names an existing sample.
pub open spec fn entry_valid(tracks: Seq<Mp4Track>, e: (usize, usize)) -> bool {
    e.0 < tracks.len() && e.1 < tracks[e.0 as int].sample_table.entries@.len()
}

/// The positions of the sibling boxes that a walk from `p` passes, up to
/// the first position where no whole box lies.
pub open spec fn walk_positions(s: Seq<u8>, p: int) -> Seq<int>
    decreases s.len() - p,
{
    if 0 <= p <= s.len() && box_step(s, p) == BoxStep::Whole {
        proof {
            crate::mp4::track_parsing::lemma_box_in_data(s, p);
        }
        seq![p] + walk_positions(s, p + box_total(s, p))
    } else {
        seq![]
    }
}

/// The body of the box at `p`.
pub open spec fn body_at(s: Seq<u8>, p: int) -> Seq<u8> {
    s.subrange(p + header_len(s, p), p + box_total(s, p))
}

/// The movie timescale of a moov body: the one in its mvhd box.
pub open spec fn movie_timescale(moov: Seq<u8>) -> u32 {
    let b = found_body(moov, seq![0x6du8, 0x76u8, 0x68u8, 0x64u8]);
    if b[0] == 0 { seq_be32(b, 12) } else { seq_be32(b, 20) }
}

/// Each of `tracks` is read, in order, from a trak box among the boxes of
/// the moov body, at the positions `ps`.
pub open spec fn tracks_read_from(moov: Seq<u8>, ps: Seq<int>, tracks: Seq<Mp4Track>) -> bool {
    &&& ps.len() == tracks.len()
    &&& forall|i: int, j: int| 0 <= i < j < ps.len() ==> ps[i] < ps[j]
    &&& forall|i: int| 0 <= i < ps.len() ==> {
        &&& walk_positions(moov, 0).contains(#[trigger] ps[i])
        &&& moov.subrange(ps[i] + 4, ps[i] + 8) == seq![0x74u8, 0x72u8, 0x61u8, 0x6bu8]
        &&& track_read(tracks[i], body_at(moov, ps[i]), movie_timescale(moov))
    }
}

/// Whether the box at `p` is a trak box.
pub open spec fn is_trak_at(moov: Seq<u8>, p: int) -> bool {
    moov.subrange(p + 4, p + 8) == seq![0x74u8, 0x72u8, 0x61u8, 0x6bu8]
}

/// Whether the box at `p` is the trak box of a video or audio track: one
/// whose track the demuxer keeps.
pub open spec fn kept_trak(moov: Seq<u8>, p: int) -> bool {
    &&& is_trak_at(moov, p)
    &&& (trak_handler(body_at(moov, p)) is Video || trak_handler(body_at(moov, p)) is Audio)
}

/// Whether the box at `p` is a udta or meta box: one the demuxer keeps as
/// metadata.
pub open spec fn is_meta_at(moov: Seq<u8>, p: int) -> bool {
    ||| moov.subrange(p + 4, p + 8) == seq![0x75u8, 0x64u8, 0x74u8, 0x61u8]
    ||| moov.subrange(p + 4, p + 8) == seq![0x6du8, 0x65u8, 0x74u8, 0x61u8]
}

/// The bytes the demuxer keeps of the metadata box at `p`: a header written
/// from its size field (in the 64-bit form when the box used it), then its
/// body.
pub open spec fn meta_bytes_at(moov: Seq<u8>, p: int) -> Seq<u8> {
    let size = crate::mp4::boxes::header_size_field(moov, p);
    if header_len(moov, p) == 16 {
        crate::wire::u32_bytes(1) + moov.subrange(p + 4, p + 8) + crate::wire::u64_bytes(size as usize as u64)
            + body_at(moov, p)
    } else {
        crate::wire::u32_bytes(size as usize as u32) + moov.subrange(p + 4, p + 8) + body_at(moov, p)
    }
}

/// The metadata the demuxer keeps from the boxes at positions `ms` of the
/// moov body.
pub open spec fn metadata_from(moov: Seq<u8>, ms: Seq<int>, boxes: Seq<MetadataBox>) -> bool {
    &&& boxes.len() == ms.len()
    &&& forall|i: int| 0 <= i < ms.len() ==> {
        &&& (#[trigger] boxes[i]).box_type.0@ == moov.subrange(ms[i] + 4, ms[i] + 8)
        &&& boxes[i].data@ == meta_bytes_at(moov, ms[i])
    }
}

/// Whether the walk from `p` over the boxes of a moov body ends where no
/// box remains, and every trak box on the way parses.
pub open spec fn walk_ok_from(moov: Seq<u8>, p: int, ts: u32) -> bool
    decreases moov.len() - p,
{
    if 0 <= p <= moov.len() && box_step(moov, p) == BoxStep::Whole {
        proof {
            crate::mp4::track_parsing::lemma_box_in_data(moov, p);
        }
        &&& (is_trak_at(moov, p) ==> track_parses(body_at(moov, p), ts))
        &&& walk_ok_from(moov, p + box_total(moov, p), ts)
    } else {
        box_step(moov, p) == BoxStep::Done
    }
}

/// The error the walk from `p` over the boxes of a moov body reports: that
/// of the first trak box that does not parse, or of the first position
/// where the walk fails.
pub open spec fn walk_error_from(e: Mp4Error, moov: Seq<u8>, p: int, ts: u32) -> bool
    decreases moov.len() - p,
{
    if 0 <= p <= moov.len() && box_step(moov, p) == BoxStep::Whole {
        proof {
            crate::mp4::track_parsing::lemma_box_in_data(moov, p);
        }
        if is_trak_at(moov, p) && !track_parses(body_at(moov, p), ts) {
            track_error(e, body_at(moov, p), p as u64, ts)
        } else {
            walk_error_from(e, moov, p + box_total(moov, p), ts)
        }
    } else {
        step_error(e, moov, p, 0)
    }
}

/// Whether `from_moov` succeeds on a moov body: it has an mvhd box of a
/// supported version, and the walk over its boxes ends cleanly with every
/// trak box parsing.
pub open spec fn moov_parses(moov: Seq<u8>) -> bool {
    let mv = seq![0x6du8, 0x76u8, 0x68u8, 0x64u8];
    &&& has_box(moov, mv)
    &&& version_fits(found_body(moov, mv), 20, 32)
    &&& walk_ok_from(moov, 0, movie_timescale(moov))
}

/// The error `from_moov` reports: a missing or unreadable mvhd box, an
/// unsupported mvhd version, or the first failure of the walk.
pub open spec fn moov_error(e: Mp4Error, moov: Seq<u8>) -> bool {
    let mv = seq![0x6du8, 0x76u8, 0x68u8, 0x64u8];
    if !has_box(moov, mv) {
        search_error(e, moov, mv, 0, "mvhd")
    } else if !version_fits(found_body(moov, mv), 20, 32) {
        version_error(e, found_body(moov, mv), found_offset(moov, mv, 0), "unsupported mvhd version "@)
    } else {
        walk_error_from(e, moov, 0, movie_timescale(moov))
    }
}

/// What a demuxer opened from a moov body holds: no sample read yet, the
/// budget given, the video and audio tracks read from the moov's trak
/// boxes with their descriptions, a read order of all their samples sorted
/// by file offset, and the moov's udta and meta boxes.
pub open spec fn opened_from(d: Mp4Demuxer, moov: Seq<u8>, budget: Option<ResourceBudget>) -> bool {
    &&& d.pos() == 0
    &&& d.bytes_so_far() == 0
    &&& d.packets_so_far() == 0
    &&& d.budget_of() == budget
    &&& d.infos().len() == d.track_list().len()
    &&& forall|i: int| 0 <= i < d.track_list().len() ==> {
        let t = #[trigger] d.track_list()[i];
        &&& (t.handler_type is Video || t.handler_type is Audio)
        &&& describes(d.infos()[i], t, TrackIndex(i as u32))
    }
    &&& order_keys(d.track_list(), d.order()).to_multiset()
        == all_keys(d.track_list(), d.track_list().len() as int).to_multiset()
    &&& forall|i: int, j: int| 0 <= i < j < d.order().len() ==> triple_le(
        order_key(d.track_list(), d.order()[i]),
        order_key(d.track_list(), d.order()[j]),
    )
    &&& tracks_read_from(moov, walk_positions(moov, 0).filter(|p: int| kept_trak(moov, p)), d.track_list())
    &&& metadata_from(moov, walk_positions(moov, 0).filter(|p: int| is_meta_at(moov, p)), d.metadata_list())
}

impl Mp4Demuxer {
    #[verifier::type_invariant]
    spec fn wf(self) -> bool {
        &&& self.tracks@.len() == self.mp4_tracks@.len()
        &&& self.position <= self.read_order@.len()
        &&& forall|i: int| 0 <= i < self.read_order@.len() ==> entry_valid(self.mp4_tracks@, #[trigger] self.read_order@[i])
    }

    /// The tracks, in order.
    pub closed spec fn track_list(&self) -> Seq<Mp4Track> {
        self.mp4_tracks@
    }

    /// The track descriptions, in order.
    pub closed spec fn infos(&self) -> Seq<TrackInfo> {
        self.tracks@
    }

    /// The interleaved read order.
    pub closed spec fn order(&self) -> Seq<(usize, usize)> {
        self.read_order@
    }

    /// The current position in the read order.
    pub closed spec fn pos(&self) -> int {
        self.position as int
    }

    /// The resource budget.
    pub closed spec fn budget_of(&self) -> Option<ResourceBudget> {
        self.budget
    }

    /// Bytes of sample data read so far.
    pub closed spec fn bytes_so_far(&self) -> u64 {
        self.bytes_read
    }

    /// Packets read so far.
    pub closed spec fn packets_so_far(&self) -> u64 {
        self.packets_read
    }

    /// The metadata boxes kept.
    pub closed spec fn metadata_list(&self) -> Seq<MetadataBox> {
        self.metadata_boxes@
    }

    /// Returns the track descriptions.
    pub fn tracks(&self) -> (r: &[TrackInfo])
        ensures
            r@ == self.infos(),
    {
        self.tracks.as_slice()
    }

    /// Returns the metadata boxes (udta, meta) kept from the moov box, for
    /// passing to a muxer.
    pub fn metadata(&self) -> (r: &[MetadataBox])
        ensures
            r@ == self.metadata_list(),
    {
        self.metadata_boxes.as_slice()
    }

    /// Returns the codec configuration of a track.
    pub fn codec_config(&self, track: TrackIndex) -> (r: Option<&CodecConfig>)
        ensures
            track.0 < self.track_list().len() ==> r == Some(&self.track_list()[track.0 as int].codec_config),
            track.0 >= self.track_list().len() ==> r is None,
    {
        let i = track.0 as usize;
        if i < self.mp4_tracks.len() {
            Some(&self.mp4_tracks[i].codec_config)
        } else {
            None
        }
    }

    /// Returns the media timescale of a track.
    pub fn track_timescale(&self, track: TrackIndex) -> (r: Option<u32>)
        ensures
            track.0 < self.track_list().len() ==> r == Some(self.track_list()[track.0 as int].timescale),
            track.0 >= self.track_list().len() ==> r is None,
    {
        let i = track.0 as usize;
        if i < self.mp4_tracks.len() {
            Some(self.mp4_tracks[i].timescale)
        } else {
            None
        }
    }

    /// Returns the presentation timestamp of the sample the next read yields,
    /// or `None` at the end of the stream (or when that time does not fit).
    pub fn seek_position(&self) -> (r: Option<Timestamp>)
        ensures
            self.pos() >= self.order().len() ==> r is None,
            self.pos() < self.order().len() ==> {
                let e = self.order()[self.pos()];
                let s = sample_of(self.track_list(), e);
                let ts = self.track_list()[e.0 as int].sample_table.timescale;
                &&& r is Some <==> (ts > 0 && i64::MIN <= s.dts + s.cts_offset <= i64::MAX)
                &&& r matches Some(t) ==> t.ticks() == s.dts + s.cts_offset && t.timebase() == ts
            },
    {
        proof {
            use_type_invariant(self);
        }
        if self.position >= self.read_order.len() {
            return None;
        }
        let (track_idx, sample_idx) = self.read_order[self.position];
        assert(entry_valid(self.mp4_tracks@, self.read_order@[self.position as int]));
        let track = &self.mp4_tracks[track_idx];
        let sample = &track.sample_table.entries[sample_idx];
        match sample.dts.checked_add(sample.cts_offset as i64) {
            Some(pts_ticks) => Timestamp::new(pts_ticks, track.sample_table.timescale),
            None => None,
        }
    }

    /// Advances the read position and says which sample's bytes to read
    /// next, or `None` at the end of the stream. With a budget, fails when
    /// the packet count has reached its frame limit or the sample would take
    /// the bytes read past its byte limit (the position still advances).
    pub fn next_sample(&mut self) -> (r: Result<Option<SampleRead>, DemuxError>)
        ensures
            final(self).track_list() == old(self).track_list(),
            final(self).infos() == old(self).infos(),
            final(self).order() == old(self).order(),
            final(self).budget_of() == old(self).budget_of(),
            final(self).bytes_so_far() == old(self).bytes_so_far(),
            final(self).packets_so_far() == old(self).packets_so_far(),
            final(self).metadata_list() == old(self).metadata_list(),
            old(self).pos() >= old(self).order().len() ==> (r matches Ok(None) && final(self).pos() == old(self).pos()),
            old(self).pos() < old(self).order().len() ==> {
                let e = old(self).order()[old(self).pos()];
                let s = sample_of(old(self).track_list(), e);
                let packets = old(self).packets_so_far();
                let bytes = old(self).bytes_so_far();
                &&& final(self).pos() == old(self).pos() + 1
                &&& match old(self).budget_of() {
                    Some(b) => if b.max_frames matches Some(m) && packets >= m {
                        r matches Err(DemuxError::Other(msg)) && msg@ == "packet count ("@ + dec(packets as nat)
                            + ") exceeds budget ("@ + dec(b.max_frames->Some_0 as nat) + " frames)"@
                    } else if bytes + s.size > b.max_bytes {
                        r matches Err(DemuxError::Other(msg)) && msg@ == "reading sample ("@ + dec(s.size as nat)
                            + " bytes) would exceed byte budget ("@ + dec(bytes as nat) + " + "@ + dec(s.size as nat)
                            + " > "@ + dec(b.max_bytes as nat) + ")"@
                    } else {
                        r == Ok::<Option<SampleRead>, DemuxError>(Some(read_of(old(self).track_list(), e)))
                    },
                    None => r == Ok::<Option<SampleRead>, DemuxError>(Some(read_of(old(self).track_list(), e))),
                }
            },
    {
        proof {
            use_type_invariant(&*self);
        }
        if self.position >= self.read_order.len() {
            return Ok(None);
        }
        let (track_idx, sample_idx) = self.read_order[self.position];
        assert(entry_valid(self.mp4_tracks@, self.read_order@[self.position as int]));
        self.position = self.position + 1;
        let track = &self.mp4_tracks[track_idx];
        let sample = &track.sample_table.entries[sample_idx];
        match self.budget {
            Some(b) => {
                match b.max_frames {
                    Some(max_frames) => {
                        if self.packets_read >= max_frames {
                            let mut message = String::new();
                            push_text(&mut message, "packet count (");
                            push_dec(&mut message, self.packets_read);
                            push_text(&mut message, ") exceeds budget (");
                            push_dec(&mut message, max_frames);
                            push_text(&mut message, " frames)");
                            return Err(Mp4Error::ResourceExhausted { message }.into_demux_error());
                        }
                    },
                    None => {},
                }
                let size = sample.size as u64;
                if self.bytes_read as u128 + size as u128 > b.max_bytes as u128 {
                    let mut message = String::new();
                    push_text(&mut message, "reading sample (");
                    push_dec(&mut message, size);
                    push_text(&mut message, " bytes) would exceed byte budget (");
                    push_dec(&mut message, self.bytes_read);
                    push_text(&mut message, " + ");
                    push_dec(&mut message, size);
                    push_text(&mut message, " > ");
                    push_dec(&mut message, b.max_bytes);
                    push_text(&mut message, ")");
                    return Err(Mp4Error::ResourceExhausted { message }.into_demux_error());
                }
            },
            None => {},
        }
        Ok(Some(SampleRead {
            track_index: track_idx as u32,
            offset: sample.offset,
            size: sample.size,
            dts: sample.dts,
            cts_offset: sample.cts_offset,
            is_keyframe: sample.is_keyframe,
            timescale: track.sample_table.timescale,
        }))
    }

    /// Counts a read sample and makes the packet of its bytes. Fails when the
    /// track's timescale is zero or the presentation time overflows `i64`.
    pub fn finish_packet(&mut self, read: &SampleRead, data: Vec<u8>) -> (r: Result<Packet, DemuxError>)
        ensures
            final(self).track_list() == old(self).track_list(),
            final(self).infos() == old(self).infos(),
            final(self).order() == old(self).order(),
            final(self).pos() == old(self).pos(),
            final(self).budget_of() == old(self).budget_of(),
            final(self).metadata_list() == old(self).metadata_list(),
            final(self).bytes_so_far() == (if old(self).bytes_so_far() + read.size > u64::MAX {
                u64::MAX as int
            } else {
                old(self).bytes_so_far() + read.size
            }),
            final(self).packets_so_far() == (if old(self).packets_so_far() == u64::MAX {
                u64::MAX as int
            } else {
                old(self).packets_so_far() + 1
            }),
            read.timescale == 0 ==> (r matches Err(DemuxError::InvalidContainer { offset, message })
                && offset == read.offset && message@ == "track timescale is zero (track "@
                + dec(read.track_index as nat) + ")"@),
            read.timescale > 0 && !(i64::MIN <= read.dts + read.cts_offset <= i64::MAX) ==> (r matches Err(
                DemuxError::InvalidContainer { offset, message },
            ) && offset == read.offset && message@ == "presentation time overflows (track "@
                + dec(read.track_index as nat) + ")"@),
            read.timescale > 0 && i64::MIN <= read.dts + read.cts_offset <= i64::MAX ==> (r matches Ok(p)
                && p.track_index == TrackIndex(read.track_index) && p.dts.ticks() == read.dts
                && p.dts.timebase() == read.timescale && p.pts.ticks() == read.dts + read.cts_offset
                && p.pts.timebase() == read.timescale && p.is_keyframe == read.is_keyframe && p.data@ == data@),
    {
        proof {
            use_type_invariant(&*self);
        }
        self.bytes_read = self.bytes_read.saturating_add(read.size as u64);
        self.packets_read = self.packets_read.saturating_add(1);
        let dts = match Timestamp::new(read.dts, read.timescale) {
            Some(t) => t,
            None => {
                let mut message = String::new();
                push_text(&mut message, "track timescale is zero (track ");
                push_dec(&mut message, read.track_index as u64);
                push_text(&mut message, ")");
                return Err(DemuxError::InvalidContainer { offset: read.offset, message });
            },
        };
        let pts_ticks = match read.dts.checked_add(read.cts_offset as i64) {
            Some(t) => t,
            None => {
                let mut message = String::new();
                push_text(&mut message, "presentation time overflows (track ");
                push_dec(&mut message, read.track_index as u64);
                push_text(&mut message, ")");
                return Err(DemuxError::InvalidContainer { offset: read.offset, message });
            },
        };
        let pts = match Timestamp::new(pts_ticks, read.timescale) {
            Some(t) => t,
            None => {
                let mut message = String::new();
                push_text(&mut message, "track timescale is zero (track ");
                push_dec(&mut message, read.track_index as u64);
                push_text(&mut message, ")");
                return Err(DemuxError::InvalidContainer { offset: read.offset, message });
            },
        };
        Ok(Packet { track_index: TrackIndex(read.track_index), pts, dts, is_keyframe: read.is_keyframe, data })
    }
}

/// What the caller is told to read for a read-order entry.
pub open spec fn read_of(tracks: Seq<Mp4Track>, e: (usize, usize)) -> SampleRead {
    let s = sample_of(tracks, e);
    SampleRead {
        track_index: e.0 as u32,
        offset: s.offset,
        size: s.size,
        dts: s.dts,
        cts_offset: s.cts_offset,
        is_keyframe: s.is_keyframe,
        timescale: tracks[e.0 as int].sample_table.timescale,
    }
}

/// Index of the first video track.
pub open spec fn first_video(tracks: Seq<Mp4Track>) -> Option<int>
    decreases tracks.len(),
{
    if tracks.len() == 0 {
        None
    } else {
        match first_video(tracks.drop_last()) {
            Some(i) => Some(i),
            None => if tracks.last().handler_type is Video { Some(tracks.len() - 1) } else { None },
        }
    }
}

/// The track a seek works on: the first video track, else the first track.
pub open spec fn seek_track(tracks: Seq<Mp4Track>) -> Option<int> {
    match first_video(tracks) {
        Some(i) => Some(i),
        None => if tracks.len() > 0 { Some(0) } else { None },
    }
}

/// Index of the last sample whose decode time is at most `target`.
pub open spec fn last_at_or_before(e: Seq<SampleEntry>, target: int) -> Option<int>
    decreases e.len(),
{
    if e.len() == 0 {
        None
    } else if e.last().dts <= target {
        Some(e.len() - 1)
    } else {
        last_at_or_before(e.drop_last(), target)
    }
}

/// Index of the last keyframe among the first `n` samples.
pub open spec fn last_keyframe(e: Seq<SampleEntry>, n: int) -> Option<int>
    decreases n,
{
    if n <= 0 {
        None
    } else if e[n - 1].is_keyframe {
        Some(n - 1)
    } else {
        last_keyframe(e, n - 1)
    }
}

/// Index of the first keyframe.
pub open spec fn first_keyframe(e: Seq<SampleEntry>) -> Option<int>
    decreases e.len(),
{
    if e.len() == 0 {
        None
    } else {
        match first_keyframe(e.drop_last()) {
            Some(i) => Some(i),
            None => if e.last().is_keyframe { Some(e.len() - 1) } else { None },
        }
    }
}

/// Position of the first read-order entry equal to `x`.
pub open spec fn order_position(o: Seq<(usize, usize)>, x: (usize, usize)) -> Option<int>
    decreases o.len(),
{
    if o.len() == 0 {
        None
    } else {
        match order_position(o.drop_last(), x) {
            Some(i) => Some(i),
            None => if o.last() == x { Some(o.len() - 1) } else { None },
        }
    }
}

/// The target's tick count in timescale `ts` (`ts > 0`), when it fits `i64`.
pub open spec fn target_in(target: Timestamp, ts: u32) -> Option<int> {
    if target.timebase() == ts {
        Some(target.ticks() as int)
    } else if i64::MIN <= target.rescaled_ticks(ts) <= i64::MAX {
        Some(target.rescaled_ticks(ts))
    } else {
        None
    }
}

/// What seeking to `target` comes to: the read position to resume at, or the
/// error's message.
pub enum SeekOutcome {
    At(int),
    Fails(Seq<char>),
}

pub open spec fn seek_outcome(tracks: Seq<Mp4Track>, order: Seq<(usize, usize)>, target: Timestamp, mode: SeekMode) -> SeekOutcome {
    match seek_track(tracks) {
        None => SeekOutcome::Fails("no tracks available for seeking"@),
        Some(ti) => {
            let t = tracks[ti];
            let e = t.sample_table.entries@;
            let ts = t.sample_table.timescale;
            if e.len() == 0 {
                SeekOutcome::Fails("sample table is empty, cannot seek"@)
            } else if ts == 0 || target_in(target, ts) is None {
                SeekOutcome::Fails("cannot rescale seek target to track timescale "@ + dec(ts as nat))
            } else {
                let at = match last_at_or_before(e, target_in(target, ts)->Some_0) {
                    Some(i) => i,
                    None => 0,
                };
                let chosen = match mode {
                    SeekMode::Precise => Some(at),
                    SeekMode::Keyframe => match last_keyframe(e, at + 1) {
                        Some(k) => Some(k),
                        None => first_keyframe(e),
                    },
                };
                match chosen {
                    None => SeekOutcome::Fails("no keyframes found in sample table"@),
                    Some(c) => match order_position(order, (ti as usize, c as usize)) {
                        Some(p) => SeekOutcome::At(p),
                        None => SeekOutcome::Fails("seek target sample "@ + dec(c as nat) + " not found in read order"@),
                    },
                }
            }
        },
    }
}

impl Seekable for Mp4Demuxer {
    /// Moves the read position to the sample of the first video track (else
    /// the first track) at or before `target` (the first sample when all are
    /// later); in keyframe mode, to the last keyframe up to that sample, else
    /// the first keyframe.
    fn seek(&mut self, target: Timestamp, mode: SeekMode) -> (r: Result<(), DemuxError>)
        ensures
            final(self).track_list() == old(self).track_list(),
            final(self).infos() == old(self).infos(),
            final(self).order() == old(self).order(),
            final(self).budget_of() == old(self).budget_of(),
            final(self).bytes_so_far() == old(self).bytes_so_far(),
            final(self).packets_so_far() == old(self).packets_so_far(),
            final(self).metadata_list() == old(self).metadata_list(),
            match seek_outcome(old(self).track_list(), old(self).order(), target, mode) {
                SeekOutcome::At(p) => r is Ok && final(self).pos() == p,
                SeekOutcome::Fails(m) => (r matches Err(DemuxError::InvalidContainer { offset, message })
                    && offset == 0 && message@ == m) && final(self).pos() == old(self).pos(),
            },
    {
        proof {
            use_type_invariant(&*self);
        }
        let ti: usize = match find_video(&self.mp4_tracks) {
            Some(i) => i,
            None => {
                if self.mp4_tracks.len() == 0 {
                    let mut message = String::new();
                    push_text(&mut message, "no tracks available for seeking");
                    return Err(DemuxError::InvalidContainer { offset: 0, message });
                }
                0
            },
        };
        let track = &self.mp4_tracks[ti];
        let entries = &track.sample_table.entries;
        let ts = track.sample_table.timescale;
        if entries.len() == 0 {
            let mut message = String::new();
            push_text(&mut message, "sample table is empty, cannot seek");
            return Err(DemuxError::InvalidContainer { offset: 0, message });
        }
        let rescaled = if ts == 0 {
            None
        } else {
            target.rescale(ts)
        };
        let target_ticks = match rescaled {
            Some(t) => t.ticks(),
            None => {
                let mut message = String::new();
                push_text(&mut message, "cannot rescale seek target to track timescale ");
                push_dec(&mut message, ts as u64);
                return Err(DemuxError::InvalidContainer { offset: 0, message });
            },
        };
        let at: usize = match find_last_at_or_before(entries, target_ticks) {
            Some(i) => i,
            None => 0,
        };
        let chosen: usize = match mode {
            SeekMode::Precise => at,
            SeekMode::Keyframe => match find_last_keyframe(entries, at + 1) {
                Some(k) => k,
                None => match find_first_keyframe(entries) {
                    Some(f) => f,
                    None => {
                        let mut message = String::new();
                        push_text(&mut message, "no keyframes found in sample table");
                        return Err(DemuxError::InvalidContainer { offset: 0, message });
                    },
                },
            },
        };
        match find_in_order(&self.read_order, (ti, chosen)) {
            Some(p) => {
                self.position = p;
                Ok(())
            },
            None => {
                let mut message = String::new();
                push_text(&mut message, "seek target sample ");
                push_dec(&mut message, chosen as u64);
                push_text(&mut message, " not found in read order");
                Err(DemuxError::InvalidContainer { offset: 0, message })
            },
        }
    }
}

fn find_video(t: &Vec<Mp4Track>) -> (r: Option<usize>)
    ensures
        match r {
            Some(i) => first_video(t@) == Some(i as int) && i < t@.len(),
            None => first_video(t@) is None,
        },
{
    let mut i: usize = 0;
    while i < t.len()
        invariant
            i <= t@.len(),
            first_video(t@.take(i as int)) is None,
        decreases t@.len() - i,
    {
        proof {
            assert(t@.take(i + 1).drop_last() =~= t@.take(i as int));
        }
        if t[i].is_video() {
            proof {
                lemma_first_video_prefix(t@, i as int + 1);
            }
            return Some(i);
        }
        i = i + 1;
    }
    proof {
        assert(t@.take(t@.len() as int) =~= t@);
    }
    None
}

fn find_last_at_or_before(e: &Vec<SampleEntry>, target: i64) -> (r: Option<usize>)
    ensures
        match r {
            Some(i) => last_at_or_before(e@, target as int) == Some(i as int) && i < e@.len(),
            None => last_at_or_before(e@, target as int) is None,
        },
{
    let mut k: usize = e.len();
    proof {
        assert(e@.take(k as int) =~= e@);
    }
    while k > 0
        invariant
            k <= e@.len(),
            last_at_or_before(e@, target as int) == last_at_or_before(e@.take(k as int), target as int),
        decreases k,
    {
        proof {
            assert(e@.take(k as int).drop_last() =~= e@.take(k - 1));
        }
        if e[k - 1].dts <= target {
            return Some(k - 1);
        }
        k = k - 1;
    }
    None
}

fn find_last_keyframe(e: &Vec<SampleEntry>, n: usize) -> (r: Option<usize>)
    requires
        n <= e@.len(),
    ensures
        match r {
            Some(i) => last_keyframe(e@, n as int) == Some(i as int) && i < e@.len(),
            None => last_keyframe(e@, n as int) is None,
        },
{
    let mut j: usize = n;
    while j > 0
        invariant
            j <= n <= e@.len(),
            last_keyframe(e@, n as int) == last_keyframe(e@, j as int),
        decreases j,
    {
        if e[j - 1].is_keyframe {
            return Some(j - 1);
        }
        j = j - 1;
    }
    None
}

fn find_first_keyframe(e: &Vec<SampleEntry>) -> (r: Option<usize>)
    ensures
        match r {
            Some(i) => first_keyframe(e@) == Some(i as int) && i < e@.len(),
            None => first_keyframe(e@) is None,
        },
{
    let mut f: usize = 0;
    while f < e.len()
        invariant
            f <= e@.len(),
            first_keyframe(e@.take(f as int)) is None,
        decreases e@.len() - f,
    {
        proof {
            assert(e@.take(f + 1).drop_last() =~= e@.take(f as int));
        }
        if e[f].is_keyframe {
            proof {
                lemma_first_keyframe_prefix(e@, f as int + 1);
            }
            return Some(f);
        }
        f = f + 1;
    }
    proof {
        assert(e@.take(e@.len() as int) =~= e@);
    }
    None
}

fn find_in_order(o: &Vec<(usize, usize)>, x: (usize, usize)) -> (r: Option<usize>)
    ensures
        match r {
            Some(i) => order_position(o@, x) == Some(i as int) && i < o@.len(),
            None => order_position(o@, x) is None,
        },
{
    let mut p: usize = 0;
    while p < o.len()
        invariant
            p <= o@.len(),
            order_position(o@.take(p as int), x) is None,
        decreases o@.len() - p,
    {
        proof {
            assert(o@.take(p + 1).drop_last() =~= o@.take(p as int));
        }
        let (a, b) = o[p];
        if a == x.0 && b == x.1 {
            proof {
                lemma_order_position_prefix(o@, x, p as int + 1);
            }
            return Some(p);
        }
        p = p + 1;
    }
    proof {
        assert(o@.take(o@.len() as int) =~= o@);
    }
    None
}

proof fn lemma_first_video_prefix(t: Seq<Mp4Track>, k: int)
    requires
        0 < k <= t.len(),
        first_video(t.take(k - 1)) is None,
        t[k - 1].handler_type is Video,
    ensures
        first_video(t) == Some(k - 1),
    decreases t.len() - k,
{
    assert(t.take(k).drop_last() =~= t.take(k - 1));
    if k < t.len() {
        lemma_first_video_extend(t, k);
    } else {
        assert(t.take(k) =~= t);
    }
}

proof fn lemma_first_video_extend(t: Seq<Mp4Track>, k: int)
    requires
        0 < k <= t.len(),
        first_video(t.take(k)) is Some,
    ensures
        first_video(t) == first_video(t.take(k)),
    decreases t.len() - k,
{
    if k < t.len() {
        assert(t.take(k + 1).drop_last() =~= t.take(k));
        lemma_first_video_extend(t, k + 1);
    } else {
        assert(t.take(k) =~= t);
    }
}

proof fn lemma_first_keyframe_prefix(e: Seq<SampleEntry>, k: int)
    requires
        0 < k <= e.len(),
        first_keyframe(e.take(k - 1)) is None,
        e[k - 1].is_keyframe,
    ensures
        first_keyframe(e) == Some(k - 1),
    decreases e.len() - k,
{
    assert(e.take(k).drop_last() =~= e.take(k - 1));
    lemma_first_keyframe_extend(e, k);
}

proof fn lemma_first_keyframe_extend(e: Seq<SampleEntry>, k: int)
    requires
        0 < k <= e.len(),
        first_keyframe(e.take(k)) is Some,
    ensures
        first_keyframe(e) == first_keyframe(e.take(k)),
    decreases e.len() - k,
{
    if k < e.len() {
        assert(e.take(k + 1).drop_last() =~= e.take(k));
        lemma_first_keyframe_extend(e, k + 1);
    } else {
        assert(e.take(k) =~= e);
    }
}

proof fn lemma_order_position_prefix(o: Seq<(usize, usize)>, x: (usize, usize), k: int)
    requires
        0 < k <= o.len(),
        order_position(o.take(k - 1), x) is None,
        o[k - 1] == x,
    ensures
        order_position(o, x) == Some(k - 1),
    decreases o.len() - k,
{
    assert(o.take(k).drop_last() =~= o.take(k - 1));
    lemma_order_position_extend(o, x, k);
}

proof fn lemma_order_position_extend(o: Seq<(usize, usize)>, x: (usize, usize), k: int)
    requires
        0 < k <= o.len(),
        order_position(o.take(k), x) is Some,
    ensures
        order_position(o, x) == order_position(o.take(k), x),
    decreases o.len() - k,
{
    if k < o.len() {
        assert(o.take(k + 1).drop_last() =~= o.take(k));
        lemma_order_position_extend(o, x, k + 1);
    } else {
        assert(o.take(k) =~= o);
    }
}

/// Lexicographic order on triples.
pub open spec fn triple_le(a: (u64, u64, u64), b: (u64, u64, u64)) -> bool {
    a.0 < b.0 || (a.0 == b.0 && (a.1 < b.1 || (a.1 == b.1 && a.2 <= b.2)))
}

/// Sorts triples in ascending lexicographic order (`<[T]>::sort`).
#[verifier::external_body]
fn sort_triples(v: &mut Vec<(u64, u64, u64)>)
    ensures
        final(v)@.to_multiset() == old(v)@.to_multiset(),
        forall|i: int, j: int| 0 <= i < j < final(v)@.len() ==> triple_le(final(v)@[i], final(v)@[j]),
{
    v.sort();
}

/// The sort key of a read-order entry: the sample's file offset, then the
/// track and sample indices (so equal offsets keep track-then-sample order).
pub open spec fn order_key(tracks: Seq<Mp4Track>, e: (usize, usize)) -> (u64, u64, u64) {
    (sample_of(tracks, e).offset, e.0 as u64, e.1 as u64)
}

/// The sort keys of a read order.
pub open spec fn order_keys(tracks: Seq<Mp4Track>, o: Seq<(usize, usize)>) -> Seq<(u64, u64, u64)> {
    Seq::new(o.len(), |i: int| order_key(tracks, o[i]))
}

/// The sort keys of every sample of the first `n` tracks, track by track.
pub open spec fn all_keys(tracks: Seq<Mp4Track>, n: int) -> Seq<(u64, u64, u64)>
    decreases n,
{
    if n <= 0 {
        seq![]
    } else {
        let t = tracks[n - 1];
        all_keys(tracks, n - 1) + Seq::new(
            t.sample_table.entries@.len(),
            |s: int| (t.sample_table.entries@[s].offset, (n - 1) as u64, s as u64),
        )
    }
}

/// Whether a key names an existing sample and carries its offset.
pub open spec fn key_ok(tracks: Seq<Mp4Track>, k: (u64, u64, u64)) -> bool {
    &&& k.1 < tracks.len()
    &&& k.2 < tracks[k.1 as int].sample_table.entries@.len()
    &&& k.0 == tracks[k.1 as int].sample_table.entries@[k.2 as int].offset
}

proof fn lemma_all_keys_ok(tracks: Seq<Mp4Track>, n: int)
    requires
        0 <= n <= tracks.len(),
        tracks.len() <= u64::MAX,
        forall|i: int| 0 <= i < tracks.len() ==> (#[trigger] tracks[i]).sample_table.entries@.len() <= u32::MAX,
    ensures
        forall|i: int| 0 <= i < all_keys(tracks, n).len() ==> key_ok(tracks, #[trigger] all_keys(tracks, n)[i]),
    decreases n,
{
    if n > 0 {
        lemma_all_keys_ok(tracks, n - 1);
        let prev = all_keys(tracks, n - 1);
        let t = tracks[n - 1];
        let add = Seq::new(
            t.sample_table.entries@.len(),
            |s: int| (t.sample_table.entries@[s].offset, (n - 1) as u64, s as u64),
        );
        assert forall|i: int| 0 <= i < all_keys(tracks, n).len() implies key_ok(tracks, #[trigger] all_keys(tracks, n)[i]) by {
            if i < prev.len() {
                assert(all_keys(tracks, n)[i] == prev[i]);
            } else {
                assert(all_keys(tracks, n)[i] == add[i - prev.len()]);
                assert(t.sample_table.entries@.len() <= u32::MAX);
            }
        }
    }
}

/// Builds the read order: every sample of every track, sorted by file
/// offset (equal offsets in track, then sample, order).
fn build_read_order(tracks: &Vec<Mp4Track>) -> (r: Vec<(usize, usize)>)
    requires
        forall|i: int| 0 <= i < tracks@.len() ==> (#[trigger] tracks@[i]).sample_table.entries@.len() <= u32::MAX,
    ensures
        forall|i: int| 0 <= i < r@.len() ==> entry_valid(tracks@, #[trigger] r@[i]),
        order_keys(tracks@, r@).to_multiset() == all_keys(tracks@, tracks@.len() as int).to_multiset(),
        forall|i: int, j: int| 0 <= i < j < r@.len() ==> triple_le(order_key(tracks@, r@[i]), order_key(tracks@, r@[j])),
{
    let mut keys: Vec<(u64, u64, u64)> = Vec::new();
    let mut t: usize = 0;
    while t < tracks.len()
        invariant
            t <= tracks@.len(),
            keys@ == all_keys(tracks@, t as int),
        decreases tracks@.len() - t,
    {
        let entries = &tracks[t].sample_table.entries;
        let ghost start = keys@;
        let mut s: usize = 0;
        while s < entries.len()
            invariant
                s <= entries@.len(),
                t < tracks@.len(),
                entries@ == tracks@[t as int].sample_table.entries@,
                keys@ == start + Seq::new(s as nat, |k: int| (entries@[k].offset, t as u64, k as u64)),
            decreases entries@.len() - s,
        {
            keys.push((entries[s].offset, t as u64, s as u64));
            s = s + 1;
            assert(keys@ =~= start + Seq::new(s as nat, |k: int| (entries@[k].offset, t as u64, k as u64)));
        }
        t = t + 1;
        assert(keys@ =~= all_keys(tracks@, t as int));
    }
    let ghost unsorted = keys@;
    sort_triples(&mut keys);
    let _n = tracks.len();
    proof {
        lemma_all_keys_ok(tracks@, tracks@.len() as int);
        broadcast use vstd::seq_lib::group_to_multiset_ensures;
        assert forall|i: int| 0 <= i < keys@.len() implies key_ok(tracks@, #[trigger] keys@[i]) by {
            assert(keys@.contains(keys@[i]));
            assert(keys@.to_multiset().count(keys@[i]) > 0);
            assert(unsorted.contains(keys@[i]));
        }
    }
    let mut order: Vec<(usize, usize)> = Vec::new();
    let mut i: usize = 0;
    while i < keys.len()
        invariant
            i <= keys@.len(),
            forall|k: int| 0 <= k < keys@.len() ==> key_ok(tracks@, #[trigger] keys@[k]),
            order@.len() == i,
            forall|k: int| 0 <= k < i ==> order@[k] == ((#[trigger] keys@[k]).1 as usize, keys@[k].2 as usize),
        decreases keys@.len() - i,
    {
        let (_, a, b) = keys[i];
        assert(key_ok(tracks@, keys@[i as int]));
        order.push((a as usize, b as usize));
        i = i + 1;
    }
    proof {
        assert(order_keys(tracks@, order@) =~= keys@) by {
            assert forall|k: int| 0 <= k < keys@.len() implies #[trigger] order_keys(tracks@, order@)[k] == keys@[k] by {
                assert(key_ok(tracks@, keys@[k]));
            }
        }
        assert forall|k: int| 0 <= k < order@.len() implies entry_valid(tracks@, #[trigger] order@[k]) by {
            assert(key_ok(tracks@, keys@[k]));
        }
        assert forall|a: int, b: int| 0 <= a < b < order@.len() implies
            triple_le(order_key(tracks@, order@[a]), order_key(tracks@, order@[b])) by {
            assert(key_ok(tracks@, keys@[a]));
            assert(key_ok(tracks@, keys@[b]));
            assert(order_key(tracks@, order@[a]) == keys@[a]);
            assert(order_key(tracks@, order@[b]) == keys@[b]);
        }
    }
    order
}

/// Appends the bytes of a metadata box, header included, rebuilt from its
/// parsed header and body.
fn metadata_bytes(header: &crate::mp4::boxes::BoxHeader, body: &[u8]) -> (r: Vec<u8>)
    ensures
        header.header_size == 16 ==> r@ == crate::wire::u32_bytes(1) + header.box_type.0@
            + crate::wire::u64_bytes(header.size as usize as u64) + body@,
        header.header_size != 16 ==> r@ == crate::wire::u32_bytes(header.size as usize as u32)
            + header.box_type.0@ + body@,
{
    let total_size = header.size as usize;
    let mut raw: Vec<u8> = Vec::new();
    if header.header_size == 16 {
        push_u32(&mut raw, 1);
        raw.push(header.box_type.0[0]);
        raw.push(header.box_type.0[1]);
        raw.push(header.box_type.0[2]);
        raw.push(header.box_type.0[3]);
        push_u64(&mut raw, total_size as u64);
    } else {
        push_u32(&mut raw, total_size as u32);
        raw.push(header.box_type.0[0]);
        raw.push(header.box_type.0[1]);
        raw.push(header.box_type.0[2]);
        raw.push(header.box_type.0[3]);
    }
    push_slice(&mut raw, body);
    proof {
        if header.header_size == 16 {
            assert(raw@ =~= crate::wire::u32_bytes(1) + header.box_type.0@
                + crate::wire::u64_bytes(header.size as usize as u64) + body@);
        } else {
            assert(raw@ =~= crate::wire::u32_bytes(header.size as usize as u32) + header.box_type.0@ + body@);
        }
    }
    raw
}

impl Mp4Demuxer {
    /// Builds the demuxing state from the body of a moov box: the movie
    /// header, every video and audio track, the udta and meta boxes, and the
    /// read order of all samples sorted by file offset. Fails with the first
    /// box or track that does not parse, when mvhd is missing, and when
    /// every track was skipped for an unsupported codec.
    pub fn from_moov(moov: &[u8], budget: Option<ResourceBudget>) -> (r: Result<Mp4Demuxer, Mp4Error>)
        ensures
            r matches Ok(d) ==> opened_from(d, moov@, budget),
            r is Ok <==> moov_parses(moov@),
            r matches Err(e) ==> moov_error(e, moov@),
    {
        let _moov_len = moov.len();
        let mvhd_box = match require_box(moov, FourCC::mvhd(), 0, "mvhd") {
            Ok(b) => b,
            Err(e) => return Err(e),
        };
        let movie_header = match mvhd::parse_mvhd(mvhd_box.body, mvhd_box.offset) {
            Ok(h) => h,
            Err(e) => return Err(e),
        };
        let mut mp4_tracks: Vec<Mp4Track> = Vec::new();
        let mut metadata_boxes: Vec<MetadataBox> = Vec::new();
        let mut skipped_codecs: Vec<String> = Vec::new();
        let mut it = iter_boxes(moov, 0);
        let ghost mut visited: Seq<int> = seq![];
        let ghost mut ps: Seq<int> = seq![];
        let ghost mut ms: Seq<int> = seq![];
        proof {
            assert(movie_header.timescale == movie_timescale(moov@));
        }
        loop
            invariant_except_break
                it.spec_data() == moov@,
                it.spec_base() == 0,
                it.spec_position() <= moov@.len(),
                moov@.len() <= u64::MAX,
            invariant
                walk_positions(moov@, 0) == visited + walk_positions(moov@, it.spec_position()),
                forall|k: int| 0 <= k < visited.len() ==> #[trigger] visited[k] < it.spec_position(),
                has_box(moov@, seq![0x6du8, 0x76u8, 0x68u8, 0x64u8]),
                version_fits(found_body(moov@, seq![0x6du8, 0x76u8, 0x68u8, 0x64u8]), 20, 32),
                movie_header.timescale == movie_timescale(moov@),
                walk_ok_from(moov@, 0, movie_timescale(moov@)) == walk_ok_from(moov@, it.spec_position(), movie_timescale(moov@)),
                forall|e: Mp4Error| walk_error_from(e, moov@, 0, movie_timescale(moov@))
                    == #[trigger] walk_error_from(e, moov@, it.spec_position(), movie_timescale(moov@)),
                skipped_codecs@.len() == 0,
                ps == visited.filter(|q: int| kept_trak(moov@, q)),
                ms == visited.filter(|q: int| is_meta_at(moov@, q)),
                metadata_from(moov@, ms, metadata_boxes@),
                ps.len() == mp4_tracks@.len(),
                forall|i: int, j: int| 0 <= i < j < ps.len() ==> ps[i] < ps[j],
                forall|i: int| 0 <= i < ps.len() ==> {
                    &&& visited.contains(#[trigger] ps[i])
                    &&& moov@.subrange(ps[i] + 4, ps[i] + 8) == seq![0x74u8, 0x72u8, 0x61u8, 0x6bu8]
                    &&& track_read(mp4_tracks@[i], body_at(moov@, ps[i]), movie_timescale(moov@))
                },
                forall|i: int| 0 <= i < mp4_tracks@.len() ==> {
                    let t = #[trigger] mp4_tracks@[i];
                    &&& (t.handler_type is Video || t.handler_type is Audio)
                    &&& t.sample_table.entries@.len() <= u32::MAX
                },
            ensures
                walk_positions(moov@, it.spec_position()) == Seq::<int>::empty(),
                walk_ok_from(moov@, it.spec_position(), movie_timescale(moov@)),
            decreases moov@.len() - it.spec_position(),
        {
            let ghost p = it.spec_position();
            let ghost ts = movie_timescale(moov@);
            match it.next_box() {
                None => {
                    proof {
                        assert(walk_ok_from(moov@, p, ts));
                        assert(walk_positions(moov@, p) =~= Seq::<int>::empty());
                        assert(visited + walk_positions(moov@, p) =~= visited);
                    }
                    break;
                },
                Some(Err(e)) => {
                    proof {
                        assert(!walk_ok_from(moov@, p, ts));
                        assert(walk_error_from(e, moov@, p, ts) == step_error(e, moov@, p, 0));
                        assert(walk_error_from(e, moov@, 0, ts) == walk_error_from(e, moov@, p, ts));
                    }
                    return Err(e);
                },
                Some(Ok(parsed)) => {
                    let ghost q = it.spec_position();
                    proof {
                        crate::mp4::track_parsing::lemma_box_in_data(moov@, p);
                        assert(walk_positions(moov@, p) == seq![p] + walk_positions(moov@, q));
                        assert(visited + (seq![p] + walk_positions(moov@, q)) =~= visited.push(p)
                            + walk_positions(moov@, q));
                        let old_visited = visited;
                        visited = visited.push(p);
                        assert forall|x: int| old_visited.contains(x) implies visited.contains(x) by {
                            let j = choose|j: int| 0 <= j < old_visited.len() && old_visited[j] == x;
                            assert(visited[j] == x);
                        }
                        assert(visited[visited.len() - 1] == p);
                        assert(visited.contains(p));
                        old_visited.lemma_filter_push(p, |x: int| kept_trak(moov@, x));
                        old_visited.lemma_filter_push(p, |x: int| is_meta_at(moov@, x));
                        assert(parsed.body@ == body_at(moov@, p));
                        assert(is_trak_at(moov@, p) == (parsed.header.box_type.0@ == seq![0x74u8, 0x72u8, 0x61u8, 0x6bu8]));
                    }
                    if parsed.header.box_type.same(&FourCC::trak()) {
                        proof {
                            assert(!is_meta_at(moov@, p)) by {
                                assert(seq![0x74u8, 0x72u8, 0x61u8, 0x6bu8][0] != seq![0x75u8, 0x64u8, 0x74u8, 0x61u8][0]);
                                assert(seq![0x74u8, 0x72u8, 0x61u8, 0x6bu8][0] != seq![0x6du8, 0x65u8, 0x74u8, 0x61u8][0]);
                            }
                        }
                        match parse_track(parsed.body, parsed.offset, &movie_header) {
                            Ok(track) => {
                                proof {
                                    assert(walk_ok_from(moov@, p, ts) == walk_ok_from(moov@, q, ts));
                                    assert forall|e: Mp4Error| walk_error_from(e, moov@, 0, ts)
                                        == #[trigger] walk_error_from(e, moov@, q, ts) by {
                                        assert(walk_error_from(e, moov@, p, ts) == walk_error_from(e, moov@, q, ts));
                                    }
                                }
                                if track.is_video() || track.is_audio() {
                                    let ghost old_tracks = mp4_tracks@;
                                    mp4_tracks.push(track);
                                    proof {
                                        assert(moov@.subrange(p + 4, p + 8) == seq![0x74u8, 0x72u8, 0x61u8, 0x6bu8]);
                                        assert(forall|i: int| 0 <= i < old_tracks.len() ==> mp4_tracks@[i] == old_tracks[i]);
                                        assert(forall|i: int| 0 <= i < ps.len() ==> ps[i] < p);
                                        ps = ps.push(p);
                                    }
                                }
                            },
                            Err(Mp4Error::UnsupportedCodec { fourcc }) => {
                                proof {
                                    crate::mp4::track_parsing::lemma_track_error_not_codec(
                                        Mp4Error::UnsupportedCodec { fourcc },
                                        parsed.body@,
                                        parsed.offset,
                                        movie_header.timescale,
                                    );
                                }
                                skipped_codecs.push(fourcc);
                            },
                            Err(e) => {
                                proof {
                                    assert(!walk_ok_from(moov@, p, ts));
                                    assert(walk_error_from(e, moov@, p, ts) == track_error(e, body_at(moov@, p), p as u64, ts));
                                    assert(walk_error_from(e, moov@, 0, ts) == walk_error_from(e, moov@, p, ts));
                                }
                                return Err(e);
                            },
                        }
                    } else {
                        proof {
                            assert(walk_ok_from(moov@, p, ts) == walk_ok_from(moov@, q, ts));
                            assert forall|e: Mp4Error| walk_error_from(e, moov@, 0, ts)
                                == #[trigger] walk_error_from(e, moov@, q, ts) by {
                                assert(walk_error_from(e, moov@, p, ts) == walk_error_from(e, moov@, q, ts));
                            }
                        }
                        if parsed.header.box_type.same(&FourCC::udta()) || parsed.header.box_type.same(&FourCC::meta()) {
                            let data = metadata_bytes(&parsed.header, parsed.body);
                            let ghost old_boxes = metadata_boxes@;
                            metadata_boxes.push(MetadataBox { box_type: parsed.header.box_type, data });
                            proof {
                                assert(is_meta_at(moov@, p));
                                assert(data@ == meta_bytes_at(moov@, p));
                                assert(forall|i: int| 0 <= i < old_boxes.len() ==> metadata_boxes@[i] == old_boxes[i]);
                                ms = ms.push(p);
                            }
                        } else {
                            proof {
                                assert(!is_meta_at(moov@, p));
                            }
                        }
                    }
                },
            }
        }
        if mp4_tracks.len() == 0 && skipped_codecs.len() > 0 {
            let mut fourcc = String::new();
            let mut i: usize = 0;
            while i < skipped_codecs.len()
                invariant
                    i <= skipped_codecs@.len(),
                decreases skipped_codecs@.len() - i,
            {
                if i > 0 {
                    push_text(&mut fourcc, ", ");
                }
                push_text(&mut fourcc, skipped_codecs[i].as_str());
                i = i + 1;
            }
            return Err(Mp4Error::UnsupportedCodec { fourcc });
        }
        let mut tracks: Vec<TrackInfo> = Vec::new();
        let mut i: usize = 0;
        while i < mp4_tracks.len()
            invariant
                i <= mp4_tracks@.len(),
                tracks@.len() == i,
                forall|k: int| 0 <= k < mp4_tracks@.len() ==> {
                    let t = #[trigger] mp4_tracks@[k];
                    &&& (t.handler_type is Video || t.handler_type is Audio)
                    &&& t.sample_table.entries@.len() <= u32::MAX
                },
                forall|k: int| 0 <= k < i ==> describes(#[trigger] tracks@[k], mp4_tracks@[k], TrackIndex(k as u32)),
            decreases mp4_tracks@.len() - i,
        {
            let info = mp4_tracks[i].to_track_info(TrackIndex(i as u32));
            tracks.push(info);
            i = i + 1;
        }
        let read_order = build_read_order(&mp4_tracks);
        proof {
            assert(visited + walk_positions(moov@, it.spec_position()) =~= visited);
            assert(ps == walk_positions(moov@, 0).filter(|q: int| kept_trak(moov@, q)));
            assert(ms == walk_positions(moov@, 0).filter(|q: int| is_meta_at(moov@, q)));
            assert forall|i: int| 0 <= i < ps.len() implies walk_positions(moov@, 0).contains(#[trigger] ps[i]) by {
                let j = choose|j: int| 0 <= j < visited.len() && visited[j] == ps[i];
                assert((visited + walk_positions(moov@, it.spec_position()))[j] == ps[i]);
            }
            assert(tracks_read_from(moov@, ps, mp4_tracks@));
        }
        Ok(Mp4Demuxer {
            tracks,
            mp4_tracks,
            read_order,
            position: 0,
            budget,
            bytes_read: 0,
            packets_read: 0,
            metadata_boxes,
        })
    }
}

/// What to do with a top-level box of the file.
#[derive(Debug, Clone, Copy, PartialEq, Eq, Structural)]
pub enum TopLevelAction {
    /// Read the ftyp body of this many bytes (after the header) and check it parses.
    ReadFtyp { body_size: u64 },
    /// Read the moov body of this many bytes (after the header).
    ReadMoov { body_size: u64 },
    /// Skip the box (mdat, free and the like).
    Skip,
}

/// Decides what to do with the top-level box whose header, read at `pos`,
/// is `header`, and where the next box starts. A size field of 0 extends
/// the box to the end of the file. Fails when the box is smaller than its
/// header, or when a moov body exceeds the budget's byte limit.
pub fn top_level_step(
    header: &crate::mp4::boxes::BoxHeader,
    pos: u64,
    file_size: u64,
    budget: Option<ResourceBudget>,
) -> (r: Result<(TopLevelAction, u64), Mp4Error>)
    requires
        pos < file_size,
    ensures
        ({
            let total: int = if header.size == 0 { file_size - pos } else { header.size as int };
            let body = total - header.header_size;
            let moov = seq![0x6du8, 0x6fu8, 0x6fu8, 0x76u8];
            let ftyp = seq![0x66u8, 0x74u8, 0x79u8, 0x70u8];
            if total < header.header_size {
                (r matches Err(Mp4Error::InvalidBox { offset, message }) && offset == pos
                    && message@ == "box '"@ + header.box_type.spec_text() + "' size too small"@)
            } else if header.box_type.0@ == moov && budget is Some && body > budget->Some_0.max_bytes {
                (r matches Err(Mp4Error::ResourceExhausted { message }) && message@ == "moov box size ("@
                    + dec(body as nat) + " bytes) exceeds budget ("@ + dec(budget->Some_0.max_bytes as nat)
                    + " bytes)"@)
            } else {
                (r matches Ok((action, next)) && next == (if pos + total > u64::MAX { u64::MAX as int } else {
                    pos + total
                }) && action == (if header.box_type.0@ == ftyp {
                    TopLevelAction::ReadFtyp { body_size: body as u64 }
                } else if header.box_type.0@ == moov {
                    TopLevelAction::ReadMoov { body_size: body as u64 }
                } else {
                    TopLevelAction::Skip
                }))
            }
        }),
{
    let total = if header.size == 0 {
        file_size - pos
    } else {
        header.size
    };
    if total < header.header_size as u64 {
        let mut message = String::new();
        push_text(&mut message, "box '");
        let name = header.box_type.to_string();
        push_text(&mut message, name.as_str());
        push_text(&mut message, "' size too small");
        return Err(Mp4Error::InvalidBox { offset: pos, message });
    }
    let body_size = total - header.header_size as u64;
    let next = pos.saturating_add(total);
    if header.box_type.same(&FourCC::ftyp()) {
        return Ok((TopLevelAction::ReadFtyp { body_size }, next));
    }
    if header.box_type.same(&FourCC::moov()) {
        match budget {
            Some(b) => {
                if body_size > b.max_bytes {
                    let mut message = String::new();
                    push_text(&mut message, "moov box size (");
                    push_dec(&mut message, body_size);
                    push_text(&mut message, " bytes) exceeds budget (");
                    push_dec(&mut message, b.max_bytes);
                    push_text(&mut message, " bytes)");
                    return Err(Mp4Error::ResourceExhausted { message });
                }
            },
            None => {},
        }
        return Ok((TopLevelAction::ReadMoov { body_size }, next));
    }
    proof {
        assert(seq![0x6du8, 0x6fu8, 0x6fu8, 0x76u8][0] != seq![0x66u8, 0x74u8, 0x79u8, 0x70u8][0]);
    }
    Ok((TopLevelAction::Skip, next))
}

/// Finishes opening a file once its top-level boxes are scanned: it must
/// have had an ftyp box and a moov box, whose body `moov` holds.
pub fn finish_open(ftyp_found: bool, moov: Option<Vec<u8>>, budget: Option<ResourceBudget>) -> (r: Result<
    Mp4Demuxer,
    Mp4Error,
>)
    ensures
        !ftyp_found ==> r matches Err(Mp4Error::NotMp4),
        ftyp_found && moov is None ==> (r matches Err(Mp4Error::MissingBox { name }) && name == "moov"),
        ftyp_found && moov is Some ==> {
            let m = moov->Some_0@;
            &&& r is Ok <==> moov_parses(m)
            &&& r matches Err(e) ==> moov_error(e, m)
            &&& r matches Ok(d) ==> opened_from(d, m, budget)
        },
{
    if !ftyp_found {
        return Err(Mp4Error::NotMp4);
    }
    match moov {
        Some(m) => Mp4Demuxer::from_moov(m.as_slice(), budget),
        None => Err(Mp4Error::MissingBox { name: "moov" }),
    }
}

} // verus!
