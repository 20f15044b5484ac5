//! Fragmented MP4 (fMP4) muxer state: packets are buffered per track and
//! written as a sequence of (moof + mdat) fragments.
//!
//! Unlike the plain MP4 muxer, nothing is patched afterwards, so the output
//! can be streamed. The file is laid out as:
//!
//! ```text
//! ftyp
//! moov (mvhd + traks with empty stbl + mvex with trex per track)
//! moof (mfhd + traf per track (tfhd + tfdt + trun))
//! mdat
//! moof
//! mdat
//! ...
//! ```
//!
//! The writer stays with the caller; this type decides what is written.

use vstd::prelude::*;
use crate::error::MuxError;
use crate::media::{Packet, TrackIndex, TrackInfo, TrackKind};
use crate::mp4::box_builders::{
    box_bytes, build_dinf, build_hdlr, build_mdhd, build_mvhd, build_smhd, build_stsd, build_tkhd, build_vmhd,
    dinf_box, hdlr_body, hdlr_tag, make_box, mdhd_body, mdhd_tag, mvhd_body, mvhd_tag, sample_entry, smhd_box,
    stsd_tag, tkhd_body, tkhd_tag, vmhd_box, zeros,
};
use crate::mp4::boxes::hdlr::HandlerType;
use crate::mp4::boxes::stsd::{CodecConfig, ConfigView};
use crate::mp4::fmp4_box_builders::{
    build_empty_stco, build_empty_stsc, build_empty_stsz, build_empty_stts, build_mfhd, build_traf, build_trex,
    fragment_steps_fit, mfhd_tag, stco_tag, tfdt_tag, tfhd_tag, traf_tag, trex_tag, trun_body, trun_tag,
    FragmentSample,
};
use crate::mp4::mux_sample_table::{stsc_tag, stsz_tag, stts_tag};
use crate::mp4::muxer::{default_timescale, mdat_tag, mdia_tag, minf_tag, moov_tag, stbl_tag, trak_tag};
use crate::text::{dec, push_dec, push_text};
use crate::wire::{push_slice, u32_bytes, u64_bytes};

verus! {

/// Configuration for fragment flushing behavior.
#[derive(Debug, Clone, Copy)]
pub struct FragmentConfig {
    /// Maximum number of samples per fragment before auto-flushing.
    /// Defaults to 1 (one sample per fragment), which is safest for
    /// streaming but produces more overhead. Higher values reduce overhead.
    pub max_samples_per_fragment: u32,
}

impl Default for FragmentConfig {
    fn default() -> (r: FragmentConfig)
        ensures
            r.max_samples_per_fragment == 1,
    {
        FragmentConfig { max_samples_per_fragment: 1 }
    }
}

/// Per-track state for the fragmented muxer.
pub struct FMuxTrack {
    pub track_info: TrackInfo,
    pub codec_config: CodecConfig,
    pub timescale: u32,
    /// Samples buffered for the current fragment.
    pub pending_samples: Vec<FragmentSample>,
    /// Decode time of the next sample (in track timescale ticks).
    pub base_decode_time: u64,
}

/// The state of a fragmented MP4 muxer.
pub struct FragmentedMp4Muxer {
    tracks: Vec<FMuxTrack>,
    /// Whether the init segment (ftyp + moov) has been written.
    init_written: bool,
    /// Monotonically increasing fragment sequence number.
    sequence_number: u32,
    config: FragmentConfig,
}

/// The codec configuration a track description implies when none is
/// given: an empty avcC for video, stereo with an empty esds for audio.
/// `None` for anything else.
pub open spec fn inferred_fragment_config(info: TrackInfo) -> Option<ConfigView> {
    match (info.kind, info.video, info.audio) {
        (TrackKind::Video, Some(v), _) => Some(
            ConfigView::Avc1 { width: v.width as u16, height: v.height as u16, avcc: seq![], color_space: v.color_space },
        ),
        (TrackKind::Audio, _, Some(a)) => Some(ConfigView::Mp4a { sample_rate: a.sample_rate, channel_count: 2, esds: seq![] }),
        _ => None,
    }
}

pub open spec fn mvex_tag() -> Seq<u8> { seq![0x6du8, 0x76u8, 0x65u8, 0x78u8] }
pub open spec fn moof_tag() -> Seq<u8> { seq![0x6du8, 0x6fu8, 0x6fu8, 0x66u8] }

/// The trak box of the init segment for a track: zero durations and an
/// empty sample table after the sample description.
pub open spec fn init_trak_box(t: FMuxTrack, track_id: u32) -> Seq<u8> {
    let w: u32 = match t.track_info.video { Some(v) => v.width, None => 0 };
    let h: u32 = match t.track_info.video { Some(v) => v.height, None => 0 };
    let video = t.track_info.kind == TrackKind::Video;
    box_bytes(trak_tag(),
        box_bytes(tkhd_tag(), tkhd_body(track_id, 0, w, h))
        + box_bytes(mdia_tag(),
            box_bytes(mdhd_tag(), mdhd_body(t.timescale, 0))
            + box_bytes(hdlr_tag(), hdlr_body(if video { HandlerType::Video } else { HandlerType::Audio }))
            + box_bytes(minf_tag(), (if video { vmhd_box() } else { smhd_box() }) + dinf_box()
                + box_bytes(stbl_tag(),
                    box_bytes(stsd_tag(), zeros(4) + u32_bytes(1) + sample_entry(t.codec_config))
                    + box_bytes(stts_tag(), zeros(4) + u32_bytes(0))
                    + box_bytes(stsc_tag(), zeros(4) + u32_bytes(0))
                    + box_bytes(stsz_tag(), zeros(4) + u32_bytes(0) + u32_bytes(0))
                    + box_bytes(stco_tag(), zeros(4) + u32_bytes(0))))))
}

/// The init trak boxes of the first `n` tracks, ids from 1.
pub open spec fn init_traks(tracks: Seq<FMuxTrack>, n: int) -> Seq<u8>
    decreases n,
{
    if n <= 0 {
        seq![]
    } else {
        init_traks(tracks, n - 1) + init_trak_box(tracks[n - 1], n as u32)
    }
}

/// One trex box per track, ids 1 to `n`.
pub open spec fn trex_boxes(n: int) -> Seq<u8>
    decreases n,
{
    if n <= 0 {
        seq![]
    } else {
        trex_boxes(n - 1) + box_bytes(trex_tag(), zeros(4) + u32_bytes(n as u32) + u32_bytes(1) + u32_bytes(0)
            + u32_bytes(0) + u32_bytes(0))
    }
}

/// The moov box of the init segment: a movie header of timescale 1000 and
/// unknown (zero) duration, the init traks, and the mvex box.
pub open spec fn init_moov_box(tracks: Seq<FMuxTrack>) -> Seq<u8> {
    box_bytes(moov_tag(), box_bytes(mvhd_tag(), mvhd_body(1000, 0)) + init_traks(tracks, tracks.len() as int)
        + box_bytes(mvex_tag(), trex_boxes(tracks.len() as int)))
}

/// The first of the first `n` tracks whose codec cannot be written to MP4.
pub open spec fn first_unknown_fragment(tracks: Seq<FMuxTrack>, n: int) -> Option<int>
    decreases n,
{
    if n <= 0 {
        None
    } else {
        match first_unknown_fragment(tracks, n - 1) {
            Some(i) => Some(i),
            None => if tracks[n - 1].codec_config is Unknown { Some(n - 1) } else { None },
        }
    }
}

proof fn lemma_first_unknown_fragment_stays(tracks: Seq<FMuxTrack>, n: int, m: int)
    requires
        n <= m,
        first_unknown_fragment(tracks, n) is Some,
    ensures
        first_unknown_fragment(tracks, m) == first_unknown_fragment(tracks, n),
    decreases m - n,
{
    if n < m {
        lemma_first_unknown_fragment_stays(tracks, n, m - 1);
    }
}

/// The data of the first `n` samples, back to back.
pub open spec fn samples_data(s: Seq<FragmentSample>, n: int) -> Seq<u8>
    decreases n,
{
    if n <= 0 {
        seq![]
    } else {
        samples_data(s, n - 1) + s[n - 1].data@
    }
}

/// The mdat body of a fragment: the pending data of the first `n` tracks,
/// track after track.
pub open spec fn fragment_data(tracks: Seq<FMuxTrack>, n: int) -> Seq<u8>
    decreases n,
{
    if n <= 0 {
        seq![]
    } else {
        fragment_data(tracks, n - 1) + samples_data(tracks[n - 1].pending_samples@, tracks[n - 1].pending_samples@.len() as int)
    }
}

/// A traf box: header, base decode time and the run of samples.
pub open spec fn traf_box(track_id: u32, base_decode_time: u64, s: Seq<FragmentSample>, data_offset: u32) -> Seq<u8> {
    box_bytes(traf_tag(),
        box_bytes(tfhd_tag(), seq![0u8, 0x02u8, 0u8, 0u8] + u32_bytes(track_id))
        + box_bytes(tfdt_tag(), seq![1u8, 0u8, 0u8, 0u8] + u64_bytes(base_decode_time))
        + box_bytes(trun_tag(), trun_body(s, data_offset)))
}

/// Where track `i`'s data starts within the fragment's data, plus `base`.
pub open spec fn data_offset_of(tracks: Seq<FMuxTrack>, i: int, base: u32) -> int {
    base + (fragment_data(tracks, i).len() as u32)
}

/// The traf boxes of the first `n` tracks that have pending samples, their
/// data offsets counted from `base`.
pub open spec fn trafs(tracks: Seq<FMuxTrack>, n: int, base: u32) -> Seq<u8>
    decreases n,
{
    if n <= 0 {
        seq![]
    } else {
        trafs(tracks, n - 1, base) + if tracks[n - 1].pending_samples@.len() == 0 {
            seq![]
        } else {
            traf_box(n as u32, tracks[n - 1].base_decode_time, tracks[n - 1].pending_samples@,
                data_offset_of(tracks, n - 1, base) as u32)
        }
    }
}

/// A moof box: the fragment header with its sequence number, then the
/// traf boxes.
pub open spec fn moof_box(tracks: Seq<FMuxTrack>, sequence: u32, base: u32) -> Seq<u8> {
    box_bytes(moof_tag(), box_bytes(mfhd_tag(), zeros(4) + u32_bytes(sequence)) + trafs(tracks, tracks.len() as int, base))
}

/// Whether the data offsets of the first `n` tracks, counted from `base`,
/// stay within `u32`.
pub open spec fn offsets_fit(tracks: Seq<FMuxTrack>, n: int, base: u32) -> bool {
    forall|i: int| 0 <= i < n && tracks[i].pending_samples@.len() > 0 ==> #[trigger] data_offset_of(tracks, i, base) <= u32::MAX
}

/// Whether any track has pending samples.
pub open spec fn has_pending(tracks: Seq<FMuxTrack>) -> bool {
    exists|i: int| 0 <= i < tracks.len() && #[trigger] tracks[i].pending_samples@.len() > 0
}

/// The data offset base of the final moof: the size of the moof box (as
/// first built, with offsets from 0) plus the 8-byte mdat header.
pub open spec fn moof_base(tracks: Seq<FMuxTrack>, sequence: u32) -> int {
    (moof_box(tracks, sequence, 0).len() as u32) + 8
}

/// The decode time of a track after its pending samples are flushed: the
/// last decode time (as unsigned) plus one step, the step being the last
/// distance between samples, else the distance from the current base,
/// else 1.
pub open spec fn next_base(t: FMuxTrack) -> int {
    let s = t.pending_samples@;
    let last = s.last().dts_ticks;
    let delta: int = if s.len() > 1 {
        let d = last - s[s.len() - 2].dts_ticks;
        if d < 0 { -d } else { d }
    } else if last > (t.base_decode_time as i64) {
        (last as u64) - t.base_decode_time
    } else {
        1
    };
    (last as u64) + delta
}

/// Flushing continues a track's timeline: for pending samples with
/// non-negative, strictly increasing decode times, the decode time the next
/// fragment starts at is past every flushed sample, and with two or more of
/// them it lies one last step (the distance between the last two) past the
/// last one.
pub proof fn lemma_flush_continues_timeline(t: FMuxTrack)
    requires
        next_base_fits(t),
        t.pending_samples@.len() > 0,
        forall|j: int| 0 <= j < t.pending_samples@.len() ==> (#[trigger] t.pending_samples@[j]).dts_ticks >= 0,
        forall|i: int, j: int| 0 <= i < j < t.pending_samples@.len()
            ==> (#[trigger] t.pending_samples@[i]).dts_ticks < (#[trigger] t.pending_samples@[j]).dts_ticks,
    ensures
        forall|j: int| 0 <= j < t.pending_samples@.len() ==> next_base(t) > (#[trigger] t.pending_samples@[j]).dts_ticks,
        t.pending_samples@.len() >= 2 ==> next_base(t) - t.pending_samples@.last().dts_ticks
            == t.pending_samples@.last().dts_ticks - t.pending_samples@[t.pending_samples@.len() - 2].dts_ticks,
{
    let s = t.pending_samples@;
    let n = s.len() as int;
    let last = s[n - 1].dts_ticks;
    assert(last >= 0);
    assert((last as u64) as int == last);
    if n == 1 {
        let base = t.base_decode_time;
        if last > (base as i64) {
            if base <= i64::MAX {
                assert((base as i64) as int == base as int);
            } else {
                assert((last as u64) >= base);
            }
            assert((last as u64) - base >= 1);
        }
    }
    assert(next_base(t) > last);
    assert forall|j: int| 0 <= j < n implies next_base(t) > (#[trigger] s[j]).dts_ticks by {
        if j < n - 1 {
            assert(s[j].dts_ticks < s[n - 1].dts_ticks);
        }
        if n > 1 {
            assert(s[n - 2].dts_ticks < s[n - 1].dts_ticks);
        }
    }
}

/// Whether flushing a track's pending samples keeps its decode time in
/// range.
pub open spec fn next_base_fits(t: FMuxTrack) -> bool {
    let s = t.pending_samples@;
    s.len() > 0 ==> {
        &&& fragment_steps_fit(s)
        &&& (s.len() == 1 && s.last().dts_ticks > (t.base_decode_time as i64)) ==> (s.last().dts_ticks as u64)
            >= t.base_decode_time
        &&& next_base(t) <= u64::MAX
    }
}

impl FragmentedMp4Muxer {
    /// The registered tracks, in order.
    pub closed spec fn track_list(&self) -> Seq<FMuxTrack> {
        self.tracks@
    }

    /// Whether the init segment has been written.
    pub closed spec fn init_done(&self) -> bool {
        self.init_written
    }

    /// The sequence number of the next fragment.
    pub closed spec fn next_sequence(&self) -> u32 {
        self.sequence_number
    }

    /// The fragment configuration.
    pub closed spec fn config_of(&self) -> FragmentConfig {
        self.config
    }

    /// A muxer with the default configuration (one sample per fragment).
    pub fn new() -> (r: FragmentedMp4Muxer)
        ensures
            r.track_list().len() == 0,
            !r.init_done(),
            r.next_sequence() == 1,
            r.config_of().max_samples_per_fragment == 1,
    {
        FragmentedMp4Muxer { tracks: Vec::new(), init_written: false, sequence_number: 1, config: FragmentConfig::default() }
    }

    /// A muxer with the given configuration.
    pub fn with_config(config: FragmentConfig) -> (r: FragmentedMp4Muxer)
        ensures
            r.track_list().len() == 0,
            !r.init_done(),
            r.next_sequence() == 1,
            r.config_of() == config,
    {
        FragmentedMp4Muxer { tracks: Vec::new(), init_written: false, sequence_number: 1, config }
    }

    /// Registers a track with its full codec configuration; its index is
    /// the number of tracks before it.
    pub fn add_track_with_config(&mut self, info: &TrackInfo, codec_config: CodecConfig, timescale: u32) -> (r: Result<
        TrackIndex,
        MuxError,
    >)
        ensures
            r == Ok::<TrackIndex, MuxError>(TrackIndex(old(self).track_list().len() as u32)),
            final(self).track_list().len() == old(self).track_list().len() + 1,
            forall|i: int| 0 <= i < old(self).track_list().len() ==> #[trigger] final(self).track_list()[i] == old(self).track_list()[i],
            final(self).track_list().last().track_info == *info,
            final(self).track_list().last().codec_config == codec_config,
            final(self).track_list().last().timescale == timescale,
            final(self).track_list().last().pending_samples@.len() == 0,
            final(self).track_list().last().base_decode_time == 0,
            final(self).init_done() == old(self).init_done(),
            final(self).next_sequence() == old(self).next_sequence(),
            final(self).config_of() == old(self).config_of(),
    {
        let index = TrackIndex(self.tracks.len() as u32);
        self.tracks.push(FMuxTrack {
            track_info: info.copied(),
            codec_config,
            timescale,
            pending_samples: Vec::new(),
            base_decode_time: 0,
        });
        Ok(index)
    }

    /// Registers a track from its description alone: video as H.264 with
    /// an empty avcC, audio as stereo AAC with an empty esds.
    pub fn add_track(&mut self, info: &TrackInfo) -> (r: Result<TrackIndex, MuxError>)
        ensures
            inferred_fragment_config(*info) is None ==> (r matches Err(MuxError::InvalidTrackConfig { message })
                && message@ == "track must have video or audio metadata"@
                && final(self).track_list() == old(self).track_list()),
            inferred_fragment_config(*info) matches Some(c) ==> {
                &&& r == Ok::<TrackIndex, MuxError>(TrackIndex(old(self).track_list().len() as u32))
                &&& final(self).track_list().len() == old(self).track_list().len() + 1
                &&& forall|i: int| 0 <= i < old(self).track_list().len() ==> #[trigger] final(self).track_list()[i] == old(self).track_list()[i]
                &&& final(self).track_list().last().track_info == *info
                &&& final(self).track_list().last().codec_config@ == c
                &&& final(self).track_list().last().timescale == default_timescale(*info)
                &&& final(self).track_list().last().pending_samples@.len() == 0
                &&& final(self).track_list().last().base_decode_time == 0
            },
            final(self).init_done() == old(self).init_done(),
            final(self).next_sequence() == old(self).next_sequence(),
            final(self).config_of() == old(self).config_of(),
    {
        let config = match (info.kind, &info.video, &info.audio) {
            (TrackKind::Video, Some(v), _) => CodecConfig::Avc1 {
                width: v.width as u16,
                height: v.height as u16,
                avcc: Vec::new(),
                color_space: v.color_space,
            },
            (TrackKind::Audio, _, Some(a)) => CodecConfig::Mp4a {
                sample_rate: a.sample_rate,
                channel_count: 2,
                esds: Vec::new(),
            },
            _ => {
                let mut message = String::new();
                push_text(&mut message, "track must have video or audio metadata");
                return Err(MuxError::InvalidTrackConfig { message });
            },
        };
        let timescale = match &info.audio {
            Some(a) => a.sample_rate,
            None => 90000,
        };
        proof {
            assert(config@ =~= inferred_fragment_config(*info)->Some_0);
        }
        self.add_track_with_config(info, config, timescale)
    }

    /// The number of registered tracks.
    pub fn track_count(&self) -> (r: usize)
        ensures
            r == self.track_list().len(),
    {
        self.tracks.len()
    }

    /// Whether the init segment has been written.
    pub fn is_init_written(&self) -> (r: bool)
        ensures
            r == self.init_done(),
    {
        self.init_written
    }

    /// Records that the init segment (ftyp and moov) has been written.
    pub fn mark_init_written(&mut self)
        ensures
            final(self).init_done(),
            final(self).track_list() == old(self).track_list(),
            final(self).next_sequence() == old(self).next_sequence(),
            final(self).config_of() == old(self).config_of(),
    {
        self.init_written = true;
    }

    /// Builds the moov box of the init segment. Fails on the first track
    /// whose codec cannot be written to MP4.
    #[verifier::rlimit(40)]
    pub fn build_init_moov(&self) -> (r: Result<Vec<u8>, MuxError>)
        requires
            self.track_list().len() < u32::MAX,
        ensures
            match first_unknown_fragment(self.track_list(), self.track_list().len() as int) {
                Some(i) => r matches Err(MuxError::IncompatibleCodec { codec, container })
                    && self.track_list()[i].codec_config matches CodecConfig::Unknown(name)
                    && codec@ == name@ && container@ == "mp4"@,
                None => r matches Ok(b) && b@ == init_moov_box(self.track_list()),
            },
    {
        let mvhd = build_mvhd(1000, 0);
        let ghost tracks = self.tracks@;
        let mut trak_boxes: Vec<u8> = Vec::new();
        let mut i: usize = 0;
        while i < self.tracks.len()
            invariant
                tracks == self.tracks@,
                tracks.len() < u32::MAX,
                i <= tracks.len(),
                first_unknown_fragment(tracks, i as int) is None,
                trak_boxes@ == init_traks(tracks, i as int),
            decreases tracks.len() - i,
        {
            let trak = match build_init_trak(&self.tracks[i], i as u32 + 1) {
                Ok(b) => b,
                Err(e) => {
                    proof {
                        assert(first_unknown_fragment(tracks, i + 1) == Some(i as int));
                        lemma_first_unknown_fragment_stays(tracks, i + 1, tracks.len() as int);
                    }
                    return Err(e);
                },
            };
            push_slice(&mut trak_boxes, trak.as_slice());
            i = i + 1;
        }
        let mut mvex_body: Vec<u8> = Vec::new();
        let mut k: usize = 0;
        while k < self.tracks.len()
            invariant
                tracks == self.tracks@,
                tracks.len() < u32::MAX,
                k <= tracks.len(),
                mvex_body@ == trex_boxes(k as int),
            decreases tracks.len() - k,
        {
            let trex = build_trex(k as u32 + 1);
            push_slice(&mut mvex_body, trex.as_slice());
            k = k + 1;
        }
        let tv: [u8; 4] = [0x6d, 0x76, 0x65, 0x78];
        assert(tv@ =~= mvex_tag());
        let mvex = make_box(&tv, mvex_body.as_slice());
        let mut moov_body = mvhd;
        push_slice(&mut moov_body, trak_boxes.as_slice());
        push_slice(&mut moov_body, mvex.as_slice());
        let t: [u8; 4] = [0x6d, 0x6f, 0x6f, 0x76];
        assert(t@ =~= moov_tag());
        let moov = make_box(&t, moov_body.as_slice());
        assert(moov@ =~= init_moov_box(self.track_list()));
        Ok(moov)
    }
}

impl FragmentedMp4Muxer {
    /// Buffers a packet in its track's pending samples: its data, decode
    /// time, composition offset and keyframe flag. Returns whether the
    /// track now holds enough samples for a fragment to be flushed.
    pub fn queue_packet(&mut self, packet: &Packet) -> (r: Result<bool, MuxError>)
        requires
            i64::MIN <= packet.pts.spec_ticks() - packet.dts.spec_ticks() <= i64::MAX,
        ensures
            ({
                let idx = packet.track_index.0 as int;
                if idx >= old(self).track_list().len() {
                    &&& r matches Err(MuxError::InvalidTrackConfig { message })
                    &&& message@ == "track index "@ + dec(idx as nat) + " out of range"@
                    &&& final(self).track_list() == old(self).track_list()
                } else {
                    let t = old(self).track_list()[idx];
                    let n = final(self).track_list()[idx].pending_samples@.len();
                    &&& final(self).track_list().len() == old(self).track_list().len()
                    &&& forall|i: int| 0 <= i < old(self).track_list().len() && i != idx
                        ==> #[trigger] final(self).track_list()[i] == old(self).track_list()[i]
                    &&& final(self).track_list()[idx].track_info == t.track_info
                    &&& final(self).track_list()[idx].codec_config == t.codec_config
                    &&& final(self).track_list()[idx].timescale == t.timescale
                    &&& final(self).track_list()[idx].base_decode_time == t.base_decode_time
                    &&& n == t.pending_samples@.len() + 1
                    &&& final(self).track_list()[idx].pending_samples@.take(n - 1) == t.pending_samples@
                    &&& final(self).track_list()[idx].pending_samples@[n - 1].data@ == packet.data@
                    &&& final(self).track_list()[idx].pending_samples@[n - 1].dts_ticks == packet.dts.spec_ticks()
                    &&& final(self).track_list()[idx].pending_samples@[n - 1].cts_offset
                        == (packet.pts.spec_ticks() - packet.dts.spec_ticks()) as i32
                    &&& final(self).track_list()[idx].pending_samples@[n - 1].is_keyframe == packet.is_keyframe
                    &&& r == Ok::<bool, MuxError>((n as u32) >= old(self).config_of().max_samples_per_fragment)
                }
            }),
            final(self).init_done() == old(self).init_done(),
            final(self).next_sequence() == old(self).next_sequence(),
            final(self).config_of() == old(self).config_of(),
    {
        let track_idx = packet.track_index.0 as usize;
        if track_idx >= self.tracks.len() {
            let mut message = String::new();
            push_text(&mut message, "track index ");
            push_dec(&mut message, track_idx as u64);
            push_text(&mut message, " out of range");
            return Err(MuxError::InvalidTrackConfig { message });
        }
        let dts_ticks = packet.dts.ticks();
        let cts_offset = (packet.pts.ticks() - packet.dts.ticks()) as i32;
        let mut data: Vec<u8> = Vec::new();
        push_slice(&mut data, packet.data.as_slice());
        let ghost before = self.tracks[track_idx as int].pending_samples@;
        self.tracks[track_idx].pending_samples.push(
            FragmentSample { data, dts_ticks, cts_offset, is_keyframe: packet.is_keyframe },
        );
        assert(self.tracks@[track_idx as int].pending_samples@.take(before.len() as int) =~= before);
        let pending_count = self.tracks[track_idx].pending_samples.len() as u32;
        Ok(pending_count >= self.config.max_samples_per_fragment)
    }

    /// Whether the next fragment can be built: track ids within `u32`,
    /// decode steps within `i64`, and data offsets within `u32`.
    pub open spec fn fragment_fits(&self) -> bool {
        let tracks = self.track_list();
        &&& tracks.len() < u32::MAX
        &&& forall|i: int| 0 <= i < tracks.len() ==> fragment_steps_fit(#[trigger] tracks[i].pending_samples@)
        &&& moof_base(tracks, self.next_sequence()) <= u32::MAX
        &&& offsets_fit(tracks, tracks.len() as int, moof_base(tracks, self.next_sequence()) as u32)
    }

    /// Builds the next fragment from all pending samples: a moof box whose
    /// data offsets count from its own start, and the mdat box with the
    /// samples' data, track after track. `None` when nothing is pending.
    #[verifier::rlimit(40)]
    pub fn build_fragment(&self) -> (r: Result<Option<(Vec<u8>, Vec<u8>)>, MuxError>)
        requires
            self.fragment_fits(),
        ensures
            !has_pending(self.track_list()) ==> r == Ok::<Option<(Vec<u8>, Vec<u8>)>, MuxError>(None),
            has_pending(self.track_list()) ==> (r matches Ok(Some((moof, mdat)))
                && moof@ == moof_box(self.track_list(), self.next_sequence(),
                    moof_base(self.track_list(), self.next_sequence()) as u32)
                && mdat@ == box_bytes(mdat_tag(), fragment_data(self.track_list(), self.track_list().len() as int))),
    {
        let ghost tracks = self.tracks@;
        let mut any = false;
        let mut i: usize = 0;
        while i < self.tracks.len()
            invariant
                tracks == self.tracks@,
                i <= tracks.len(),
                any <==> exists|k: int| 0 <= k < i && #[trigger] tracks[k].pending_samples@.len() > 0,
            decreases tracks.len() - i,
        {
            if self.tracks[i].pending_samples.len() > 0 {
                any = true;
            }
            i = i + 1;
        }
        if !any {
            return Ok(None);
        }
        let (mdat_body, offsets) = collect_fragment_data(&self.tracks);
        proof {
            assert(offsets_fit(tracks, tracks.len() as int, 0)) by {
                assert forall|k: int| 0 <= k < tracks.len() && tracks[k].pending_samples@.len() > 0
                    implies #[trigger] data_offset_of(tracks, k, 0) <= u32::MAX by {}
            }
        }
        let moof_with_placeholder = build_moof(&self.tracks, &offsets, self.sequence_number, 0);
        let moof_size = moof_with_placeholder.len() as u32;
        let moof = build_moof(&self.tracks, &offsets, self.sequence_number, moof_size + 8);
        let t: [u8; 4] = [0x6d, 0x64, 0x61, 0x74];
        assert(t@ =~= mdat_tag());
        let mdat = make_box(&t, mdat_body.as_slice());
        Ok(Some((moof, mdat)))
    }

    /// Whether flushing keeps every track's decode time and the sequence
    /// number in range.
    pub open spec fn finish_fits(&self) -> bool {
        &&& self.next_sequence() < u32::MAX
        &&& forall|i: int| 0 <= i < self.track_list().len() ==> next_base_fits(#[trigger] self.track_list()[i])
    }

    /// Records that the fragment was written: each track with pending
    /// samples moves its decode time past them (see `next_base`) and drops
    /// them, and the sequence number advances.
    pub fn finish_fragment(&mut self)
        requires
            old(self).finish_fits(),
        ensures
            final(self).track_list().len() == old(self).track_list().len(),
            forall|i: int| 0 <= i < old(self).track_list().len() ==> {
                let t = #[trigger] old(self).track_list()[i];
                let u = final(self).track_list()[i];
                &&& u.track_info == t.track_info
                &&& u.codec_config == t.codec_config
                &&& u.timescale == t.timescale
                &&& u.pending_samples@.len() == 0
                &&& u.base_decode_time == (if t.pending_samples@.len() > 0 { next_base(t) } else { t.base_decode_time as int })
            },
            final(self).next_sequence() == old(self).next_sequence() + 1,
            final(self).init_done() == old(self).init_done(),
            final(self).config_of() == old(self).config_of(),
    {
        let ghost start = self.tracks@;
        let mut i: usize = 0;
        while i < self.tracks.len()
            invariant
                self.sequence_number == old(self).sequence_number,
                self.sequence_number < u32::MAX,
                self.init_written == old(self).init_written,
                self.config == old(self).config,
                self.tracks@.len() == start.len(),
                i <= start.len(),
                forall|k: int| 0 <= k < start.len() ==> next_base_fits(#[trigger] start[k]),
                forall|k: int| i <= k < start.len() ==> #[trigger] self.tracks@[k] == start[k],
                forall|k: int| 0 <= k < i ==> {
                    let t = #[trigger] start[k];
                    let u = self.tracks@[k];
                    &&& u.track_info == t.track_info
                    &&& u.codec_config == t.codec_config
                    &&& u.timescale == t.timescale
                    &&& u.pending_samples@.len() == 0
                    &&& u.base_decode_time == (if t.pending_samples@.len() > 0 { next_base(t) } else { t.base_decode_time as int })
                },
            decreases start.len() - i,
        {
            let n = self.tracks[i].pending_samples.len();
            if n > 0 {
                let base = self.tracks[i].base_decode_time;
                let last_dts = self.tracks[i].pending_samples[n - 1].dts_ticks;
                assert(next_base_fits(start[i as int]));
                let delta: u64 = if n > 1 {
                    let second_last = self.tracks[i].pending_samples[n - 2].dts_ticks;
                    proof {
                        let s = start[i as int].pending_samples@;
                        assert(i64::MIN <= s[(n - 2) + 1].dts_ticks - s[n - 2].dts_ticks <= i64::MAX);
                    }
                    let d: i128 = last_dts as i128 - second_last as i128;
                    if d < 0 { (0 - d) as u64 } else { d as u64 }
                } else if last_dts > base as i64 {
                    last_dts as u64 - base
                } else {
                    1
                };
                self.tracks[i].base_decode_time = last_dts as u64 + delta;
                self.tracks[i].pending_samples.clear();
            }
            i = i + 1;
        }
        self.sequence_number = self.sequence_number + 1;
    }
}

impl FragmentedMp4Muxer {
    /// Tests `fragment_fits`.
    pub fn fragment_allowed(&self) -> (r: bool)
        ensures
            r == self.fragment_fits(),
    {
        let ghost tracks = self.tracks@;
        if self.tracks.len() >= u32::MAX as usize {
            return false;
        }
        let mut i: usize = 0;
        while i < self.tracks.len()
            invariant
                tracks == self.tracks@,
                i <= tracks.len(),
                forall|k: int| 0 <= k < i ==> fragment_steps_fit(#[trigger] tracks[k].pending_samples@),
            decreases tracks.len() - i,
        {
            if !steps_allowed(&self.tracks[i].pending_samples) {
                return false;
            }
            i = i + 1;
        }
        let (_, offsets) = collect_fragment_data(&self.tracks);
        proof {
            assert forall|k: int| 0 <= k < tracks.len() && tracks[k].pending_samples@.len() > 0
                implies #[trigger] data_offset_of(tracks, k, 0) <= u32::MAX by {}
        }
        let first = build_moof(&self.tracks, &offsets, self.sequence_number, 0);
        let base_wide: u64 = first.len() as u32 as u64 + 8;
        if base_wide > u32::MAX as u64 {
            return false;
        }
        let base = base_wide as u32;
        let mut k: usize = 0;
        while k < self.tracks.len()
            invariant
                tracks == self.tracks@,
                k <= tracks.len(),
                base == moof_base(tracks, self.sequence_number),
                offsets@.len() == tracks.len(),
                forall|j: int| 0 <= j < tracks.len() ==> #[trigger] offsets@[j] == fragment_data(tracks, j).len(),
                offsets_fit(tracks, k as int, base),
            decreases tracks.len() - k,
        {
            if self.tracks[k].pending_samples.len() > 0 && base as u64 + offsets[k] as u32 as u64 > u32::MAX as u64 {
                assert(!(data_offset_of(tracks, k as int, base) <= u32::MAX));
                return false;
            }
            k = k + 1;
        }
        true
    }

    /// Tests `finish_fits`.
    pub fn finish_allowed(&self) -> (r: bool)
        ensures
            r == self.finish_fits(),
    {
        if self.sequence_number == u32::MAX {
            return false;
        }
        let ghost tracks = self.tracks@;
        let mut i: usize = 0;
        while i < self.tracks.len()
            invariant
                tracks == self.tracks@,
                i <= tracks.len(),
                forall|k: int| 0 <= k < i ==> next_base_fits(#[trigger] tracks[k]),
            decreases tracks.len() - i,
        {
            let t = &self.tracks[i];
            let n = t.pending_samples.len();
            if n > 0 {
                if !steps_allowed(&t.pending_samples) {
                    assert(!next_base_fits(self.track_list()[i as int]));
                    return false;
                }
                let last_dts = t.pending_samples[n - 1].dts_ticks;
                let base = t.base_decode_time;
                let delta: i128 = if n > 1 {
                    let d: i128 = last_dts as i128 - t.pending_samples[n - 2].dts_ticks as i128;
                    if d < 0 { 0 - d } else { d }
                } else if last_dts > base as i64 {
                    if (last_dts as u64) < base {
                        assert(!next_base_fits(self.track_list()[i as int]));
                        return false;
                    }
                    (last_dts as u64 - base) as i128
                } else {
                    1
                };
                if last_dts as u64 as i128 + delta > u64::MAX as i128 {
                    assert(!next_base_fits(self.track_list()[i as int]));
                    return false;
                }
            }
            i = i + 1;
        }
        true
    }
}

/// Tests `fragment_steps_fit`.
fn steps_allowed(s: &Vec<FragmentSample>) -> (r: bool)
    ensures
        r == fragment_steps_fit(s@),
{
    let n = s.len();
    let mut i: usize = 1;
    while i < n
        invariant
            n == s@.len(),
            1 <= i,
            i <= n || n == 0,
            forall|k: int| 0 <= k < i - 1 && k < n - 1 ==> i64::MIN <= #[trigger] s@[k + 1].dts_ticks - s@[k].dts_ticks <= i64::MAX,
        decreases n - i,
    {
        let d: i128 = s[i].dts_ticks as i128 - s[i - 1].dts_ticks as i128;
        if d < i64::MIN as i128 || d > i64::MAX as i128 {
            proof {
                let k = i - 1;
                assert(!(i64::MIN <= s@[k + 1].dts_ticks - s@[k].dts_ticks <= i64::MAX));
            }
            return false;
        }
        i = i + 1;
    }
    true
}

/// The fragment's mdat body and where each track's data starts in it.
fn collect_fragment_data(tracks: &Vec<FMuxTrack>) -> (r: (Vec<u8>, Vec<usize>))
    ensures
        r.0@ == fragment_data(tracks@, tracks@.len() as int),
        r.1@.len() == tracks@.len(),
        forall|i: int| 0 <= i < tracks@.len() ==> #[trigger] r.1@[i] == fragment_data(tracks@, i).len(),
{
    let mut body: Vec<u8> = Vec::new();
    let mut offsets: Vec<usize> = Vec::new();
    let mut i: usize = 0;
    while i < tracks.len()
        invariant
            i <= tracks@.len(),
            body@ == fragment_data(tracks@, i as int),
            offsets@.len() == i,
            forall|k: int| 0 <= k < i ==> #[trigger] offsets@[k] == fragment_data(tracks@, k).len(),
        decreases tracks@.len() - i,
    {
        offsets.push(body.len());
        let ghost head = body@;
        let samples = &tracks[i].pending_samples;
        let mut j: usize = 0;
        while j < samples.len()
            invariant
                j <= samples@.len(),
                body@ == head + samples_data(samples@, j as int),
            decreases samples@.len() - j,
        {
            push_slice(&mut body, samples[j].data.as_slice());
            j = j + 1;
            assert(body@ =~= head + samples_data(samples@, j as int));
        }
        i = i + 1;
    }
    (body, offsets)
}

/// Builds a moof box for the pending samples, data offsets counted from
/// `base` plus each track's place in the fragment's data.
#[verifier::rlimit(40)]
fn build_moof(tracks: &Vec<FMuxTrack>, offsets: &Vec<usize>, sequence: u32, base: u32) -> (r: Vec<u8>)
    requires
        tracks@.len() < u32::MAX,
        offsets@.len() == tracks@.len(),
        forall|i: int| 0 <= i < tracks@.len() ==> #[trigger] offsets@[i] == fragment_data(tracks@, i).len(),
        forall|i: int| 0 <= i < tracks@.len() ==> fragment_steps_fit(#[trigger] tracks@[i].pending_samples@),
        offsets_fit(tracks@, tracks@.len() as int, base),
    ensures
        r@ == moof_box(tracks@, sequence, base),
{
    let mfhd = build_mfhd(sequence);
    let mut traf_boxes: Vec<u8> = Vec::new();
    let mut i: usize = 0;
    while i < tracks.len()
        invariant
            tracks@.len() < u32::MAX,
            offsets@.len() == tracks@.len(),
            forall|k: int| 0 <= k < tracks@.len() ==> #[trigger] offsets@[k] == fragment_data(tracks@, k).len(),
            forall|k: int| 0 <= k < tracks@.len() ==> fragment_steps_fit(#[trigger] tracks@[k].pending_samples@),
            offsets_fit(tracks@, tracks@.len() as int, base),
            i <= tracks@.len(),
            traf_boxes@ == trafs(tracks@, i as int, base),
        decreases tracks@.len() - i,
    {
        if tracks[i].pending_samples.len() > 0 {
            assert(data_offset_of(tracks@, i as int, base) <= u32::MAX);
            let data_offset = base + offsets[i] as u32;
            let traf = build_traf(i as u32 + 1, tracks[i].base_decode_time, &tracks[i].pending_samples, data_offset);
            match traf {
                Ok(b) => push_slice(&mut traf_boxes, b.as_slice()),
                Err(_) => {},
            }
        }
        i = i + 1;
        assert(traf_boxes@ =~= trafs(tracks@, i as int, base));
    }
    let mut moof_body = mfhd;
    push_slice(&mut moof_body, traf_boxes.as_slice());
    let t: [u8; 4] = [0x6d, 0x6f, 0x6f, 0x66];
    assert(t@ =~= moof_tag());
    make_box(&t, moof_body.as_slice())
}

/// Builds the trak box of the init segment for one track.
#[verifier::rlimit(40)]
fn build_init_trak(track: &FMuxTrack, track_id: u32) -> (r: Result<Vec<u8>, MuxError>)
    ensures
        match track.codec_config {
            CodecConfig::Unknown(name) => r matches Err(MuxError::IncompatibleCodec { codec, container })
                && codec@ == name@ && container@ == "mp4"@,
            _ => r matches Ok(b) && b@ == init_trak_box(*track, track_id),
        },
{
    let (width, height) = match &track.track_info.video {
        Some(v) => (v.width, v.height),
        None => (0u32, 0u32),
    };
    let tkhd = build_tkhd(track_id, 0, width, height);
    let mdhd = build_mdhd(track.timescale, 0);
    let is_video = match track.track_info.kind {
        TrackKind::Video => true,
        _ => false,
    };
    let handler = if is_video { HandlerType::Video } else { HandlerType::Audio };
    let hdlr = build_hdlr(&handler);
    let stsd = match build_stsd(&track.codec_config) {
        Ok(b) => b,
        Err(e) => {
            return Err(e);
        },
    };
    let stts = build_empty_stts();
    let stsc = build_empty_stsc();
    let stsz = build_empty_stsz();
    let stco = build_empty_stco();
    let mut stbl_body = stsd;
    push_slice(&mut stbl_body, stts.as_slice());
    push_slice(&mut stbl_body, stsc.as_slice());
    push_slice(&mut stbl_body, stsz.as_slice());
    push_slice(&mut stbl_body, stco.as_slice());
    let t_stbl: [u8; 4] = [0x73, 0x74, 0x62, 0x6c];
    assert(t_stbl@ =~= stbl_tag());
    let stbl = make_box(&t_stbl, stbl_body.as_slice());
    let xmhd = if is_video { build_vmhd() } else { build_smhd() };
    let dinf = build_dinf();
    let mut minf_body = xmhd;
    push_slice(&mut minf_body, dinf.as_slice());
    push_slice(&mut minf_body, stbl.as_slice());
    let t_minf: [u8; 4] = [0x6d, 0x69, 0x6e, 0x66];
    assert(t_minf@ =~= minf_tag());
    let minf = make_box(&t_minf, minf_body.as_slice());
    let mut mdia_body = mdhd;
    push_slice(&mut mdia_body, hdlr.as_slice());
    push_slice(&mut mdia_body, minf.as_slice());
    let t_mdia: [u8; 4] = [0x6d, 0x64, 0x69, 0x61];
    assert(t_mdia@ =~= mdia_tag());
    let mdia = make_box(&t_mdia, mdia_body.as_slice());
    let mut trak_body = tkhd;
    push_slice(&mut trak_body, mdia.as_slice());
    let t_trak: [u8; 4] = [0x74, 0x72, 0x61, 0x6b];
    assert(t_trak@ =~= trak_tag());
    let trak = make_box(&t_trak, trak_body.as_slice());
    assert(trak@ =~= init_trak_box(*track, track_id));
    Ok(trak)
}

} // verus!
