//! Per-track metadata assembled from parsed MP4 boxes.

use vstd::prelude::*;
use crate::media::{
    AudioCodec, AudioTrackInfo, ChannelLayout, Codec, FrameRate, PixelFormat, SubtitleCodec, TrackIndex,
    TrackInfo, TrackKind, VideoCodec, VideoTrackInfo,
};
use crate::mp4::boxes::hdlr::HandlerType;
use crate::mp4::boxes::stsd::CodecConfig;
use crate::mp4::sample_table::SampleTable;
use crate::text::str_equal;
use crate::timestamp::Timestamp;

verus! {

/// An MP4 track: its header values, codec configuration and sample table.
#[derive(Debug)]
pub struct Mp4Track {
    pub track_id: u32,
    pub handler_type: HandlerType,
    pub timescale: u32,
    pub duration: u64,
    pub codec_config: CodecConfig,
    pub sample_table: SampleTable,
    /// From tkhd (video only).
    pub width: u32,
    pub height: u32,
}

/// Greatest common divisor by Euclid's algorithm.
pub open spec fn gcd(a: nat, b: nat) -> nat
    decreases b,
{
    if b == 0 {
        a
    } else {
        gcd(b, a % b)
    }
}

/// The gcd divides both numbers, and is positive when `a` or `b` is.
pub proof fn lemma_gcd_divides(a: nat, b: nat)
    ensures
        (a as int) % (gcd(a, b) as int) == 0 || gcd(a, b) == 0,
        (b as int) % (gcd(a, b) as int) == 0 || gcd(a, b) == 0,
        (a > 0 || b > 0) ==> gcd(a, b) > 0,
    decreases b,
{
    if b == 0 {
        if a > 0 {
            assert((a as int) % (a as int) == 0) by (nonlinear_arith) requires a > 0;
        }
    } else {
        lemma_gcd_divides(b, a % b);
        let g = gcd(b, a % b);
        if g > 0 {
            let q = a / b;
            let r = a % b;
            assert(a == q * b + r) by (nonlinear_arith) requires b > 0, q == a / b, r == a % b;
            let kb = b / g;
            let kr = r / g;
            assert(b == kb * g) by (nonlinear_arith) requires b % g == 0, g > 0, kb == b / g;
            assert(r == kr * g) by (nonlinear_arith) requires r % g == 0, g > 0, kr == r / g;
            assert(a == (q * kb + kr) * g) by (nonlinear_arith)
                requires a == q * b + r, b == kb * g, r == kr * g;
            assert((a as int) % (g as int) == 0) by (nonlinear_arith)
                requires a == (q * kb + kr) * g, g > 0, q * kb + kr >= 0;
        }
    }
}

fn gcd_exec(a0: u64, b0: u64) -> (r: u64)
    ensures
        r == gcd(a0 as nat, b0 as nat),
{
    let mut a = a0;
    let mut b = b0;
    while b != 0
        invariant
            gcd(a as nat, b as nat) == gcd(a0 as nat, b0 as nat),
        decreases b,
    {
        let t = b;
        b = a % b;
        a = t;
    }
    a
}

/// The codec a track's configuration names, given its handler.
pub open spec fn track_codec(h: HandlerType, c: CodecConfig) -> Codec {
    match c {
        CodecConfig::Avc1 { .. } => Codec::Video(VideoCodec::H264),
        CodecConfig::Hev1 { .. } => Codec::Video(VideoCodec::H265),
        CodecConfig::Av1 { .. } => Codec::Video(VideoCodec::Av1),
        CodecConfig::Mp4a { .. } => Codec::Audio(AudioCodec::Aac),
        CodecConfig::Unknown(name) => if h is Video {
            Codec::Video(VideoCodec::Other(name))
        } else if h is Subtitle {
            if name@ == "wvtt"@ {
                Codec::Subtitle(SubtitleCodec::WebVtt)
            } else {
                Codec::Subtitle(SubtitleCodec::Other(name))
            }
        } else {
            Codec::Audio(AudioCodec::Other(name))
        },
    }
}

/// The view of a codec: like `Codec`, with names as character sequences.
pub open spec fn codec_view(c: Codec) -> (int, Seq<char>) {
    match c {
        Codec::Video(VideoCodec::H264) => (0, seq![]),
        Codec::Video(VideoCodec::H265) => (1, seq![]),
        Codec::Video(VideoCodec::Av1) => (2, seq![]),
        Codec::Video(VideoCodec::Other(n)) => (3, n@),
        Codec::Audio(AudioCodec::Aac) => (4, seq![]),
        Codec::Audio(AudioCodec::Opus) => (5, seq![]),
        Codec::Audio(AudioCodec::Other(n)) => (6, n@),
        Codec::Subtitle(SubtitleCodec::Srt) => (7, seq![]),
        Codec::Subtitle(SubtitleCodec::WebVtt) => (8, seq![]),
        Codec::Subtitle(SubtitleCodec::Other(n)) => (9, n@),
    }
}

/// The channel layout for a channel count, when it is a known one.
pub open spec fn layout_for(channels: u16) -> Option<ChannelLayout> {
    if channels == 1 {
        Some(ChannelLayout::Mono)
    } else if channels == 2 {
        Some(ChannelLayout::Stereo)
    } else if channels == 6 {
        Some(ChannelLayout::Surround5_1)
    } else if channels == 8 {
        Some(ChannelLayout::Surround7_1)
    } else {
        None
    }
}

/// What `to_track_info` builds for a track at `index`: the kind of its
/// handler, its codec, its duration as a timestamp in its timescale, and
/// the video or audio details its sample entry and frame rate give.
pub open spec fn describes(r: TrackInfo, t: Mp4Track, index: TrackIndex) -> bool {
    &&& r.index == index
    &&& r.kind == (if t.handler_type is Video {
        TrackKind::Video
    } else if t.handler_type is Subtitle {
        TrackKind::Subtitle
    } else {
        TrackKind::Audio
    })
    &&& codec_view(r.codec) == codec_view(track_codec(t.handler_type, t.codec_config))
    &&& t.timescale > 0 && 0 < t.duration <= i64::MAX ==> (r.duration matches Some(d)
        && d.ticks() == t.duration && d.timebase() == t.timescale)
    &&& !(t.timescale > 0 && 0 < t.duration <= i64::MAX) ==> r.duration is None
    &&& t.handler_type is Video ==> (r.video matches Some(v) && v.pixel_format == Some(PixelFormat::Yuv420p)
        && v.frame_rate == t.spec_frame_rate() && match t.codec_config {
            CodecConfig::Avc1 { width, height, color_space, .. }
            | CodecConfig::Hev1 { width, height, color_space, .. }
            | CodecConfig::Av1 { width, height, color_space, .. } =>
                v.width == width && v.height == height && v.color_space == color_space,
            _ => v.width == t.width && v.height == t.height && v.color_space is None,
        })
    &&& !(t.handler_type is Video) ==> r.video is None
    &&& t.handler_type is Audio ==> (r.audio matches Some(a) && a.sample_format is None && match t.codec_config {
        CodecConfig::Mp4a { sample_rate, channel_count, .. } =>
            a.sample_rate == sample_rate && a.channel_layout == layout_for(channel_count),
        _ => a.sample_rate == t.timescale && a.channel_layout == Some(ChannelLayout::Stereo),
    })
    &&& !(t.handler_type is Audio) ==> r.audio is None
}

impl Mp4Track {
    pub fn is_video(&self) -> (r: bool)
        ensures
            r == (self.handler_type is Video),
    {
        self.handler_type.is_video()
    }

    pub fn is_audio(&self) -> (r: bool)
        ensures
            r == (self.handler_type is Audio),
    {
        self.handler_type.is_audio()
    }

    pub fn is_subtitle(&self) -> (r: bool)
        ensures
            r == (self.handler_type is Subtitle),
    {
        self.handler_type.is_subtitle()
    }

    /// The frame rate the track's samples give: sample count times timescale
    /// over duration, in lowest terms, when both parts fit in `u32`.
    pub open spec fn spec_frame_rate(&self) -> Option<FrameRate> {
        let n = (self.sample_table.entries@.len() * self.timescale) as nat;
        let d = self.duration as nat;
        let g = gcd(n, d);
        if self.sample_table.entries@.len() == 0 || self.timescale == 0 || self.duration == 0 {
            None
        } else if n / g <= u32::MAX && d / g <= u32::MAX {
            Some(FrameRate { numerator: (n / g) as u32, denominator: (d / g) as u32 })
        } else {
            None
        }
    }

    /// Computes the frame rate from the sample table.
    pub fn compute_frame_rate(&self) -> (r: Option<FrameRate>)
        ensures
            r == self.spec_frame_rate(),
    {
        if self.sample_table.entries.len() == 0 || self.timescale == 0 {
            return None;
        }
        let sample_count = self.sample_table.entries.len() as u128;
        if self.duration == 0 {
            return None;
        }
        proof {
            assert(sample_count * self.timescale <= 0xffff_ffff_ffff_ffff * 0xffff_ffff) by (nonlinear_arith)
                requires sample_count <= 0xffff_ffff_ffff_ffff, self.timescale <= 0xffff_ffff;
        }
        let num: u128 = sample_count * self.timescale as u128;
        let den: u64 = self.duration;
        // gcd(num, den) is gcd(den, num % den), and num % den fits in u64
        let rem = (num % den as u128) as u64;
        let g = gcd_exec(den, rem);
        proof {
            assert(g == gcd(num as nat, den as nat));
            lemma_gcd_divides(num as nat, den as nat);
            assert(den / g > 0) by (nonlinear_arith)
                requires den > 0, g > 0, den % g == 0;
        }
        let num = num / g as u128;
        let den = den / g;
        if num <= 0xffff_ffff && den <= 0xffff_ffff {
            FrameRate::new(num as u32, den as u32)
        } else {
            None
        }
    }

    /// Builds the generic track description for this track at `index`.
    pub fn to_track_info(&self, index: TrackIndex) -> (r: TrackInfo)
        ensures
            describes(r, *self, index),
    {
        let kind = if self.is_video() {
            TrackKind::Video
        } else if self.is_subtitle() {
            TrackKind::Subtitle
        } else {
            TrackKind::Audio
        };
        let codec = match &self.codec_config {
            CodecConfig::Avc1 { .. } => Codec::Video(VideoCodec::H264),
            CodecConfig::Hev1 { .. } => Codec::Video(VideoCodec::H265),
            CodecConfig::Av1 { .. } => Codec::Video(VideoCodec::Av1),
            CodecConfig::Mp4a { .. } => Codec::Audio(AudioCodec::Aac),
            CodecConfig::Unknown(name) => {
                let mut n = String::new();
                crate::text::push_text(&mut n, name.as_str());
                assert(n@ =~= name@);
                if self.is_video() {
                    Codec::Video(VideoCodec::Other(n))
                } else if self.is_subtitle() {
                    let sc = if str_equal(name.as_str(), "tx3g") || str_equal(name.as_str(), "stpp") {
                        SubtitleCodec::Other(n)
                    } else if str_equal(name.as_str(), "wvtt") {
                        SubtitleCodec::WebVtt
                    } else {
                        SubtitleCodec::Other(n)
                    };
                    Codec::Subtitle(sc)
                } else {
                    Codec::Audio(AudioCodec::Other(n))
                }
            },
        };
        proof {
            reveal_strlit("wvtt");
            reveal_strlit("tx3g");
            reveal_strlit("stpp");
            assert("tx3g"@[0] != "wvtt"@[0]);
            assert("stpp"@[0] != "wvtt"@[0]);
        }
        let duration = if self.timescale > 0 && self.duration > 0 {
            if self.duration <= 0x7fff_ffff_ffff_ffff {
                Timestamp::new(self.duration as i64, self.timescale)
            } else {
                None
            }
        } else {
            None
        };
        let video = if self.is_video() {
            let (w, h, color_space) = match &self.codec_config {
                CodecConfig::Avc1 { width, height, color_space, .. } => (*width as u32, *height as u32, *color_space),
                CodecConfig::Hev1 { width, height, color_space, .. } => (*width as u32, *height as u32, *color_space),
                CodecConfig::Av1 { width, height, color_space, .. } => (*width as u32, *height as u32, *color_space),
                _ => (self.width, self.height, None),
            };
            let frame_rate = self.compute_frame_rate();
            Some(VideoTrackInfo { width: w, height: h, pixel_format: Some(PixelFormat::Yuv420p), color_space, frame_rate })
        } else {
            None
        };
        let audio = if self.is_audio() {
            let (sample_rate, channel_count) = match &self.codec_config {
                CodecConfig::Mp4a { sample_rate, channel_count, .. } => (*sample_rate, *channel_count),
                _ => (self.timescale, 2u16),
            };
            let channel_layout = if channel_count == 1 {
                Some(ChannelLayout::Mono)
            } else if channel_count == 2 {
                Some(ChannelLayout::Stereo)
            } else if channel_count == 6 {
                Some(ChannelLayout::Surround5_1)
            } else if channel_count == 8 {
                Some(ChannelLayout::Surround7_1)
            } else {
                None
            };
            Some(AudioTrackInfo { sample_rate, channel_layout, sample_format: None })
        } else {
            None
        };
        TrackInfo { index, kind, codec, duration, video, audio }
    }
}

} // verus!
