//! Core media types: track indices, frame rates, codecs, colour, frames,
//! packets and track metadata.

use vstd::prelude::*;
use crate::text::{dec, push_dec, push_text};
use crate::timestamp::Timestamp;
use crate::wire::sub_slice;

verus! {

// ---------------------------------------------------------------------------
// Newtypes
// ---------------------------------------------------------------------------

/// Index of a track within a container.
#[derive(Debug, Clone, Copy, PartialEq, Eq, Hash, PartialOrd, Ord, Structural)]
pub struct TrackIndex(pub u32);

/// Rational frame rate represented as numerator/denominator.
///
/// This avoids floating-point imprecision for standard broadcast rates:
/// 24000/1001 (23.976fps), 30000/1001 (29.97fps), 60000/1001 (59.94fps).
#[derive(Debug, Clone, Copy, PartialEq, Eq, Hash, Structural)]
pub struct FrameRate {
    pub numerator: u32,
    pub denominator: u32,
}

impl FrameRate {
    /// Creates a new frame rate. Returns `None` if denominator is zero.
    pub fn new(numerator: u32, denominator: u32) -> (r: Option<FrameRate>)
        ensures
            r is Some <==> denominator != 0,
            r matches Some(f) ==> f.numerator == numerator && f.denominator == denominator,
    {
        if denominator == 0 {
            return None;
        }
        Some(FrameRate { numerator, denominator })
    }

    /// The printed form: the numerator alone when the denominator is 1,
    /// else `numerator/denominator`.
    pub open spec fn spec_text(self) -> Seq<char> {
        if self.denominator == 1 {
            dec(self.numerator as nat)
        } else {
            dec(self.numerator as nat) + "/"@ + dec(self.denominator as nat)
        }
    }

    /// The printed form of the frame rate.
    pub fn to_string(&self) -> (r: String)
        ensures
            r@ == self.spec_text(),
    {
        let mut s = String::new();
        push_dec(&mut s, self.numerator as u64);
        if self.denominator != 1 {
            push_text(&mut s, "/");
            push_dec(&mut s, self.denominator as u64);
        }
        s
    }
}

// ---------------------------------------------------------------------------
// Resource budget
// ---------------------------------------------------------------------------

/// Resource limits for demuxer and pipeline operations.
///
/// Prevents unbounded memory allocation when processing untrusted input.
#[derive(Debug, Clone, Copy, PartialEq, Eq, Structural)]
pub struct ResourceBudget {
    /// Maximum total bytes the demuxer may buffer (e.g., moov box, sample data).
    pub max_bytes: u64,
    /// Maximum number of frames/packets to read. `None` means unlimited.
    pub max_frames: Option<u64>,
}

impl ResourceBudget {
    /// Creates a new resource budget with no frame limit.
    pub fn new(max_bytes: u64) -> (r: ResourceBudget)
        ensures
            r.max_bytes == max_bytes,
            r.max_frames is None,
    {
        ResourceBudget { max_bytes, max_frames: None }
    }

    /// Sets the maximum number of frames.
    pub fn with_max_frames(self, max_frames: u64) -> (r: ResourceBudget)
        ensures
            r.max_bytes == self.max_bytes,
            r.max_frames == Some(max_frames),
    {
        ResourceBudget { max_bytes: self.max_bytes, max_frames: Some(max_frames) }
    }
}

// ---------------------------------------------------------------------------
// Quality target
// ---------------------------------------------------------------------------

/// Encoder quality target: either perceptual quality (CRF) or explicit bitrate.
#[derive(Debug, Clone, Copy, PartialEq, Structural)]
pub enum QualityTarget {
    /// Constant Rate Factor — perceptual quality target, 0 (best) to 51 (smallest).
    Crf(u8),
    /// Target bitrate in bits per second.
    Bitrate(u32),
}

impl QualityTarget {
    /// Maximum CRF value (worst quality, smallest file).
    pub const MAX_CRF: u8 = 51;

    /// Default CRF value (visually transparent for most content).
    pub const DEFAULT_CRF: u8 = 23;

    /// Validates a CRF value is in the 0–51 range.
    pub fn crf(value: u8) -> (r: Option<QualityTarget>)
        ensures
            r is Some <==> value <= 51,
            r matches Some(q) ==> q == QualityTarget::Crf(value),
    {
        if value > Self::MAX_CRF {
            None
        } else {
            Some(QualityTarget::Crf(value))
        }
    }
}

// ---------------------------------------------------------------------------
// Container format
// ---------------------------------------------------------------------------

/// Container format for muxed output.
#[derive(Debug, Clone, Copy, PartialEq, Eq, Hash, Structural)]
pub enum ContainerFormat {
    Mp4,
    WebM,
    Mkv,
}

/// The lower-case form of a string, as `str::to_lowercase` computes it.
pub uninterp spec fn lowercase(s: Seq<char>) -> Seq<char>;

/// Lower-cases a string (`str::to_lowercase`).
#[verifier::external_body]
fn to_lowercase(s: &str) -> (r: String)
    ensures
        r@ == lowercase(s@),
{
    s.to_lowercase()
}

/// The container format an already lower-cased file extension names.
pub open spec fn format_of_lower(ext: Seq<char>) -> Option<ContainerFormat> {
    if ext == "mp4"@ || ext == "m4v"@ || ext == "m4a"@ {
        Some(ContainerFormat::Mp4)
    } else if ext == "webm"@ {
        Some(ContainerFormat::WebM)
    } else if ext == "mkv"@ || ext == "mka"@ {
        Some(ContainerFormat::Mkv)
    } else {
        None
    }
}

impl ContainerFormat {
    /// Returns the `ContainerFormat` for a given file extension (case-insensitive).
    ///
    /// Returns `None` for unrecognized extensions.
    pub fn from_extension(ext: &str) -> (r: Option<ContainerFormat>)
        ensures
            r == format_of_lower(lowercase(ext@)),
    {
        let lower = to_lowercase(ext);
        Self::from_lowercase_extension(lower.as_str())
    }

    /// Returns the `ContainerFormat` for a file extension already in lower case.
    pub fn from_lowercase_extension(ext: &str) -> (r: Option<ContainerFormat>)
        ensures
            r == format_of_lower(ext@),
    {
        if crate::text::str_equal(ext, "mp4") || crate::text::str_equal(ext, "m4v")
            || crate::text::str_equal(ext, "m4a") {
            Some(ContainerFormat::Mp4)
        } else if crate::text::str_equal(ext, "webm") {
            Some(ContainerFormat::WebM)
        } else if crate::text::str_equal(ext, "mkv") || crate::text::str_equal(ext, "mka") {
            Some(ContainerFormat::Mkv)
        } else {
            None
        }
    }

    /// Returns true if splica currently supports writing this format.
    pub fn is_writable(self) -> (r: bool)
        ensures
            r,
    {
        match self {
            ContainerFormat::Mp4 | ContainerFormat::WebM => true,
            ContainerFormat::Mkv => true,
        }
    }
}

// ---------------------------------------------------------------------------
// Codec identification
// ---------------------------------------------------------------------------

/// Supported video codecs, with `Other` for codecs not directly supported.
#[derive(Debug, Clone, PartialEq, Eq, Hash)]
pub enum VideoCodec {
    H264,
    H265,
    Av1,
    /// A codec not directly supported by splica.
    Other(String),
}

impl VideoCodec {
    /// The printed name of the codec.
    pub open spec fn spec_text(&self) -> Seq<char> {
        match self {
            VideoCodec::H264 => "H.264"@,
            VideoCodec::H265 => "H.265"@,
            VideoCodec::Av1 => "AV1"@,
            VideoCodec::Other(s) => s@,
        }
    }

    /// The printed name of the codec.
    pub fn to_string(&self) -> (r: String)
        ensures
            r@ == self.spec_text(),
    {
        let mut s = String::new();
        match self {
            VideoCodec::H264 => push_text(&mut s, "H.264"),
            VideoCodec::H265 => push_text(&mut s, "H.265"),
            VideoCodec::Av1 => push_text(&mut s, "AV1"),
            VideoCodec::Other(o) => push_text(&mut s, o.as_str()),
        }
        s
    }
}

/// Supported audio codecs, with `Other` for codecs not directly supported.
#[derive(Debug, Clone, PartialEq, Eq, Hash)]
pub enum AudioCodec {
    Aac,
    Opus,
    /// A codec not directly supported by splica.
    Other(String),
}

impl AudioCodec {
    /// The printed name of the codec.
    pub open spec fn spec_text(&self) -> Seq<char> {
        match self {
            AudioCodec::Aac => "AAC"@,
            AudioCodec::Opus => "Opus"@,
            AudioCodec::Other(s) => s@,
        }
    }

    /// The printed name of the codec.
    pub fn to_string(&self) -> (r: String)
        ensures
            r@ == self.spec_text(),
    {
        let mut s = String::new();
        match self {
            AudioCodec::Aac => push_text(&mut s, "AAC"),
            AudioCodec::Opus => push_text(&mut s, "Opus"),
            AudioCodec::Other(o) => push_text(&mut s, o.as_str()),
        }
        s
    }
}

/// Supported subtitle codecs. Subtitles are always passed through.
#[derive(Debug, Clone, PartialEq, Eq, Hash)]
pub enum SubtitleCodec {
    /// SubRip / SRT text subtitles.
    Srt,
    /// WebVTT text subtitles.
    WebVtt,
    /// A subtitle codec not directly known to splica.
    Other(String),
}

impl SubtitleCodec {
    /// The printed name of the codec.
    pub open spec fn spec_text(&self) -> Seq<char> {
        match self {
            SubtitleCodec::Srt => "SRT"@,
            SubtitleCodec::WebVtt => "WebVTT"@,
            SubtitleCodec::Other(s) => s@,
        }
    }

    /// The printed name of the codec.
    pub fn to_string(&self) -> (r: String)
        ensures
            r@ == self.spec_text(),
    {
        let mut s = String::new();
        match self {
            SubtitleCodec::Srt => push_text(&mut s, "SRT"),
            SubtitleCodec::WebVtt => push_text(&mut s, "WebVTT"),
            SubtitleCodec::Other(o) => push_text(&mut s, o.as_str()),
        }
        s
    }
}

/// A codec identifier (video, audio, or subtitle).
#[derive(Debug, Clone, PartialEq, Eq, Hash)]
pub enum Codec {
    Video(VideoCodec),
    Audio(AudioCodec),
    Subtitle(SubtitleCodec),
}

impl Codec {
    /// The printed name of the codec.
    pub open spec fn spec_text(&self) -> Seq<char> {
        match self {
            Codec::Video(v) => v.spec_text(),
            Codec::Audio(a) => a.spec_text(),
            Codec::Subtitle(s) => s.spec_text(),
        }
    }

    /// The printed name of the codec.
    pub fn to_string(&self) -> (r: String)
        ensures
            r@ == self.spec_text(),
    {
        match self {
            Codec::Video(v) => v.to_string(),
            Codec::Audio(a) => a.to_string(),
            Codec::Subtitle(s) => s.to_string(),
        }
    }
}

// ---------------------------------------------------------------------------
// Channel layout
// ---------------------------------------------------------------------------

/// Channel layout for audio data.
#[derive(Debug, Clone, Copy, PartialEq, Eq, Hash, Structural)]
pub enum ChannelLayout {
    Mono,
    Stereo,
    Surround5_1,
    Surround7_1,
}

impl ChannelLayout {
    /// Returns the number of channels in this layout.
    pub fn channel_count(self) -> (r: u32)
        ensures
            r == (match self {
                ChannelLayout::Mono => 1u32,
                ChannelLayout::Stereo => 2,
                ChannelLayout::Surround5_1 => 6,
                ChannelLayout::Surround7_1 => 8,
            }),
    {
        match self {
            ChannelLayout::Mono => 1,
            ChannelLayout::Stereo => 2,
            ChannelLayout::Surround5_1 => 6,
            ChannelLayout::Surround7_1 => 8,
        }
    }
}

// ---------------------------------------------------------------------------
// Colour
// ---------------------------------------------------------------------------

/// Color primaries (defines the RGB gamut).
#[derive(Debug, Clone, Copy, PartialEq, Eq, Hash, Structural)]
pub enum ColorPrimaries {
    Bt709,
    Bt2020,
    Smpte432,
}

/// Transfer characteristics (OETF/EOTF — gamma curve).
#[derive(Debug, Clone, Copy, PartialEq, Eq, Hash, Structural)]
pub enum TransferCharacteristics {
    Bt709,
    Smpte2084,
    HybridLogGamma,
}

/// Matrix coefficients for YCbCr ↔ RGB conversion.
#[derive(Debug, Clone, Copy, PartialEq, Eq, Hash, Structural)]
pub enum MatrixCoefficients {
    Bt709,
    Bt2020NonConstant,
    Bt2020Constant,
    Identity,
}

/// Color range: limited (broadcast/studio) vs full (PC/JPEG).
#[derive(Debug, Clone, Copy, PartialEq, Eq, Hash, Structural)]
pub enum ColorRange {
    /// Limited range (16–235 luma, 16–240 chroma for 8-bit). Broadcast standard.
    Limited,
    /// Full range (0–255 for 8-bit).
    Full,
}

/// Full color space description for a video frame.
#[derive(Debug, Clone, Copy, PartialEq, Eq, Hash, Structural)]
pub struct ColorSpace {
    pub primaries: ColorPrimaries,
    pub transfer: TransferCharacteristics,
    pub matrix: MatrixCoefficients,
    pub range: ColorRange,
}

impl ColorSpace {
    /// Standard BT.709 color space (SDR, HD, limited range).
    pub fn bt709() -> (r: ColorSpace)
        ensures
            r == (ColorSpace {
                primaries: ColorPrimaries::Bt709,
                transfer: TransferCharacteristics::Bt709,
                matrix: MatrixCoefficients::Bt709,
                range: ColorRange::Limited,
            }),
    {
        ColorSpace {
            primaries: ColorPrimaries::Bt709,
            transfer: TransferCharacteristics::Bt709,
            matrix: MatrixCoefficients::Bt709,
            range: ColorRange::Limited,
        }
    }

    /// BT.2020 with PQ transfer (HDR10, limited range).
    pub fn bt2020_pq() -> (r: ColorSpace)
        ensures
            r == (ColorSpace {
                primaries: ColorPrimaries::Bt2020,
                transfer: TransferCharacteristics::Smpte2084,
                matrix: MatrixCoefficients::Bt2020NonConstant,
                range: ColorRange::Limited,
            }),
    {
        ColorSpace {
            primaries: ColorPrimaries::Bt2020,
            transfer: TransferCharacteristics::Smpte2084,
            matrix: MatrixCoefficients::Bt2020NonConstant,
            range: ColorRange::Limited,
        }
    }

    /// BT.2020 with HLG transfer (limited range).
    pub fn bt2020_hlg() -> (r: ColorSpace)
        ensures
            r == (ColorSpace {
                primaries: ColorPrimaries::Bt2020,
                transfer: TransferCharacteristics::HybridLogGamma,
                matrix: MatrixCoefficients::Bt2020NonConstant,
                range: ColorRange::Limited,
            }),
    {
        ColorSpace {
            primaries: ColorPrimaries::Bt2020,
            transfer: TransferCharacteristics::HybridLogGamma,
            matrix: MatrixCoefficients::Bt2020NonConstant,
            range: ColorRange::Limited,
        }
    }
}

// ---------------------------------------------------------------------------
// Pixel and sample formats
// ---------------------------------------------------------------------------

/// Pixel format describing how video pixel data is stored.
#[derive(Debug, Clone, Copy, PartialEq, Eq, Hash, Structural)]
pub enum PixelFormat {
    /// 4:2:0 planar, 8-bit
    Yuv420p,
    /// 4:2:0 planar, 10-bit (stored in 16-bit words)
    Yuv420p10,
    /// 4:2:2 planar, 8-bit
    Yuv422p,
    /// 4:2:2 planar, 10-bit
    Yuv422p10,
    /// 4:4:4 planar, 8-bit
    Yuv444p,
    /// Packed RGBA, 8 bits per component
    Rgba,
    /// Single-component grayscale, 8-bit
    Gray8,
}

/// Sample format for audio data.
#[derive(Debug, Clone, Copy, PartialEq, Eq, Hash, Structural)]
pub enum SampleFormat {
    /// 16-bit signed integer, interleaved
    S16,
    /// 32-bit signed integer, interleaved
    S32,
    /// 32-bit float, interleaved
    F32,
    /// 32-bit float, planar (one plane per channel)
    F32Planar,
}

// ---------------------------------------------------------------------------
// Frames
// ---------------------------------------------------------------------------

/// Layout of a single plane within a contiguous frame buffer.
///
/// All offsets are relative to the start of the `VideoFrame::data` buffer.
#[derive(Debug, Clone, Copy, PartialEq, Eq, Structural)]
pub struct PlaneLayout {
    /// Byte offset of this plane's first row within the frame buffer.
    pub offset: usize,
    /// Bytes per row (includes padding for alignment).
    pub stride: usize,
    /// Width of this plane in pixels.
    pub width: u32,
    /// Height of this plane in rows.
    pub height: u32,
}

impl PlaneLayout {
    /// Total bytes this plane occupies.
    pub open spec fn spec_size(self) -> int {
        self.stride * self.height
    }

    /// Total bytes this plane occupies: `stride * height`.
    pub fn size(&self) -> (r: usize)
        requires
            self.spec_size() <= usize::MAX,
        ensures
            r == self.spec_size(),
    {
        self.stride * self.height as usize
    }
}

/// Errors returned when constructing a `VideoFrame` with invalid plane layouts.
#[derive(Debug, Clone, PartialEq, Eq, Structural)]
pub enum VideoFrameError {
    PlaneOutOfBounds { index: usize, offset: usize, size: usize, buffer_len: usize },
    StrideTooSmall { index: usize, stride: usize, width: u32 },
}

impl VideoFrameError {
    /// The error message.
    pub open spec fn spec_text(&self) -> Seq<char> {
        match self {
            VideoFrameError::PlaneOutOfBounds { index, offset, size, buffer_len } =>
                "plane "@ + dec(*index as nat) + " extends beyond buffer: offset "@ + dec(*offset as nat)
                    + " + size "@ + dec(*size as nat) + " > buffer length "@ + dec(*buffer_len as nat),
            VideoFrameError::StrideTooSmall { index, stride, width } =>
                "plane "@ + dec(*index as nat) + " stride "@ + dec(*stride as nat)
                    + " is less than plane width "@ + dec(*width as nat),
        }
    }

    /// The error message.
    pub fn to_string(&self) -> (r: String)
        ensures
            r@ == self.spec_text(),
    {
        let mut s = String::new();
        match self {
            VideoFrameError::PlaneOutOfBounds { index, offset, size, buffer_len } => {
                push_text(&mut s, "plane ");
                push_dec(&mut s, *index as u64);
                push_text(&mut s, " extends beyond buffer: offset ");
                push_dec(&mut s, *offset as u64);
                push_text(&mut s, " + size ");
                push_dec(&mut s, *size as u64);
                push_text(&mut s, " > buffer length ");
                push_dec(&mut s, *buffer_len as u64);
            },
            VideoFrameError::StrideTooSmall { index, stride, width } => {
                push_text(&mut s, "plane ");
                push_dec(&mut s, *index as u64);
                push_text(&mut s, " stride ");
                push_dec(&mut s, *stride as u64);
                push_text(&mut s, " is less than plane width ");
                push_dec(&mut s, *width as u64);
            },
        }
        s
    }
}

/// How one plane fares against a buffer of `len` bytes: 0 when it fits,
/// 1 when its stride is narrower than its width, 2 when it runs past the
/// buffer, 3 when its size does not fit in `usize`.
pub open spec fn plane_verdict(p: PlaneLayout, len: int) -> int {
    if p.stride < p.width {
        1
    } else if p.spec_size() > usize::MAX {
        3
    } else if (if p.offset + p.spec_size() > usize::MAX { usize::MAX as int } else { p.offset + p.spec_size() }) > len {
        2
    } else {
        0
    }
}

/// Index of the first plane that does not fit a buffer of `len` bytes.
pub open spec fn first_bad_plane(planes: Seq<PlaneLayout>, len: int) -> Option<int>
    decreases planes.len(),
{
    if planes.len() == 0 {
        None
    } else {
        match first_bad_plane(planes.drop_last(), len) {
            Some(i) => Some(i),
            None => if plane_verdict(planes.last(), len) != 0 {
                Some(planes.len() - 1)
            } else {
                None
            },
        }
    }
}

/// A decoded video frame with pixel data in a single contiguous buffer.
///
/// All plane data lives in one buffer with `PlaneLayout` descriptors indexing
/// into it.
#[derive(Debug, Clone)]
pub struct VideoFrame {
    /// Frame width in pixels.
    pub width: u32,
    /// Frame height in pixels.
    pub height: u32,
    /// Pixel format.
    pub pixel_format: PixelFormat,
    /// Color space metadata (`None` when the source did not signal color info).
    pub color_space: Option<ColorSpace>,
    /// Presentation timestamp.
    pub pts: Timestamp,
    /// Contiguous pixel data buffer containing all planes.
    pub data: Vec<u8>,
    /// Layout descriptor for each plane, indexing into `data`.
    pub planes: Vec<PlaneLayout>,
}

impl VideoFrame {
    /// Whether every plane lies within the frame buffer.
    pub open spec fn planes_fit(&self) -> bool {
        forall|i: int| 0 <= i < self.planes@.len() ==> plane_verdict(#[trigger] self.planes@[i], self.data@.len() as int) == 0
    }

    /// Creates a new `VideoFrame`, validating that all plane layouts fit within
    /// the data buffer.
    pub fn new(
        width: u32,
        height: u32,
        pixel_format: PixelFormat,
        color_space: Option<ColorSpace>,
        pts: Timestamp,
        data: Vec<u8>,
        planes: Vec<PlaneLayout>,
    ) -> (r: Result<VideoFrame, VideoFrameError>)
        requires
            first_bad_plane(planes@, data@.len() as int) matches Some(i)
                ==> plane_verdict(planes@[i], data@.len() as int) != 3,
        ensures
            match first_bad_plane(planes@, data@.len() as int) {
                None => r matches Ok(f) && f.width == width && f.height == height
                    && f.pixel_format == pixel_format && f.color_space == color_space && f.pts == pts
                    && f.data@ == data@ && f.planes@ == planes@ && f.planes_fit(),
                Some(i) => {
                    let p = planes@[i];
                    if plane_verdict(p, data@.len() as int) == 1 {
                        r == Err::<VideoFrame, VideoFrameError>(
                            VideoFrameError::StrideTooSmall { index: i as usize, stride: p.stride, width: p.width },
                        )
                    } else {
                        r == Err::<VideoFrame, VideoFrameError>(VideoFrameError::PlaneOutOfBounds {
                            index: i as usize,
                            offset: p.offset,
                            size: p.spec_size() as usize,
                            buffer_len: data@.len() as usize,
                        })
                    }
                },
            },
    {
        let ghost len = data@.len() as int;
        let mut i: usize = 0;
        proof {
            assert(planes@.take(0) =~= Seq::<PlaneLayout>::empty());
        }
        while i < planes.len()
            invariant
                i <= planes@.len(),
                len == data@.len(),
                first_bad_plane(planes@.take(i as int), len) is None,
                first_bad_plane(planes@, len) matches Some(k)
                    ==> plane_verdict(planes@[k], len) != 3,
            decreases planes@.len() - i,
        {
            let p = planes[i];
            proof {
                assert(planes@.take(i + 1).drop_last() =~= planes@.take(i as int));
                lemma_first_bad_plane_step(planes@, len, i as int);
            }
            if p.stride < p.width as usize {
                return Err(VideoFrameError::StrideTooSmall { index: i, stride: p.stride, width: p.width });
            }
            let size = p.size();
            let end = p.offset.saturating_add(size);
            if end > data.len() {
                return Err(VideoFrameError::PlaneOutOfBounds {
                    index: i,
                    offset: p.offset,
                    size,
                    buffer_len: data.len(),
                });
            }
            i = i + 1;
        }
        proof {
            assert(planes@.take(i as int) =~= planes@);
            lemma_no_bad_plane(planes@, len);
        }
        Ok(VideoFrame { width, height, pixel_format, color_space, pts, data, planes })
    }

    /// Returns the raw bytes for the given plane index, or `None` when there
    /// is no such plane.
    pub fn plane_data(&self, index: usize) -> (r: Option<&[u8]>)
        requires
            index < self.planes@.len() ==> self.planes@[index as int].offset
                + self.planes@[index as int].spec_size() <= self.data@.len(),
        ensures
            index >= self.planes@.len() ==> r is None,
            index < self.planes@.len() ==> (r matches Some(s) && s@ == self.data@.subrange(
                self.planes@[index as int].offset as int,
                self.planes@[index as int].offset + self.planes@[index as int].spec_size(),
            )),
    {
        if index >= self.planes.len() {
            return None;
        }
        let layout = self.planes[index];
        let _buffer_len = self.data.len();
        let size = layout.size();
        Some(sub_slice(self.data.as_slice(), layout.offset, layout.offset + size))
    }

    /// Returns the contiguous frame buffer.
    pub fn as_wasm_buffer(&self) -> (r: &[u8])
        ensures
            r@ == self.data@,
    {
        self.data.as_slice()
    }
}

/// Index of the first plane, from `i` on, that does not fit, provided none
/// before `i` fails.
pub open spec fn first_bad_plane_from(planes: Seq<PlaneLayout>, len: int, i: int) -> Option<int>
    decreases planes.len() - i,
{
    if i >= planes.len() || i < 0 {
        None
    } else if plane_verdict(planes[i], len) != 0 {
        Some(i)
    } else {
        first_bad_plane_from(planes, len, i + 1)
    }
}

proof fn lemma_first_bad_plane_prefix(planes: Seq<PlaneLayout>, len: int, i: int)
    requires
        0 <= i <= planes.len(),
    ensures
        first_bad_plane(planes, len) == (match first_bad_plane(planes.take(i), len) {
            Some(k) => Some(k),
            None => first_bad_plane_from(planes, len, i),
        }),
    decreases planes.len() - i,
{
    if i < planes.len() {
        lemma_first_bad_plane_prefix(planes, len, i + 1);
        assert(planes.take(i + 1).drop_last() =~= planes.take(i));
        assert(planes.take(i + 1).last() == planes[i]);
    } else {
        assert(planes.take(i) =~= planes);
    }
}

proof fn lemma_first_bad_plane_step(planes: Seq<PlaneLayout>, len: int, i: int)
    requires
        0 <= i < planes.len(),
        first_bad_plane(planes.take(i), len) is None,
    ensures
        first_bad_plane(planes, len) == first_bad_plane_from(planes, len, i),
        plane_verdict(planes[i], len) == 0 ==> first_bad_plane(planes.take(i + 1), len) is None,
        plane_verdict(planes[i], len) != 0 ==> first_bad_plane(planes, len) == Some(i),
{
    lemma_first_bad_plane_prefix(planes, len, i);
    assert(planes.take(i + 1).drop_last() =~= planes.take(i));
    assert(planes.take(i + 1).last() == planes[i]);
}

proof fn lemma_no_bad_plane(planes: Seq<PlaneLayout>, len: int)
    requires
        first_bad_plane(planes, len) is None,
    ensures
        forall|i: int| 0 <= i < planes.len() ==> plane_verdict(#[trigger] planes[i], len) == 0,
    decreases planes.len(),
{
    if planes.len() > 0 {
        lemma_no_bad_plane(planes.drop_last(), len);
        assert forall|i: int| 0 <= i < planes.len() implies plane_verdict(#[trigger] planes[i], len) == 0 by {
            if i < planes.len() - 1 {
                assert(planes.drop_last()[i] == planes[i]);
            }
        }
    }
}

/// A decoded audio frame with PCM sample data.
#[derive(Debug, Clone)]
pub struct AudioFrame {
    /// Sample rate in Hz (e.g., 44100, 48000).
    pub sample_rate: u32,
    /// Channel layout.
    pub channel_layout: ChannelLayout,
    /// Sample format.
    pub sample_format: SampleFormat,
    /// Number of samples per channel in this frame.
    pub sample_count: u32,
    /// Presentation timestamp.
    pub pts: Timestamp,
    /// Raw sample data: one buffer for interleaved formats, one per channel
    /// for planar formats.
    pub data: Vec<Vec<u8>>,
}

/// A decoded frame, either video or audio.
#[derive(Debug, Clone)]
pub enum Frame {
    Video(VideoFrame),
    Audio(AudioFrame),
}

impl Frame {
    /// Returns the presentation timestamp of this frame.
    pub fn pts(&self) -> (r: Timestamp)
        ensures
            r == (match self {
                Frame::Video(f) => f.pts,
                Frame::Audio(f) => f.pts,
            }),
    {
        match self {
            Frame::Video(f) => f.pts,
            Frame::Audio(f) => f.pts,
        }
    }
}

// ---------------------------------------------------------------------------
// Packet
// ---------------------------------------------------------------------------

/// A compressed media packet read from a container.
#[derive(Debug, Clone)]
pub struct Packet {
    /// Which track this packet belongs to.
    pub track_index: TrackIndex,
    /// Presentation timestamp (when to display this packet's decoded frame).
    pub pts: Timestamp,
    /// Decode timestamp (when to decode this packet). May differ from `pts` for B-frames.
    pub dts: Timestamp,
    /// Whether this packet starts at a keyframe (random access point).
    pub is_keyframe: bool,
    /// The compressed data.
    pub data: Vec<u8>,
}

// ---------------------------------------------------------------------------
// TrackInfo
// ---------------------------------------------------------------------------

/// The kind of media a track contains.
#[derive(Debug, Clone, Copy, PartialEq, Eq, Hash, Structural)]
pub enum TrackKind {
    Video,
    Audio,
    Subtitle,
}

/// Metadata about a single track in a container.
#[derive(Debug, Clone)]
pub struct TrackInfo {
    /// Index of this track.
    pub index: TrackIndex,
    /// What kind of track this is.
    pub kind: TrackKind,
    /// Codec used by this track.
    pub codec: Codec,
    /// Duration of this track, if known.
    pub duration: Option<Timestamp>,
    /// Video-specific metadata (present only for video tracks).
    pub video: Option<VideoTrackInfo>,
    /// Audio-specific metadata (present only for audio tracks).
    pub audio: Option<AudioTrackInfo>,
}

/// Video-specific track metadata.
#[derive(Debug, Clone, Copy)]
pub struct VideoTrackInfo {
    pub width: u32,
    pub height: u32,
    pub pixel_format: Option<PixelFormat>,
    pub color_space: Option<ColorSpace>,
    pub frame_rate: Option<FrameRate>,
}

/// Audio-specific track metadata.
#[derive(Debug, Clone, Copy)]
pub struct AudioTrackInfo {
    pub sample_rate: u32,
    pub channel_layout: Option<ChannelLayout>,
    pub sample_format: Option<SampleFormat>,
}


impl Codec {
    /// A copy of the codec, equal to it.
    pub(crate) fn copied(&self) -> (r: Codec)
        ensures
            r == *self,
    {
        match self {
            Codec::Video(VideoCodec::H264) => Codec::Video(VideoCodec::H264),
            Codec::Video(VideoCodec::H265) => Codec::Video(VideoCodec::H265),
            Codec::Video(VideoCodec::Av1) => Codec::Video(VideoCodec::Av1),
            Codec::Video(VideoCodec::Other(s)) => Codec::Video(VideoCodec::Other(s.clone())),
            Codec::Audio(AudioCodec::Aac) => Codec::Audio(AudioCodec::Aac),
            Codec::Audio(AudioCodec::Opus) => Codec::Audio(AudioCodec::Opus),
            Codec::Audio(AudioCodec::Other(s)) => Codec::Audio(AudioCodec::Other(s.clone())),
            Codec::Subtitle(SubtitleCodec::Srt) => Codec::Subtitle(SubtitleCodec::Srt),
            Codec::Subtitle(SubtitleCodec::WebVtt) => Codec::Subtitle(SubtitleCodec::WebVtt),
            Codec::Subtitle(SubtitleCodec::Other(s)) => Codec::Subtitle(SubtitleCodec::Other(s.clone())),
        }
    }
}

impl TrackInfo {
    /// A copy of the track description, equal to it.
    pub(crate) fn copied(&self) -> (r: TrackInfo)
        ensures
            r == *self,
    {
        TrackInfo {
            index: self.index,
            kind: self.kind,
            codec: self.codec.copied(),
            duration: self.duration,
            video: self.video,
            audio: self.audio,
        }
    }
}

} // verus!
