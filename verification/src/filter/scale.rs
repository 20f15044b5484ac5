//! Scale (resize) filter for video frames.
//!
//! Resizes YUV420p frames with nearest-neighbour or bilinear interpolation
//! and a choice of aspect handling (stretch, fit with black bars, fill with
//! a centre crop). This module holds the integer side of the filter: the
//! checks on the input frame, the placement of the scaled content, the
//! nearest-neighbour resampler and the assembly of the output frame. The
//! fractional scale factors of fit/fill and the bilinear weights are
//! computed by the caller and handed in.

use vstd::prelude::*;
use crate::error::FilterError;
use crate::filter::crop::{even, first_plane_ok, pixel_format_name, push_pixel_format_name, yuv420_layouts};
use crate::media::{ColorSpace, PixelFormat, PlaneLayout, VideoFrame};
use crate::text::{dec, push_dec, push_text};
use crate::timestamp::Timestamp;

verus! {

/// Interpolation method for scaling.
#[derive(Debug, Clone, Copy, PartialEq, Eq, Structural)]
pub enum Interpolation {
    /// Fastest. Picks the nearest source pixel.
    NearestNeighbor,
    /// Smoother. Bilinear interpolation of 4 surrounding pixels.
    Bilinear,
}

/// How to handle aspect ratio differences between source and target.
#[derive(Debug, Clone, Copy, PartialEq, Eq, Structural)]
pub enum AspectMode {
    /// Stretch source to fill target dimensions exactly (may distort).
    Stretch,
    /// Scale to fit within target, adding black bars (letterbox/pillarbox).
    Fit,
    /// Scale to fill target, cropping excess (center crop).
    Fill,
}

/// Configuration for the scale filter.
#[derive(Debug, Clone)]
pub struct ScaleFilter {
    target_width: u32,
    target_height: u32,
    interpolation: Interpolation,
    aspect_mode: AspectMode,
}

/// What the filter does with a frame that passed its checks.
#[derive(Debug, Clone, Copy, PartialEq, Eq, Structural)]
pub enum ScaleStep {
    /// The frame already has the (even-rounded) target size.
    Unchanged,
    /// The frame is resized to `width` by `height`.
    Resize { width: u32, height: u32 },
}

impl ScaleFilter {
    /// The requested target size, as (width, height).
    pub closed spec fn spec_target(&self) -> (u32, u32) {
        (self.target_width, self.target_height)
    }

    /// The interpolation method.
    pub closed spec fn spec_interpolation(&self) -> Interpolation {
        self.interpolation
    }

    /// The aspect handling.
    pub closed spec fn spec_aspect_mode(&self) -> AspectMode {
        self.aspect_mode
    }

    /// A filter to `target_width` by `target_height`, bilinear, stretching.
    pub fn new(target_width: u32, target_height: u32) -> (r: ScaleFilter)
        ensures
            r.spec_target() == (target_width, target_height),
            r.spec_interpolation() == Interpolation::Bilinear,
            r.spec_aspect_mode() == AspectMode::Stretch,
    {
        ScaleFilter {
            target_width,
            target_height,
            interpolation: Interpolation::Bilinear,
            aspect_mode: AspectMode::Stretch,
        }
    }

    /// The same filter with another interpolation method.
    pub fn with_interpolation(self, interpolation: Interpolation) -> (r: ScaleFilter)
        ensures
            r.spec_target() == self.spec_target(),
            r.spec_interpolation() == interpolation,
            r.spec_aspect_mode() == self.spec_aspect_mode(),
    {
        let mut s = self;
        s.interpolation = interpolation;
        s
    }

    /// The same filter with another aspect handling.
    pub fn with_aspect_mode(self, aspect_mode: AspectMode) -> (r: ScaleFilter)
        ensures
            r.spec_target() == self.spec_target(),
            r.spec_interpolation() == self.spec_interpolation(),
            r.spec_aspect_mode() == aspect_mode,
    {
        let mut s = self;
        s.aspect_mode = aspect_mode;
        s
    }

    /// Returns the requested target size as (width, height).
    #[verifier::when_used_as_spec(spec_target)]
    pub fn target(&self) -> (r: (u32, u32))
        ensures
            r == self.spec_target(),
    {
        (self.target_width, self.target_height)
    }

    /// Returns the interpolation method.
    #[verifier::when_used_as_spec(spec_interpolation)]
    pub fn interpolation(&self) -> (r: Interpolation)
        ensures
            r == self.spec_interpolation(),
    {
        self.interpolation
    }

    /// Returns the aspect handling.
    #[verifier::when_used_as_spec(spec_aspect_mode)]
    pub fn aspect_mode(&self) -> (r: AspectMode)
        ensures
            r == self.spec_aspect_mode(),
    {
        self.aspect_mode
    }

    /// Checks a frame before scaling: only YUV420p with three planes is
    /// accepted. The target is rounded down to even dimensions; a frame that
    /// already has them is left as it is.
    pub fn plan(&self, frame: &VideoFrame) -> (r: Result<ScaleStep, FilterError>)
        ensures
            frame.pixel_format != PixelFormat::Yuv420p ==> (r matches Err(FilterError::InvalidInput { message })
                && message@ == "scale filter only supports YUV420p, got "@ + pixel_format_name(frame.pixel_format)),
            frame.pixel_format == PixelFormat::Yuv420p && frame.planes@.len() < 3 ==> (r matches Err(
                FilterError::InvalidInput { message },
            ) && message@ == "expected 3 planes for YUV420p, got "@ + dec(frame.planes@.len())),
            frame.pixel_format == PixelFormat::Yuv420p && frame.planes@.len() >= 3 ==> r == Ok::<ScaleStep, FilterError>(
                if frame.width == even(self.spec_target().0) && frame.height == even(self.spec_target().1) {
                    ScaleStep::Unchanged
                } else {
                    ScaleStep::Resize { width: even(self.spec_target().0), height: even(self.spec_target().1) }
                },
            ),
    {
        if frame.pixel_format != PixelFormat::Yuv420p {
            let mut message = String::new();
            push_text(&mut message, "scale filter only supports YUV420p, got ");
            push_pixel_format_name(&mut message, frame.pixel_format);
            return Err(FilterError::InvalidInput { message });
        }
        if frame.planes.len() < 3 {
            let mut message = String::new();
            push_text(&mut message, "expected 3 planes for YUV420p, got ");
            push_dec(&mut message, frame.planes.len() as u64);
            return Err(FilterError::InvalidInput { message });
        }
        let target_w = self.target_width & !1u32;
        let target_h = self.target_height & !1u32;
        if frame.width == target_w && frame.height == target_h {
            Ok(ScaleStep::Unchanged)
        } else {
            Ok(ScaleStep::Resize { width: target_w, height: target_h })
        }
    }
}

/// Where the scaled content goes in the target frame, and which part of
/// the source it is sampled from.
#[derive(Debug, Clone, Copy, PartialEq, Eq, Structural)]
pub struct ScaleRegion {
    /// Offset in target where content starts.
    pub dst_x: u32,
    pub dst_y: u32,
    /// Size of the content region in the target.
    pub dst_w: u32,
    pub dst_h: u32,
    /// Region of the source to sample from.
    pub src_x: u32,
    pub src_y: u32,
    pub src_w: u32,
    pub src_h: u32,
}

/// `v` rounded down to an even number is at most `v`.
proof fn lemma_even_le(v: u32)
    ensures
        even(v) <= v,
        even(v) % 2 == 0,
        v - even(v) <= 1,
{
    assert(v & !1u32 <= v) by (bit_vector);
    assert((v & !1u32) % 2 == 0) by (bit_vector);
    assert(v - (v & !1u32) <= 1) by (bit_vector);
}

/// The whole source stretched over the whole target.
pub fn stretch_region(src_w: u32, src_h: u32, dst_w: u32, dst_h: u32) -> (r: ScaleRegion)
    ensures
        r == (ScaleRegion { dst_x: 0, dst_y: 0, dst_w, dst_h, src_x: 0, src_y: 0, src_w, src_h }),
{
    ScaleRegion { dst_x: 0, dst_y: 0, dst_w, dst_h, src_x: 0, src_y: 0, src_w, src_h }
}

/// The smaller of two sizes.
pub open spec fn min_u32(a: u32, b: u32) -> u32 {
    if a <= b { a } else { b }
}

/// The fit placement: the source scaled by the smaller of the two ratios
/// comes to `scaled_w` by `scaled_h` (truncated); clamped to the target and
/// rounded down to even, it is centred with bars around it.
pub fn fit_region(scaled_w: u32, scaled_h: u32, src_w: u32, src_h: u32, dst_w: u32, dst_h: u32) -> (r: ScaleRegion)
    ensures
        ({
            let cw = even(min_u32(scaled_w, dst_w));
            let ch = even(min_u32(scaled_h, dst_h));
            r == (ScaleRegion {
                dst_x: ((dst_w - cw) / 2) as u32,
                dst_y: ((dst_h - ch) / 2) as u32,
                dst_w: cw,
                dst_h: ch,
                src_x: 0,
                src_y: 0,
                src_w,
                src_h,
            })
        }),
        r.dst_x + r.dst_w <= dst_w,
        r.dst_y + r.dst_h <= dst_h,
{
    let content_w = if scaled_w <= dst_w { scaled_w } else { dst_w };
    let content_h = if scaled_h <= dst_h { scaled_h } else { dst_h };
    let content_w = content_w & !1u32;
    let content_h = content_h & !1u32;
    proof {
        lemma_even_le(min_u32(scaled_w, dst_w));
        lemma_even_le(min_u32(scaled_h, dst_h));
    }
    let offset_x = (dst_w - content_w) / 2;
    let offset_y = (dst_h - content_h) / 2;
    ScaleRegion {
        dst_x: offset_x,
        dst_y: offset_y,
        dst_w: content_w,
        dst_h: content_h,
        src_x: 0,
        src_y: 0,
        src_w,
        src_h,
    }
}

/// The fill placement: the target divided by the larger of the two ratios
/// samples `sampled_w` by `sampled_h` of the source (truncated); clamped to
/// the source and rounded down to even, that part is taken from the centre.
pub fn fill_region(sampled_w: u32, sampled_h: u32, src_w: u32, src_h: u32, dst_w: u32, dst_h: u32) -> (r: ScaleRegion)
    ensures
        ({
            let sw = even(min_u32(sampled_w, src_w));
            let sh = even(min_u32(sampled_h, src_h));
            r == (ScaleRegion {
                dst_x: 0,
                dst_y: 0,
                dst_w,
                dst_h,
                src_x: ((src_w - sw) / 2) as u32,
                src_y: ((src_h - sh) / 2) as u32,
                src_w: sw,
                src_h: sh,
            })
        }),
        r.src_x + r.src_w <= src_w,
        r.src_y + r.src_h <= src_h,
{
    let sample_w = if sampled_w <= src_w { sampled_w } else { src_w };
    let sample_h = if sampled_h <= src_h { sampled_h } else { src_h };
    let sample_w = sample_w & !1u32;
    let sample_h = sample_h & !1u32;
    proof {
        lemma_even_le(min_u32(sampled_w, src_w));
        lemma_even_le(min_u32(sampled_h, src_h));
    }
    let crop_x = (src_w - sample_w) / 2;
    let crop_y = (src_h - sample_h) / 2;
    ScaleRegion {
        dst_x: 0,
        dst_y: 0,
        dst_w,
        dst_h,
        src_x: crop_x,
        src_y: crop_y,
        src_w: sample_w,
        src_h: sample_h,
    }
}

/// The part of one plane that is resampled, and the size it is resampled to.
#[derive(Debug, Clone, Copy, PartialEq, Eq, Structural)]
pub struct PlaneScaleParams {
    pub src_x: u32,
    pub src_y: u32,
    pub src_w: u32,
    pub src_h: u32,
    pub dst_w: u32,
    pub dst_h: u32,
}

/// The resampling of one plane for a region: the region itself for luma,
/// every coordinate halved for the 4:2:0 chroma planes.
pub open spec fn spec_plane_params(region: ScaleRegion, chroma: bool) -> PlaneScaleParams {
    if chroma {
        PlaneScaleParams {
            src_x: region.src_x / 2,
            src_y: region.src_y / 2,
            src_w: region.src_w / 2,
            src_h: region.src_h / 2,
            dst_w: region.dst_w / 2,
            dst_h: region.dst_h / 2,
        }
    } else {
        PlaneScaleParams {
            src_x: region.src_x,
            src_y: region.src_y,
            src_w: region.src_w,
            src_h: region.src_h,
            dst_w: region.dst_w,
            dst_h: region.dst_h,
        }
    }
}

/// The resampling of one plane for a region (chroma planes at half size).
pub fn plane_params(region: &ScaleRegion, chroma: bool) -> (r: PlaneScaleParams)
    ensures
        r == spec_plane_params(*region, chroma),
{
    if chroma {
        PlaneScaleParams {
            src_x: region.src_x / 2,
            src_y: region.src_y / 2,
            src_w: region.src_w / 2,
            src_h: region.src_h / 2,
            dst_w: region.dst_w / 2,
            dst_h: region.dst_h / 2,
        }
    } else {
        PlaneScaleParams {
            src_x: region.src_x,
            src_y: region.src_y,
            src_w: region.src_w,
            src_h: region.src_h,
            dst_w: region.dst_w,
            dst_h: region.dst_h,
        }
    }
}

/// Source row sampled for output row `y` by nearest-neighbour resampling.
pub open spec fn nearest_row(p: PlaneScaleParams, y: int) -> int {
    p.src_y + y * p.src_h / (p.dst_h as int)
}

/// Source column sampled for output column `x`.
pub open spec fn nearest_col(p: PlaneScaleParams, x: int) -> int {
    p.src_x + x * p.src_w / (p.dst_w as int)
}

/// Whether nearest-neighbour resampling of a plane of `len` bytes with the
/// given stride stays within the plane, and its sample positions within
/// `u32` and `usize`.
pub open spec fn nearest_fits(p: PlaneScaleParams, stride: int, len: int) -> bool {
    &&& p.dst_w * p.dst_h <= usize::MAX
    &&& forall|y: int| 0 <= y < p.dst_h ==> #[trigger] nearest_row(p, y) <= u32::MAX && nearest_row(p, y) * stride
        <= usize::MAX
    &&& p.dst_h > 0 ==> forall|x: int| 0 <= x < p.dst_w ==> #[trigger] nearest_col(p, x) <= u32::MAX
    &&& forall|y: int, x: int|
        0 <= y < p.dst_h && 0 <= x < p.dst_w ==> #[trigger] nearest_row(p, y) * stride + #[trigger] nearest_col(p, x)
            < len
}

/// The first `rows` rows of a nearest-neighbour resampled plane, each
/// `dst_w` bytes, back to back.
pub open spec fn nearest_plane(src: Seq<u8>, stride: int, p: PlaneScaleParams, rows: int) -> Seq<u8>
    decreases rows,
{
    if rows <= 0 {
        seq![]
    } else {
        nearest_plane(src, stride, p, rows - 1) + Seq::new(
            p.dst_w as nat,
            |x: int| src[nearest_row(p, rows - 1) * stride + nearest_col(p, x)],
        )
    }
}

/// Resamples one plane by picking, for each output pixel, the source pixel
/// its position maps to. `None` when a sampled position would leave the
/// plane or overflow.
pub fn scale_plane_nearest(src: &[u8], src_stride: usize, p: &PlaneScaleParams) -> (r: Option<Vec<u8>>)
    ensures
        r is Some <==> nearest_fits(*p, src_stride as int, src@.len() as int),
        r matches Some(v) ==> v@ == nearest_plane(src@, src_stride as int, *p, p.dst_h as int),
{
    let ghost stride = src_stride as int;
    let ghost len = src@.len() as int;
    let cells = (p.dst_w as usize).checked_mul(p.dst_h as usize);
    if cells.is_none() {
        return None;
    }
    let mut dst: Vec<u8> = Vec::new();
    let mut y: u32 = 0;
    while y < p.dst_h
        invariant
            y <= p.dst_h,
            stride == src_stride as int,
            len == src@.len() as int,
            p.dst_w * p.dst_h <= usize::MAX,
            dst@ == nearest_plane(src@, stride, *p, y as int),
            forall|yy: int| 0 <= yy < y ==> #[trigger] nearest_row(*p, yy) <= u32::MAX && nearest_row(*p, yy) * stride
                <= usize::MAX,
            y > 0 ==> forall|x: int| 0 <= x < p.dst_w ==> #[trigger] nearest_col(*p, x) <= u32::MAX,
            forall|yy: int, x: int|
                0 <= yy < y && 0 <= x < p.dst_w ==> #[trigger] nearest_row(*p, yy) * stride + #[trigger] nearest_col(*p, x)
                    < len,
        decreases p.dst_h - y,
    {
        assert(y as u64 * p.src_h as u64 <= 0xffff_fffe_0000_0001u64) by (nonlinear_arith)
            requires y <= 0xffff_ffffu32, p.src_h <= 0xffff_ffffu32;
        let prod: u64 = y as u64 * p.src_h as u64;
        let q: u64 = prod / p.dst_h as u64;
        assert(q <= prod) by (nonlinear_arith)
            requires q == prod / (p.dst_h as u64), p.dst_h > 0;
        let sy: u64 = p.src_y as u64 + q;
        assert(sy == nearest_row(*p, y as int));
        if sy > u32::MAX as u64 {
            return None;
        }
        assert(sy as u128 * src_stride as u128 <= 0xffff_ffff_ffff_ffff_ffff_ffff_ffff_ffffu128) by (nonlinear_arith)
            requires sy <= 0xffff_ffffu64, src_stride <= 0xffff_ffff_ffff_ffffu64;
        let row_start: u128 = sy as u128 * src_stride as u128;
        if row_start > usize::MAX as u128 {
            return None;
        }
        let src_row: usize = row_start as usize;
        assert(src_row == nearest_row(*p, y as int) * stride);
        let ghost prev = dst@;
        let mut x: u32 = 0;
        while x < p.dst_w
            invariant
                x <= p.dst_w,
                y < p.dst_h,
                stride == src_stride as int,
                len == src@.len() as int,
                sy == nearest_row(*p, y as int),
                src_row == nearest_row(*p, y as int) * stride,
                dst@ == prev + Seq::new(x as nat, |xx: int| src@[nearest_row(*p, y as int) * stride + nearest_col(*p, xx)]),
                forall|xx: int| 0 <= xx < x ==> #[trigger] nearest_col(*p, xx) <= u32::MAX,
                forall|xx: int| 0 <= xx < x ==> nearest_row(*p, y as int) * stride + #[trigger] nearest_col(*p, xx) < len,
            decreases p.dst_w - x,
        {
            assert(x as u64 * p.src_w as u64 <= 0xffff_fffe_0000_0001u64) by (nonlinear_arith)
                requires x <= 0xffff_ffffu32, p.src_w <= 0xffff_ffffu32;
            let prod_x: u64 = x as u64 * p.src_w as u64;
            let qx: u64 = prod_x / p.dst_w as u64;
            assert(qx <= prod_x) by (nonlinear_arith)
                requires qx == prod_x / (p.dst_w as u64), p.dst_w > 0;
            let sx: u64 = p.src_x as u64 + qx;
            assert(sx == nearest_col(*p, x as int));
            if sx > u32::MAX as u64 {
                return None;
            }
            let idx_wide: u128 = src_row as u128 + sx as u128;
            if idx_wide >= src.len() as u128 {
                proof {
                    assert(nearest_row(*p, y as int) * stride + nearest_col(*p, x as int) >= len);
                    assert(!nearest_fits(*p, stride, len));
                }
                return None;
            }
            let idx: usize = idx_wide as usize;
            dst.push(src[idx]);
            x = x + 1;
            assert(dst@ =~= prev + Seq::new(x as nat, |xx: int| src@[nearest_row(*p, y as int) * stride + nearest_col(*p, xx)]));
        }
        assert(dst@ =~= nearest_plane(src@, stride, *p, y + 1));
        y = y + 1;
    }
    Some(dst)
}

/// Nearest-neighbour resampling of a uniform plane is uniform: every
/// output byte is the one value of the source.
pub proof fn lemma_nearest_uniform(src: Seq<u8>, stride: int, p: PlaneScaleParams, v: u8)
    requires
        0 <= stride,
        nearest_fits(p, stride, src.len() as int),
        forall|i: int| 0 <= i < src.len() ==> #[trigger] src[i] == v,
    ensures
        forall|i: int| 0 <= i < nearest_plane(src, stride, p, p.dst_h as int).len()
            ==> #[trigger] nearest_plane(src, stride, p, p.dst_h as int)[i] == v,
{
    lemma_nearest_uniform_rows(src, stride, p, v, p.dst_h as int);
}

proof fn lemma_nearest_uniform_rows(src: Seq<u8>, stride: int, p: PlaneScaleParams, v: u8, rows: int)
    requires
        0 <= stride,
        nearest_fits(p, stride, src.len() as int),
        forall|i: int| 0 <= i < src.len() ==> #[trigger] src[i] == v,
        rows <= p.dst_h,
    ensures
        forall|i: int| 0 <= i < nearest_plane(src, stride, p, rows).len()
            ==> #[trigger] nearest_plane(src, stride, p, rows)[i] == v,
    decreases rows,
{
    if rows > 0 {
        lemma_nearest_uniform_rows(src, stride, p, v, rows - 1);
        let prev = nearest_plane(src, stride, p, rows - 1);
        let row = Seq::new(p.dst_w as nat, |x: int| src[nearest_row(p, rows - 1) * stride + nearest_col(p, x)]);
        assert forall|x: int| 0 <= x < row.len() implies #[trigger] row[x] == v by {
            assert(nearest_row(p, rows - 1) * stride + nearest_col(p, x) < src.len());
            assert(nearest_row(p, rows - 1) * stride + nearest_col(p, x) >= 0) by (nonlinear_arith)
                requires nearest_row(p, rows - 1) >= 0, stride >= 0, nearest_col(p, x) >= 0;
        }
        assert forall|i: int| 0 <= i < nearest_plane(src, stride, p, rows).len()
            implies #[trigger] nearest_plane(src, stride, p, rows)[i] == v by {
            if i < prev.len() {
                assert(nearest_plane(src, stride, p, rows)[i] == prev[i]);
            } else {
                assert(nearest_plane(src, stride, p, rows)[i] == row[i - prev.len()]);
            }
        }
    }
}

/// `canvas`, a plane with the given stride, with `rows` rows of `content`
/// (each `w` bytes, back to back) written over it from column `x` of
/// rows `y`, `y + 1`, ...
pub open spec fn paste(canvas: Seq<u8>, stride: int, x: int, y: int, w: int, rows: int, content: Seq<u8>) -> Seq<u8>
    decreases rows,
{
    if rows <= 0 {
        canvas
    } else {
        let prev = paste(canvas, stride, x, y, w, rows - 1, content);
        let start = (y + rows - 1) * stride + x;
        prev.subrange(0, start) + content.subrange((rows - 1) * w, rows * w) + prev.subrange(start + w, prev.len() as int)
    }
}

/// Whether `h` rows of `w` bytes from `content` fit at column `x`, row `y`
/// of a plane of `len` bytes with the given stride.
pub open spec fn paste_fits(len: int, stride: int, x: int, y: int, w: int, h: int, content_len: int) -> bool {
    &&& 0 <= x
    &&& 0 <= y
    &&& 0 <= w
    &&& 0 <= h
    &&& x + w <= stride
    &&& (y + h) * stride <= len
    &&& w * h <= content_len
}

proof fn lemma_paste_fits_fewer(len: int, stride: int, x: int, y: int, w: int, h: int, content_len: int)
    requires
        paste_fits(len, stride, x, y, w, h, content_len),
        h > 0,
    ensures
        paste_fits(len, stride, x, y, w, h - 1, content_len),
        (y + h - 1) * stride + x + w <= len,
        w * (h - 1) + w == w * h,
        (y + h - 1) * stride >= 0,
{
    assert((y + h - 1) * stride + stride == (y + h) * stride) by (nonlinear_arith);
    assert((y + h - 1) * stride >= 0) by (nonlinear_arith)
        requires y + h - 1 >= 0, stride >= 0;
    assert(w * (h - 1) + w == w * h) by (nonlinear_arith);
}

proof fn lemma_paste_fits_mono(len: int, stride: int, x: int, y: int, w: int, h: int, k: int, content_len: int)
    requires
        paste_fits(len, stride, x, y, w, h, content_len),
        0 <= k <= h,
    ensures
        paste_fits(len, stride, x, y, w, k, content_len),
{
    assert((y + k) * stride <= (y + h) * stride) by (nonlinear_arith)
        requires k <= h, x + w <= stride, x >= 0, w >= 0;
    assert(w * k <= w * h) by (nonlinear_arith)
        requires k <= h, w >= 0;
}

proof fn lemma_paste_len(canvas: Seq<u8>, stride: int, x: int, y: int, w: int, rows: int, content: Seq<u8>)
    requires
        paste_fits(canvas.len() as int, stride, x, y, w, rows, content.len() as int),
    ensures
        paste(canvas, stride, x, y, w, rows, content).len() == canvas.len(),
    decreases rows,
{
    if rows > 0 {
        lemma_paste_fits_fewer(canvas.len() as int, stride, x, y, w, rows, content.len() as int);
        lemma_paste_len(canvas, stride, x, y, w, rows - 1, content);
    }
}

/// Writes `h` rows of `content` into `canvas` at column `x`, row `y`.
#[verifier::rlimit(40)]
fn paste_rows(canvas: &mut Vec<u8>, stride: usize, x: u32, y: u32, w: u32, h: u32, content: &[u8])
    requires
        paste_fits(old(canvas)@.len() as int, stride as int, x as int, y as int, w as int, h as int, content@.len() as int),
        y + h <= u32::MAX,
    ensures
        final(canvas)@ == paste(old(canvas)@, stride as int, x as int, y as int, w as int, h as int, content@),
{
    let ghost base = canvas@;
    let total = canvas.len();
    let content_len = content.len();
    let mut row: u32 = 0;
    while row < h
        invariant
            row <= h,
            y + h <= u32::MAX,
            total == base.len(),
            content_len == content@.len(),
            paste_fits(base.len() as int, stride as int, x as int, y as int, w as int, h as int, content@.len() as int),
            canvas@ == paste(base, stride as int, x as int, y as int, w as int, row as int, content@),
        decreases h - row,
    {
        proof {
            lemma_paste_fits_mono(base.len() as int, stride as int, x as int, y as int, w as int, h as int,
                (row + 1) as int, content@.len() as int);
            lemma_paste_fits_mono(base.len() as int, stride as int, x as int, y as int, w as int, h as int,
                row as int, content@.len() as int);
            lemma_paste_fits_fewer(base.len() as int, stride as int, x as int, y as int, w as int, (row + 1) as int,
                content@.len() as int);
            lemma_paste_len(base, stride as int, x as int, y as int, w as int, row as int, content@);
            assert(row * w + w <= content@.len()) by (nonlinear_arith)
                requires w * (row + 1) <= content@.len(), row >= 0, w >= 0;
            assert((y + row) * stride + x + w <= total) by (nonlinear_arith)
                requires (y + row + 1) * stride <= total, x + w <= stride;
            assert((y + row) * stride >= 0) by (nonlinear_arith)
                requires y + row >= 0, stride >= 0;
            assert((y + (row + 1) - 1) * stride == (y + row) * stride);
            assert((row + 1 - 1) * w == row * w);
            assert((row + 1) * w == row * w + w) by (nonlinear_arith);
        }
        let yr: usize = (y + row) as usize;
        assert(yr * stride + x + w <= total) by (nonlinear_arith)
            requires yr == y + row, (y + row) * stride + x + w <= total;
        let start: usize = yr * stride + x as usize;
        let from: usize = row as usize * w as usize;
        let ghost prev = canvas@;
        let mut c: u32 = 0;
        while c < w
            invariant
                c <= w,
                prev.len() == total,
                content_len == content@.len(),
                start + w <= prev.len(),
                from + w <= content@.len(),
                canvas@ == prev.subrange(0, start as int) + content@.subrange(from as int, from + c)
                    + prev.subrange(start + c, prev.len() as int),
            decreases w - c,
        {
            canvas.set(start + c as usize, content[from + c as usize]);
            c = c + 1;
            assert(canvas@ =~= prev.subrange(0, start as int) + content@.subrange(from as int, from + c)
                + prev.subrange(start + c, prev.len() as int));
        }
        row = row + 1;
        assert(canvas@ =~= paste(base, stride as int, x as int, y as int, w as int, row as int, content@));
    }
}

/// Scaled content lands in its region: a pasted plane holds row `r`,
/// column `c` of the content at row `y + r`, column `x + c`.
pub proof fn lemma_paste_content(canvas: Seq<u8>, stride: int, x: int, y: int, w: int, h: int, content: Seq<u8>, r: int, c: int)
    requires
        paste_fits(canvas.len() as int, stride, x, y, w, h, content.len() as int),
        0 <= r < h,
        0 <= c < w,
    ensures
        paste(canvas, stride, x, y, w, h, content)[(y + r) * stride + x + c] == content[r * w + c],
    decreases h,
{
    lemma_paste_fits_fewer(canvas.len() as int, stride, x, y, w, h, content.len() as int);
    lemma_paste_len(canvas, stride, x, y, w, h - 1, content);
    let start = (y + h - 1) * stride + x;
    assert((y + r) * stride >= 0) by (nonlinear_arith)
        requires y + r >= 0, stride >= 0;
    if r < h - 1 {
        lemma_paste_content(canvas, stride, x, y, w, h - 1, content, r, c);
        assert((y + r) * stride + stride <= (y + h - 1) * stride) by (nonlinear_arith)
            requires r < h - 1, stride >= 0;
    } else {
        assert((h - 1) * w + c < h * w) by (nonlinear_arith)
            requires c < w, h >= 1;
    }
}

/// Outside its region a pasted plane keeps the canvas: the black bars of a
/// fitted frame stay black.
pub proof fn lemma_paste_keeps_outside(canvas: Seq<u8>, stride: int, x: int, y: int, w: int, h: int, content: Seq<u8>, i: int)
    requires
        paste_fits(canvas.len() as int, stride, x, y, w, h, content.len() as int),
        0 <= i < canvas.len(),
        forall|r: int| 0 <= r < h ==> !((y + r) * stride + x <= i < #[trigger] ((y + r) * stride) + x + w),
    ensures
        paste(canvas, stride, x, y, w, h, content)[i] == canvas[i],
    decreases h,
{
    if h > 0 {
        lemma_paste_fits_fewer(canvas.len() as int, stride, x, y, w, h, content.len() as int);
        lemma_paste_len(canvas, stride, x, y, w, h - 1, content);
        lemma_paste_keeps_outside(canvas, stride, x, y, w, h - 1, content, i);
        let r = h - 1;
        assert(!((y + r) * stride + x <= i < ((y + r) * stride) + x + w));
    }
}

/// A plane of `n` bytes all equal to `b`.
pub open spec fn filled(n: int, b: u8) -> Seq<u8> {
    Seq::new(n as nat, |_i: int| b)
}

/// The buffer of a scaled YUV420p frame of `tw` by `th`: a black luma
/// plane (0) and neutral chroma planes (128), with the scaled planes
/// written over them at the region.
pub open spec fn yuv420_data(tw: u32, th: u32, region: ScaleRegion, y: Seq<u8>, u: Seq<u8>, v: Seq<u8>) -> Seq<u8> {
    let cw = tw / 2;
    let ch = th / 2;
    paste(filled(tw * th, 0), tw as int, region.dst_x as int, region.dst_y as int, region.dst_w as int, region.dst_h as int, y)
        + paste(filled(cw * ch, 128), cw as int, (region.dst_x / 2) as int, (region.dst_y / 2) as int,
            (region.dst_w / 2) as int, (region.dst_h / 2) as int, u)
        + paste(filled(cw * ch, 128), cw as int, (region.dst_x / 2) as int, (region.dst_y / 2) as int,
            (region.dst_w / 2) as int, (region.dst_h / 2) as int, v)
}

/// Whether a frame of `tw` by `th` fits in memory, the region lies inside
/// it, and the scaled planes hold the region's pixels.
pub open spec fn yuv420_fits(tw: u32, th: u32, region: ScaleRegion, y_len: int, u_len: int, v_len: int) -> bool {
    &&& tw * th + 2 * ((tw / 2) * (th / 2)) <= usize::MAX
    &&& region.dst_x + region.dst_w <= tw
    &&& region.dst_y + region.dst_h <= th
    &&& region.dst_w * region.dst_h <= y_len
    &&& (region.dst_w / 2) * (region.dst_h / 2) <= u_len
    &&& (region.dst_w / 2) * (region.dst_h / 2) <= v_len
}

proof fn lemma_chroma_paste_fits(tw: u32, th: u32, region: ScaleRegion, content_len: int)
    requires
        region.dst_x + region.dst_w <= tw,
        region.dst_y + region.dst_h <= th,
        (region.dst_w / 2) * (region.dst_h / 2) <= content_len,
    ensures
        paste_fits((tw / 2) * (th / 2), (tw / 2) as int, (region.dst_x / 2) as int, (region.dst_y / 2) as int,
            (region.dst_w / 2) as int, (region.dst_h / 2) as int, content_len),
{
    let cw = (tw / 2) as int;
    let ch = (th / 2) as int;
    assert(region.dst_y / 2 + region.dst_h / 2 <= ch);
    assert((region.dst_y / 2 + region.dst_h / 2) * cw <= cw * ch) by (nonlinear_arith)
        requires region.dst_y / 2 + region.dst_h / 2 <= ch, cw >= 0;
}

/// Builds the buffer and plane layouts of a YUV420p frame of `tw` by `th`
/// with black bars and the scaled planes placed at the region.
#[verifier::rlimit(40)]
fn build_yuv420_frame(tw: u32, th: u32, region: &ScaleRegion, y_scaled: &[u8], u_scaled: &[u8], v_scaled: &[u8]) -> (r: (
    Vec<u8>,
    Vec<PlaneLayout>,
))
    requires
        yuv420_fits(tw, th, *region, y_scaled@.len() as int, u_scaled@.len() as int, v_scaled@.len() as int),
    ensures
        r.0@ == yuv420_data(tw, th, *region, y_scaled@, u_scaled@, v_scaled@),
        r.1@ == yuv420_layouts(tw, th),
{
    let cw = tw / 2;
    let ch = th / 2;
    assert(cw * ch <= tw * th) by (nonlinear_arith)
        requires cw == tw / 2, ch == th / 2;
    let y_size: usize = tw as usize * th as usize;
    let uv_size: usize = cw as usize * ch as usize;
    proof {
        assert((region.dst_y + region.dst_h) * tw <= tw * th) by (nonlinear_arith)
            requires region.dst_y + region.dst_h <= th;
        lemma_chroma_paste_fits(tw, th, *region, u_scaled@.len() as int);
        lemma_chroma_paste_fits(tw, th, *region, v_scaled@.len() as int);
    }
    let mut y_plane: Vec<u8> = Vec::new();
    crate::wire::push_repeat(&mut y_plane, 0, y_size);
    assert(y_plane@ =~= filled(tw * th, 0));
    paste_rows(&mut y_plane, tw as usize, region.dst_x, region.dst_y, region.dst_w, region.dst_h, y_scaled);
    let mut u_plane: Vec<u8> = Vec::new();
    crate::wire::push_repeat(&mut u_plane, 128, uv_size);
    assert(u_plane@ =~= filled(cw * ch, 128));
    paste_rows(&mut u_plane, cw as usize, region.dst_x / 2, region.dst_y / 2, region.dst_w / 2, region.dst_h / 2, u_scaled);
    let mut v_plane: Vec<u8> = Vec::new();
    crate::wire::push_repeat(&mut v_plane, 128, uv_size);
    assert(v_plane@ =~= filled(cw * ch, 128));
    paste_rows(&mut v_plane, cw as usize, region.dst_x / 2, region.dst_y / 2, region.dst_w / 2, region.dst_h / 2, v_scaled);
    let mut buf: Vec<u8> = Vec::new();
    crate::wire::push_slice(&mut buf, y_plane.as_slice());
    crate::wire::push_slice(&mut buf, u_plane.as_slice());
    crate::wire::push_slice(&mut buf, v_plane.as_slice());
    let mut planes: Vec<PlaneLayout> = Vec::new();
    planes.push(PlaneLayout { offset: 0, stride: tw as usize, width: tw, height: th });
    planes.push(PlaneLayout { offset: y_size, stride: cw as usize, width: cw, height: ch });
    planes.push(PlaneLayout { offset: y_size + uv_size, stride: cw as usize, width: cw, height: ch });
    assert(planes@ =~= yuv420_layouts(tw, th));
    assert(buf@ =~= yuv420_data(tw, th, *region, y_scaled@, u_scaled@, v_scaled@));
    (buf, planes)
}

/// Assembles the output frame of the scale filter from the scaled planes:
/// a YUV420p frame of `tw` by `th` with the content at the region, black
/// bars around it, and the source's colour space and timestamp.
#[verifier::rlimit(40)]
pub fn assemble_scaled_frame(
    tw: u32,
    th: u32,
    region: &ScaleRegion,
    y_scaled: &[u8],
    u_scaled: &[u8],
    v_scaled: &[u8],
    color_space: Option<ColorSpace>,
    pts: Timestamp,
) -> (r: Result<VideoFrame, FilterError>)
    requires
        yuv420_fits(tw, th, *region, y_scaled@.len() as int, u_scaled@.len() as int, v_scaled@.len() as int),
    ensures
        r matches Ok(f) && f.width == tw && f.height == th && f.pixel_format == PixelFormat::Yuv420p
            && f.color_space == color_space && f.pts == pts
            && f.data@ == yuv420_data(tw, th, *region, y_scaled@, u_scaled@, v_scaled@)
            && f.planes@ == yuv420_layouts(tw, th) && f.planes_fit(),
{
    let (buf, planes) = build_yuv420_frame(tw, th, region, y_scaled, u_scaled, v_scaled);
    proof {
        let cw = tw / 2;
        let ch = th / 2;
        assert(tw * th >= 0 && cw * ch >= 0) by (nonlinear_arith)
            requires cw == tw / 2, ch == th / 2;
        assert((region.dst_y + region.dst_h) * tw <= tw * th) by (nonlinear_arith)
            requires region.dst_y + region.dst_h <= th;
        lemma_paste_len(filled(tw * th, 0), tw as int, region.dst_x as int, region.dst_y as int, region.dst_w as int,
            region.dst_h as int, y_scaled@);
        lemma_chroma_paste_fits(tw, th, *region, u_scaled@.len() as int);
        lemma_chroma_paste_fits(tw, th, *region, v_scaled@.len() as int);
        lemma_paste_len(filled(cw * ch, 128), cw as int, (region.dst_x / 2) as int, (region.dst_y / 2) as int,
            (region.dst_w / 2) as int, (region.dst_h / 2) as int, u_scaled@);
        lemma_paste_len(filled(cw * ch, 128), cw as int, (region.dst_x / 2) as int, (region.dst_y / 2) as int,
            (region.dst_w / 2) as int, (region.dst_h / 2) as int, v_scaled@);
        assert(buf@.len() == tw * th + 2 * (cw * ch));
        reveal_with_fuel(crate::media::first_bad_plane, 4);
        assert(planes@.drop_last().drop_last().drop_last() =~= Seq::<PlaneLayout>::empty());
        assert(first_plane_ok(planes@, buf@.len() as int));
    }
    match VideoFrame::new(tw, th, PixelFormat::Yuv420p, color_space, pts, buf, planes) {
        Ok(f) => Ok(f),
        Err(e) => Err(FilterError::Other(e.to_string())),
    }
}

} // verus!
