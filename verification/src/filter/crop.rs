//! Crop filter for video frames.
//!
//! Extracts a rectangular sub-region from YUV420p frames. Crop coordinates
//! are rounded down to even values for chroma alignment.

use vstd::prelude::*;
use crate::error::FilterError;
use crate::media::{PixelFormat, PlaneLayout, VideoFrame};
use crate::text::{dec, push_dec, push_text};
use crate::traits::VideoFilter;
use crate::wire::{push_slice, sub_slice};

verus! {

/// The name `Debug` prints for a pixel format.
pub open spec fn pixel_format_name(p: PixelFormat) -> Seq<char> {
    match p {
        PixelFormat::Yuv420p => "Yuv420p"@,
        PixelFormat::Yuv420p10 => "Yuv420p10"@,
        PixelFormat::Yuv422p => "Yuv422p"@,
        PixelFormat::Yuv422p10 => "Yuv422p10"@,
        PixelFormat::Yuv444p => "Yuv444p"@,
        PixelFormat::Rgba => "Rgba"@,
        PixelFormat::Gray8 => "Gray8"@,
    }
}

/// Appends the name `Debug` prints for a pixel format.
pub fn push_pixel_format_name(s: &mut String, p: PixelFormat)
    ensures
        final(s)@ == old(s)@ + pixel_format_name(p),
{
    match p {
        PixelFormat::Yuv420p => push_text(s, "Yuv420p"),
        PixelFormat::Yuv420p10 => push_text(s, "Yuv420p10"),
        PixelFormat::Yuv422p => push_text(s, "Yuv422p"),
        PixelFormat::Yuv422p10 => push_text(s, "Yuv422p10"),
        PixelFormat::Yuv444p => push_text(s, "Yuv444p"),
        PixelFormat::Rgba => push_text(s, "Rgba"),
        PixelFormat::Gray8 => push_text(s, "Gray8"),
    }
}

/// `v` rounded down to an even number.
pub open spec fn even(v: u32) -> u32 {
    v & !1u32
}

/// Crop filter that extracts a rectangular region from each video frame.
///
/// Coordinates are snapped to even values to maintain YUV420p chroma
/// alignment; width and height are never zero.
#[derive(Debug, Clone)]
pub struct CropFilter {
    x: u32,
    y: u32,
    width: u32,
    height: u32,
}

/// The rows `y .. y + rows` of a plane with the given stride, each cut to
/// the `w` bytes from column `x`, back to back.
pub open spec fn cropped(src: Seq<u8>, stride: int, x: int, y: int, w: int, rows: int) -> Seq<u8>
    decreases rows,
{
    if rows <= 0 {
        seq![]
    } else {
        let start = (y + rows - 1) * stride + x;
        cropped(src, stride, x, y, w, rows - 1) + src.subrange(start, start + w)
    }
}

/// Whether cropping `w` by `h` from `(x, y)` stays within a plane of `len`
/// bytes with the given stride, and the result fits in memory.
pub open spec fn crop_fits(len: int, stride: int, x: int, y: int, w: int, h: int) -> bool {
    &&& w * h <= usize::MAX
    &&& y + h <= usize::MAX
    &&& (h == 0 || (y + h - 1) * stride + x + w <= len)
}

/// Row `r`, column `c` of a cropped plane is the source byte at row `y + r`,
/// column `x + c`.
pub proof fn lemma_cropped_pixel(src: Seq<u8>, stride: int, x: int, y: int, w: int, h: int, r: int, c: int)
    requires
        0 <= stride,
        0 <= x,
        0 <= y,
        0 <= r < h,
        0 <= c < w,
        (y + h - 1) * stride + x + w <= src.len(),
    ensures
        cropped(src, stride, x, y, w, h).len() == w * h,
        cropped(src, stride, x, y, w, h)[r * w + c] == src[(y + r) * stride + x + c],
    decreases h,
{
    lemma_cropped_len(src, stride, x, y, w, h);
    if r < h - 1 {
        assert((y + (h - 1) - 1) * stride <= (y + h - 1) * stride) by (nonlinear_arith)
            requires stride >= 0;
        lemma_cropped_pixel(src, stride, x, y, w, h - 1, r, c);
        assert(r * w + c < (h - 1) * w) by (nonlinear_arith)
            requires 0 <= r < h - 1, 0 <= c < w;
    } else {
        if h > 1 {
            assert((y + (h - 1) - 1) * stride <= (y + h - 1) * stride) by (nonlinear_arith)
                requires stride >= 0;
        }
        lemma_cropped_len(src, stride, x, y, w, h - 1);
        assert(r * w == (h - 1) * w);
        assert((y + r) * stride >= 0) by (nonlinear_arith) requires y + r >= 0, stride >= 0;
    }
}

proof fn lemma_cropped_len(src: Seq<u8>, stride: int, x: int, y: int, w: int, h: int)
    requires
        0 <= stride,
        0 <= x,
        0 <= y,
        0 <= w,
        0 <= h,
        h > 0 ==> (y + h - 1) * stride + x + w <= src.len(),
    ensures
        cropped(src, stride, x, y, w, h).len() == w * h,
    decreases h,
{
    if h > 0 {
        if h > 1 {
            assert((y + (h - 1) - 1) * stride <= (y + h - 1) * stride) by (nonlinear_arith)
                requires stride >= 0;
        }
        lemma_cropped_len(src, stride, x, y, w, h - 1);
        assert(w * (h - 1) + w == w * h) by (nonlinear_arith);
        assert((y + h - 1) * stride >= 0) by (nonlinear_arith) requires y + h - 1 >= 0, stride >= 0;
        let start = (y + h - 1) * stride + x;
        assert(cropped(src, stride, x, y, w, h) == cropped(src, stride, x, y, w, h - 1)
            + src.subrange(start, start + w));
    } else {
        assert(w * h == 0) by (nonlinear_arith) requires h == 0;
    }
}

/// Copies a rectangular sub-region from a plane into a new contiguous buffer.
fn crop_plane(src: &[u8], src_stride: usize, x: u32, y: u32, w: u32, h: u32) -> (r: Vec<u8>)
    requires
        crop_fits(src@.len() as int, src_stride as int, x as int, y as int, w as int, h as int),
    ensures
        r@ == cropped(src@, src_stride as int, x as int, y as int, w as int, h as int),
        r@.len() == w * h,
{
    let mut dst: Vec<u8> = Vec::new();
    let mut row: u32 = 0;
    proof {
        lemma_cropped_len(src@, src_stride as int, x as int, y as int, w as int, h as int);
    }
    while row < h
        invariant
            row <= h,
            crop_fits(src@.len() as int, src_stride as int, x as int, y as int, w as int, h as int),
            dst@ == cropped(src@, src_stride as int, x as int, y as int, w as int, row as int),
        decreases h - row,
    {
        proof {
            assert((y + row) * src_stride <= (y + h - 1) * src_stride) by (nonlinear_arith)
                requires row <= h - 1, src_stride >= 0;
            assert((y + row) * src_stride >= 0) by (nonlinear_arith)
                requires y + row >= 0, src_stride >= 0;
            assert((y + row) * src_stride + x + w <= src@.len());
            assert(y + row <= usize::MAX);
        }
        let yr: usize = y as usize + row as usize;
        let src_len = src.len();
        assert(yr * src_stride + x + w <= src_len);
        let start = yr * src_stride + x as usize;
        push_slice(&mut dst, sub_slice(src, start, start + w as usize));
        row = row + 1;
    }
    dst
}

/// The three planes of a frame cropped by the filter, when the crop is not
/// the whole frame.
pub open spec fn cropped_frame_data(c: CropFilter, f: VideoFrame) -> Seq<u8> {
    let cw = c.spec_region().2 / 2;
    let ch = c.spec_region().3 / 2;
    cropped(plane_bytes(f, 0), f.planes@[0].stride as int, c.spec_region().0 as int, c.spec_region().1 as int, c.spec_region().2 as int, c.spec_region().3 as int)
        + cropped(plane_bytes(f, 1), f.planes@[1].stride as int, (c.spec_region().0 / 2) as int, (c.spec_region().1 / 2) as int, cw as int, ch as int)
        + cropped(plane_bytes(f, 2), f.planes@[2].stride as int, (c.spec_region().0 / 2) as int, (c.spec_region().1 / 2) as int, cw as int, ch as int)
}

/// The bytes of plane `i` of a frame.
pub open spec fn plane_bytes(f: VideoFrame, i: int) -> Seq<u8> {
    f.data@.subrange(f.planes@[i].offset as int, f.planes@[i].offset + f.planes@[i].spec_size())
}

/// Whether plane `i` lies within the frame buffer.
pub open spec fn plane_in_buffer(f: VideoFrame, i: int) -> bool {
    f.planes@[i].offset + f.planes@[i].spec_size() <= f.data@.len()
}

/// The plane layouts of a packed YUV420p frame of `w` by `h`: the luma
/// plane, then the two half-size chroma planes, each with no row padding.
pub open spec fn yuv420_layouts(w: u32, h: u32) -> Seq<PlaneLayout> {
    let cw = w / 2;
    let ch = h / 2;
    seq![
        PlaneLayout { offset: 0, stride: w as usize, width: w, height: h },
        PlaneLayout { offset: (w * h) as usize, stride: cw as usize, width: cw, height: ch },
        PlaneLayout { offset: (w * h + cw * ch) as usize, stride: cw as usize, width: cw, height: ch },
    ]
}

impl CropFilter {
    /// Creates a new crop filter.
    ///
    /// All values are snapped to even for YUV420p chroma alignment.
    /// Returns an error if width or height is zero after snapping.
    pub fn new(x: u32, y: u32, width: u32, height: u32) -> (r: Result<CropFilter, FilterError>)
        ensures
            even(width) == 0 || even(height) == 0 ==> (r matches Err(FilterError::InvalidInput { message })
                && message@ == "crop dimensions must be non-zero after even-alignment: "@
                    + dec(even(width) as nat) + "x"@ + dec(even(height) as nat)),
            even(width) != 0 && even(height) != 0 ==> (r matches Ok(c)
                && c.region() == (even(x), even(y), even(width), even(height))),
    {
        let width = width & !1u32;
        let height = height & !1u32;
        let x = x & !1u32;
        let y = y & !1u32;
        if width == 0 || height == 0 {
            let mut message = String::new();
            push_text(&mut message, "crop dimensions must be non-zero after even-alignment: ");
            push_dec(&mut message, width as u64);
            push_text(&mut message, "x");
            push_dec(&mut message, height as u64);
            return Err(FilterError::InvalidInput { message });
        }
        Ok(CropFilter { x, y, width, height })
    }

    /// The crop region as (x, y, width, height).
    pub closed spec fn spec_region(&self) -> (u32, u32, u32, u32) {
        (self.x, self.y, self.width, self.height)
    }

    /// Returns the crop region as (x, y, width, height).
    #[verifier::when_used_as_spec(spec_region)]
    pub fn region(&self) -> (r: (u32, u32, u32, u32))
        ensures
            r == self.spec_region(),
    {
        (self.x, self.y, self.width, self.height)
    }

    /// Whether cropping `f` is a real crop (not the whole frame) of a
    /// YUV420p frame that the region fits in.
    pub open spec fn crops(&self, f: VideoFrame) -> bool {
        &&& f.pixel_format == PixelFormat::Yuv420p
        &&& f.planes@.len() >= 3
        &&& self.spec_region().0 + self.spec_region().2 <= f.width
        &&& self.spec_region().1 + self.spec_region().3 <= f.height
        &&& !(self.spec_region().0 == 0 && self.spec_region().1 == 0 && self.spec_region().2 == f.width && self.spec_region().3 == f.height)
    }
}

/// Whether plane `i` of `f` lies in its buffer.
fn plane_fits_buffer(f: &VideoFrame, i: usize) -> (r: bool)
    requires
        i < f.planes@.len(),
    ensures
        r == plane_in_buffer(*f, i as int),
{
    let p = &f.planes[i];
    proof {
        assert(p.stride * p.height <= 0xffff_ffff_ffff_ffff * 0xffff_ffff) by (nonlinear_arith)
            requires p.stride <= 0xffff_ffff_ffff_ffff, p.height <= 0xffff_ffff;
    }
    (p.offset as u128) + (p.stride as u128) * (p.height as u128) <= f.data.len() as u128
}

/// Whether a region fits a plane's rows (`crop_fits` over the plane's size
/// and stride).
fn crop_fits_exec(p: &PlaneLayout, x: u64, y: u64, w: u64, h: u64) -> (r: bool)
    requires
        x <= 0xffff_ffff,
        y <= 0xffff_ffff,
        w <= 0xffff_ffff,
        h <= 0xffff_ffff,
    ensures
        r == crop_fits(p.spec_size(), p.stride as int, x as int, y as int, w as int, h as int),
{
    proof {
        assert(w * h <= 0xffff_ffff * 0xffff_ffff) by (nonlinear_arith)
            requires w <= 0xffff_ffff, h <= 0xffff_ffff;
        assert(p.stride * p.height <= 0xffff_ffff_ffff_ffff * 0xffff_ffff) by (nonlinear_arith)
            requires p.stride <= 0xffff_ffff_ffff_ffff, p.height <= 0xffff_ffff;
    }
    let len = (p.stride as u128) * (p.height as u128);
    let area_ok = (w as u128) * (h as u128) <= usize::MAX as u128;
    let rows_ok = (y as u128) + (h as u128) <= usize::MAX as u128;
    if h == 0 {
        return area_ok && rows_ok;
    }
    proof {
        assert((y + h - 1) * p.stride <= 0x2_0000_0000 * 0xffff_ffff_ffff_ffff) by (nonlinear_arith)
            requires y + h - 1 <= 0x2_0000_0000, p.stride <= 0xffff_ffff_ffff_ffff, y + h >= 1;
    }
    let end = ((y + h - 1) as u128) * (p.stride as u128) + (x as u128) + (w as u128);
    area_ok && rows_ok && end <= len
}

impl VideoFilter for CropFilter {
    /// A YUV420p frame with three planes is admitted when the region
    /// arithmetic stays within `u32` and, when it is really cropped, its
    /// planes lie in the buffer with room for the rows read.
    open spec fn admits(&self, f: &VideoFrame) -> bool {
        &&& (f.pixel_format == PixelFormat::Yuv420p && f.planes@.len() >= 3) ==> {
            &&& self.spec_region().0 + self.spec_region().2 <= u32::MAX
            &&& self.spec_region().1 + self.spec_region().3 <= u32::MAX
        }
        &&& self.crops(*f) ==> {
            let cw = self.spec_region().2 / 2;
            let ch = self.spec_region().3 / 2;
            &&& plane_in_buffer(*f, 0)
            &&& plane_in_buffer(*f, 1)
            &&& plane_in_buffer(*f, 2)
            &&& crop_fits(f.planes@[0].spec_size(), f.planes@[0].stride as int, self.spec_region().0 as int, self.spec_region().1 as int,
                self.spec_region().2 as int, self.spec_region().3 as int)
            &&& crop_fits(f.planes@[1].spec_size(), f.planes@[1].stride as int, (self.spec_region().0 / 2) as int,
                (self.spec_region().1 / 2) as int, cw as int, ch as int)
            &&& crop_fits(f.planes@[2].spec_size(), f.planes@[2].stride as int, (self.spec_region().0 / 2) as int,
                (self.spec_region().1 / 2) as int, cw as int, ch as int)
            &&& self.spec_region().2 * self.spec_region().3 + 2 * (cw * ch) <= usize::MAX
        }
    }

    fn accepts(&self, f: &VideoFrame) -> (r: bool) {
        let (x, y, w, h) = (self.x as u64, self.y as u64, self.width as u64, self.height as u64);
        let yuv = f.pixel_format == PixelFormat::Yuv420p && f.planes.len() >= 3;
        if yuv && (x + w > 0xffff_ffff || y + h > 0xffff_ffff) {
            return false;
        }
        let crops = yuv && x + w <= f.width as u64 && y + h <= f.height as u64
            && !(x == 0 && y == 0 && w == f.width as u64 && h == f.height as u64);
        if !crops {
            return true;
        }
        let cw = w / 2;
        let ch = h / 2;
        let p0 = plane_fits_buffer(f, 0);
        let p1 = plane_fits_buffer(f, 1);
        let p2 = plane_fits_buffer(f, 2);
        let f0 = crop_fits_exec(&f.planes[0], x, y, w, h);
        let f1 = crop_fits_exec(&f.planes[1], x / 2, y / 2, cw, ch);
        let f2 = crop_fits_exec(&f.planes[2], x / 2, y / 2, cw, ch);
        proof {
            assert(w * h + 2 * (cw * ch) <= 0xffff_ffff * 0xffff_ffff + 2 * (0xffff_ffff * 0xffff_ffff)) by (nonlinear_arith)
                requires w <= 0xffff_ffff, h <= 0xffff_ffff, cw <= w, ch <= h;
        }
        let total = (w as u128) * (h as u128) + 2 * ((cw as u128) * (ch as u128));
        p0 && p1 && p2 && f0 && f1 && f2 && total <= usize::MAX as u128
    }

    /// Crops a YUV420p frame to the region: the luma plane at full
    /// resolution, the chroma planes at half. A frame the region covers
    /// exactly is passed through unchanged.
    fn process(&mut self, frame: VideoFrame) -> (r: Result<VideoFrame, FilterError>)
        ensures
            *final(self) == *old(self),
            frame.pixel_format != PixelFormat::Yuv420p ==> (r matches Err(FilterError::InvalidInput { message })
                && message@ == "crop filter only supports YUV420p, got "@ + pixel_format_name(frame.pixel_format)),
            frame.pixel_format == PixelFormat::Yuv420p && frame.planes@.len() < 3 ==> (r matches Err(
                FilterError::InvalidInput { message },
            ) && message@ == "expected 3 planes for YUV420p, got "@ + dec(frame.planes@.len())),
            frame.pixel_format == PixelFormat::Yuv420p && frame.planes@.len() >= 3 && (old(self).spec_region().0 + old(self).spec_region().2
                > frame.width || old(self).spec_region().1 + old(self).spec_region().3 > frame.height) ==> (r matches Err(
                FilterError::InvalidInput { message },
            ) && message@ == "crop region "@ + dec(old(self).spec_region().2 as nat) + "x"@ + dec(old(self).spec_region().3 as nat) + "+"@
                + dec(old(self).spec_region().0 as nat) + "+"@ + dec(old(self).spec_region().1 as nat) + " exceeds source frame "@ + dec(
                frame.width as nat,
            ) + "x"@ + dec(frame.height as nat)),
            frame.pixel_format == PixelFormat::Yuv420p && frame.planes@.len() >= 3 && old(self).spec_region().0 == 0 && old(self).spec_region().1 == 0
                && old(self).spec_region().2 == frame.width && old(self).spec_region().3 == frame.height ==> (r matches Ok(f) && f.width
                == frame.width && f.height == frame.height && f.pixel_format == frame.pixel_format
                && f.color_space == frame.color_space && f.pts == frame.pts && f.data@ == frame.data@
                && f.planes@ == frame.planes@),
            old(self).crops(frame) ==> (r matches Ok(f) && f.width == old(self).spec_region().2 && f.height == old(self).spec_region().3
                && f.pixel_format == PixelFormat::Yuv420p && f.color_space == frame.color_space && f.pts
                == frame.pts && f.data@ == cropped_frame_data(*old(self), frame) && f.planes@ == yuv420_layouts(
                old(self).spec_region().2,
                old(self).spec_region().3,
            ) && f.planes_fit()),
    {
        if frame.pixel_format != PixelFormat::Yuv420p {
            let mut message = String::new();
            push_text(&mut message, "crop filter only supports YUV420p, got ");
            push_pixel_format_name(&mut message, frame.pixel_format);
            return Err(FilterError::InvalidInput { message });
        }
        if frame.planes.len() < 3 {
            let mut message = String::new();
            push_text(&mut message, "expected 3 planes for YUV420p, got ");
            push_dec(&mut message, frame.planes.len() as u64);
            return Err(FilterError::InvalidInput { message });
        }
        if self.x + self.width > frame.width || self.y + self.height > frame.height {
            let mut message = String::new();
            push_text(&mut message, "crop region ");
            push_dec(&mut message, self.width as u64);
            push_text(&mut message, "x");
            push_dec(&mut message, self.height as u64);
            push_text(&mut message, "+");
            push_dec(&mut message, self.x as u64);
            push_text(&mut message, "+");
            push_dec(&mut message, self.y as u64);
            push_text(&mut message, " exceeds source frame ");
            push_dec(&mut message, frame.width as u64);
            push_text(&mut message, "x");
            push_dec(&mut message, frame.height as u64);
            return Err(FilterError::InvalidInput { message });
        }
        if self.x == 0 && self.y == 0 && self.width == frame.width && self.height == frame.height {
            return Ok(frame);
        }
        let y_data = match frame.plane_data(0) {
            Some(d) => d,
            None => {
                let mut message = String::new();
                push_text(&mut message, "missing Y plane");
                return Err(FilterError::InvalidInput { message });
            },
        };
        let u_data = match frame.plane_data(1) {
            Some(d) => d,
            None => {
                let mut message = String::new();
                push_text(&mut message, "missing U plane");
                return Err(FilterError::InvalidInput { message });
            },
        };
        let v_data = match frame.plane_data(2) {
            Some(d) => d,
            None => {
                let mut message = String::new();
                push_text(&mut message, "missing V plane");
                return Err(FilterError::InvalidInput { message });
            },
        };
        let y_cropped = crop_plane(y_data, frame.planes[0].stride, self.x, self.y, self.width, self.height);
        let cx = self.x / 2;
        let cy = self.y / 2;
        let cw = self.width / 2;
        let ch = self.height / 2;
        let u_cropped = crop_plane(u_data, frame.planes[1].stride, cx, cy, cw, ch);
        let v_cropped = crop_plane(v_data, frame.planes[2].stride, cx, cy, cw, ch);
        let y_size = self.width as usize * self.height as usize;
        let uv_size = cw as usize * ch as usize;
        let mut buf: Vec<u8> = Vec::new();
        push_slice(&mut buf, y_cropped.as_slice());
        push_slice(&mut buf, u_cropped.as_slice());
        push_slice(&mut buf, v_cropped.as_slice());
        let mut planes: Vec<PlaneLayout> = Vec::new();
        planes.push(PlaneLayout { offset: 0, stride: self.width as usize, width: self.width, height: self.height });
        planes.push(PlaneLayout { offset: y_size, stride: cw as usize, width: cw, height: ch });
        planes.push(PlaneLayout { offset: y_size + uv_size, stride: cw as usize, width: cw, height: ch });
        proof {
            assert(planes@ =~= yuv420_layouts(self.width, self.height));
            assert(buf@ =~= cropped_frame_data(*self, frame));
            assert(cw * ch <= self.width * self.height) by (nonlinear_arith)
                requires cw == self.width / 2, ch == self.height / 2;
            let l = buf@.len() as int;
            reveal_with_fuel(crate::media::first_bad_plane, 4);
            assert(planes@.drop_last().drop_last().drop_last() =~= Seq::<PlaneLayout>::empty());
            assert(first_plane_ok(planes@, l));
        }
        match VideoFrame::new(
            self.width,
            self.height,
            PixelFormat::Yuv420p,
            frame.color_space,
            frame.pts,
            buf,
            planes,
        ) {
            Ok(f) => Ok(f),
            Err(e) => Err(FilterError::Other(e.to_string())),
        }
    }
}

/// No plane of the layouts fails against a buffer of `len` bytes.
pub open spec fn first_plane_ok(planes: Seq<PlaneLayout>, len: int) -> bool {
    crate::media::first_bad_plane(planes, len) is None
}

} // verus!
