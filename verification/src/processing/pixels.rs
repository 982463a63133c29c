//! In-memory pixel buffers: creation, pixel access, blitting, cropping and filling.

use crate::error::{ErrorKind, HeicError, HeicResult};
use crate::limits::Limits;
use crate::types::{spec_bytes_per_pixel, ImageDimensions, PixelFormat};
use vstd::prelude::*;

verus! {

/// An in-memory decoded pixel buffer (interleaved, row-major).
#[derive(Debug, Clone, PartialEq, Eq)]
pub struct PixelBuffer {
    /// Dimensions of the image.
    pub dimensions: ImageDimensions,
    /// Pixel format.
    pub format: PixelFormat,
    /// Interleaved pixel bytes.
    pub data: Vec<u8>,
    /// Row stride in bytes.
    pub stride: usize,
}

/// Bytes per pixel of a format, as an integer.
pub open spec fn bpp(f: PixelFormat) -> int {
    spec_bytes_per_pixel(f) as int
}

/// `n` zero bytes.
pub open spec fn zeros(n: nat) -> Seq<u8> {
    Seq::new(n, |i: int| 0u8)
}

/// `s` with the bytes from `off` on replaced by `part`.
pub open spec fn splice(s: Seq<u8>, off: int, part: Seq<u8>) -> Seq<u8> {
    s.take(off) + part + s.skip(off + part.len())
}

/// The row of an image made of the pixels `f(0, y)` to `f(w - 1, y)`, concatenated.
pub open spec fn image_row(y: int, w: nat, f: spec_fn(int, int) -> Seq<u8>) -> Seq<u8>
    decreases w,
{
    if w == 0 {
        Seq::empty()
    } else {
        image_row(y, (w - 1) as nat, f) + f(w - 1, y)
    }
}

/// The image made of rows `0` to `h - 1` of pixels `f(x, y)`, in row-major order.
pub open spec fn image(w: nat, h: nat, f: spec_fn(int, int) -> Seq<u8>) -> Seq<u8>
    decreases h,
{
    if h == 0 {
        Seq::empty()
    } else {
        image(w, (h - 1) as nat, f) + image_row(h - 1, w, f)
    }
}

/// A row of pixels of `b` bytes each has `w * b` bytes, and pixel `x` sits at `x * b`.
pub proof fn lemma_image_row(y: int, w: nat, f: spec_fn(int, int) -> Seq<u8>, b: nat)
    requires
        forall|x: int| 0 <= x < w ==> (#[trigger] f(x, y)).len() == b,
    ensures
        image_row(y, w, f).len() == w * b,
        forall|x: int| 0 <= x < w ==> image_row(y, w, f).subrange(x * b, x * b + b) == #[trigger] f(x, y),
    decreases w,
{
    if w == 0 {
        assert(w * b == 0) by (nonlinear_arith)
            requires
                w == 0,
        ;
    } else {
        let w1 = (w - 1) as nat;
        lemma_image_row(y, w1, f, b);
        assert(f(w - 1, y).len() == b);
        let prev = image_row(y, w1, f);
        assert(w1 * b + b == w * b) by (nonlinear_arith)
            requires
                w1 + 1 == w,
        ;
        assert forall|x: int| 0 <= x < w implies image_row(y, w, f).subrange(x * b, x * b + b) == #[trigger] f(x, y) by {
            if x < w1 {
                assert(x * b + b <= w1 * b) by (nonlinear_arith)
                    requires
                        x < w1,
                        b >= 0,
                ;
                assert(0 <= x * b) by (nonlinear_arith)
                    requires
                        0 <= x,
                        b >= 0,
                ;
                assert(image_row(y, w, f).subrange(x * b, x * b + b) =~= prev.subrange(x * b, x * b + b));
            } else {
                assert(image_row(y, w, f).subrange(x * b, x * b + b) =~= f(x, y));
            }
        }
    }
}

/// An image of `w` by `h` pixels of `b` bytes each has `h * (w * b)` bytes, and pixel
/// `(x, y)` sits at `y * (w * b) + x * b`.
pub proof fn lemma_image_pixel(w: nat, h: nat, f: spec_fn(int, int) -> Seq<u8>, b: nat)
    requires
        forall|x: int, y: int| 0 <= x < w && 0 <= y < h ==> (#[trigger] f(x, y)).len() == b,
    ensures
        image(w, h, f).len() == h * (w * b),
        forall|x: int, y: int| 0 <= x < w && 0 <= y < h ==>
            image(w, h, f).subrange(y * (w * b) + x * b, y * (w * b) + x * b + b) == #[trigger] f(x, y),
    decreases h,
{
    if h == 0 {
        assert(h * (w * b) == 0) by (nonlinear_arith)
            requires
                h == 0,
        ;
    } else {
        let h1 = (h - 1) as nat;
        lemma_image_pixel(w, h1, f, b);
        lemma_image_row(h1 as int, w, f, b);
        let s = w * b;
        let prev = image(w, h1, f);
        assert(h1 * s + s == h * s) by (nonlinear_arith)
            requires
                h1 + 1 == h,
        ;
        assert forall|x: int, y: int| 0 <= x < w && 0 <= y < h implies
            image(w, h, f).subrange(y * s + x * b, y * s + x * b + b) == #[trigger] f(x, y) by {
            assert(x * b + b <= s) by (nonlinear_arith)
                requires
                    x < w,
                    s == w * b,
                    b >= 0,
            ;
            assert(0 <= x * b) by (nonlinear_arith)
                requires
                    0 <= x,
                    b >= 0,
            ;
            if y < h1 {
                assert(y * s + s <= h1 * s) by (nonlinear_arith)
                    requires
                        y < h1,
                        s >= 0,
                ;
                assert(0 <= y * s) by (nonlinear_arith)
                    requires
                        0 <= y,
                        s >= 0,
                ;
                assert(image(w, h, f).subrange(y * s + x * b, y * s + x * b + b) =~= prev.subrange(y * s + x * b, y * s + x * b + b));
            } else {
                assert(image(w, h, f).subrange(y * s + x * b, y * s + x * b + b)
                    =~= image_row(y, w, f).subrange(x * b, x * b + b));
            }
        }
    }
}

/// `a * b`, or `usize::MAX` when the product does not fit.
pub open spec fn sat_mul(a: int, b: int) -> int {
    if a * b > usize::MAX { usize::MAX as int } else { a * b }
}

/// Multiplies, saturating at `usize::MAX`.
fn saturating_mul(a: usize, b: usize) -> (r: usize)
    ensures
        r == sat_mul(a as int, b as int),
{
    match a.checked_mul(b) {
        Some(v) => v,
        None => usize::MAX,
    }
}

impl PixelBuffer {
    /// Whether the stride is the width in bytes and the data holds exactly the rows.
    pub open spec fn wf(&self) -> bool {
        &&& self.stride == self.dimensions.width * bpp(self.format)
        &&& self.data@.len() == self.stride * self.dimensions.height
    }

    /// Byte offset of pixel `(x, y)`.
    pub open spec fn offset(&self, x: int, y: int) -> int {
        y * self.stride + x * bpp(self.format)
    }

    /// The bytes of pixel `(x, y)` of a well-formed buffer.
    pub open spec fn pixel(&self, x: int, y: int) -> Seq<u8> {
        self.data@.subrange(self.offset(x, y), self.offset(x, y) + bpp(self.format))
    }

    /// Whether every in-range pixel offset can be computed without overflow.
    pub open spec fn addressable(&self) -> bool {
        self.dimensions.height == 0 || (self.dimensions.height - 1) * self.stride
            + self.dimensions.width * bpp(self.format) <= usize::MAX
    }

    /// Creates a zero-filled buffer (its byte size must fit in memory addresses).
    pub fn new(dimensions: ImageDimensions, format: PixelFormat) -> (b: Self)
        requires
            dimensions.width * bpp(format) <= usize::MAX,
            dimensions.width * bpp(format) * dimensions.height <= usize::MAX,
        ensures
            b.dimensions == dimensions,
            b.format == format,
            b.wf(),
            b.data@ == zeros(b.data@.len()),
    {
        let n = format.bytes_per_pixel();
        let stride = (dimensions.width as usize) * n;
        let total = stride * (dimensions.height as usize);
        let data: Vec<u8> = vec![0u8; total];
        assert(data@ =~= zeros(data@.len()));
        PixelBuffer { dimensions, format, data, stride }
    }
}

/// Overwrites `dst` from `off` on with the bytes of `src`.
pub(crate) fn copy_bytes(dst: &mut Vec<u8>, off: usize, src: &[u8])
    requires
        off + src@.len() <= old(dst)@.len(),
    ensures
        final(dst)@ == splice(old(dst)@, off as int, src@),
{
    let n = src.len();
    let dlen = dst.len();
    let mut i: usize = 0;
    while i < n
        invariant
            n == src@.len(),
            i <= n,
            dlen == dst@.len(),
            off + n <= dst@.len(),
            dst@.len() == old(dst)@.len(),
            dst@ == old(dst)@.take(off as int) + src@.take(i as int) + old(dst)@.skip(off + i),
        decreases n - i,
    {
        dst.set(off + i, src[i]);
        assert(dst@ =~= old(dst)@.take(off as int) + src@.take(i + 1) + old(dst)@.skip(off + i + 1));
        i = i + 1;
    }
    assert(src@.take(n as int) =~= src@);
}

/// `color` repeated `n` times.
pub open spec fn repeat(color: Seq<u8>, n: nat) -> Seq<u8>
    decreases n,
{
    if n == 0 {
        Seq::empty()
    } else {
        repeat(color, (n - 1) as nat) + color
    }
}

/// The rows `0` to `rows - 1` of a blit: each copies `wb` bytes from `src` (row `sy + r`,
/// byte `sx`, stride `ss`) to `d` (row `dy + r`, byte `dx`, stride `ds`).
pub open spec fn blit_rows(d: Seq<u8>, ds: int, dx: int, dy: int, src: Seq<u8>, ss: int, sx: int, sy: int, wb: int, rows: nat) -> Seq<u8>
    decreases rows,
{
    if rows == 0 {
        d
    } else {
        let r = rows - 1;
        let prev = blit_rows(d, ds, dx, dy, src, ss, sx, sy, wb, (rows - 1) as nat);
        splice(prev, (dy + r) * ds + dx, src.subrange((sy + r) * ss + sx, (sy + r) * ss + sx + wb))
    }
}

/// `a - b`, or zero when `b > a`.
pub open spec fn sat_sub(a: int, b: int) -> int {
    if b > a { 0 } else { a - b }
}

/// The smallest of three values.
pub open spec fn min3(a: int, b: int, c: int) -> int {
    let m = if a < b { a } else { b };
    if m < c { m } else { c }
}

/// Number of pixel columns that a blit copies.
pub open spec fn blit_width(d: PixelBuffer, dst_x: u32, s: PixelBuffer, src_x: u32, width: u32) -> int {
    min3(width as int, sat_sub(s.dimensions.width as int, src_x as int), sat_sub(d.dimensions.width as int, dst_x as int))
}

/// Number of pixel rows that a blit copies.
pub open spec fn blit_height(d: PixelBuffer, dst_y: u32, s: PixelBuffer, src_y: u32, height: u32) -> int {
    min3(height as int, sat_sub(s.dimensions.height as int, src_y as int), sat_sub(d.dimensions.height as int, dst_y as int))
}

/// Whether the start of every copied row lies within both buffers. It can only fail when
/// no column is copied but rows are, and the start column lies beyond a buffer.
pub open spec fn blit_rows_reachable(d: PixelBuffer, dst_x: u32, dst_y: u32, s: PixelBuffer, src_x: u32, src_y: u32, width: u32, height: u32) -> bool {
    let ch = blit_height(d, dst_y, s, src_y, height);
    let b = bpp(s.format);
    ||| ch == 0
    ||| blit_width(d, dst_x, s, src_x, width) > 0
    ||| ((src_y + ch - 1) * s.stride + src_x * b <= s.data@.len()
        && (dst_y + ch - 1) * d.stride + dst_x * b <= d.data@.len())
}

impl PixelBuffer {
    /// Creates a zero-filled buffer after checking its dimensions, pixel count and byte size
    /// (row and total sizes saturate at `usize::MAX`) against `limits`.
    pub fn new_with_limits(dimensions: ImageDimensions, format: PixelFormat, limits: &Limits) -> (r: HeicResult<Self>)
        ensures
            ({
                let stride = sat_mul(dimensions.width as int, bpp(format));
                let total = sat_mul(stride, dimensions.height as int);
                &&& r is Ok <==> (limits.allows_dimensions(dimensions)
                    && limits.allows_pixel_count(dimensions.width * dimensions.height)
                    && limits.allows_memory_size(total))
                &&& r matches Err(e) ==> e.kind() == ErrorKind::LimitExceeded
                &&& r matches Ok(b) ==> {
                    &&& b.dimensions == dimensions
                    &&& b.format == format
                    &&& b.stride == stride
                    &&& b.data@ == zeros(total as nat)
                    &&& (dimensions.width * bpp(format) <= usize::MAX
                        && dimensions.width * bpp(format) * dimensions.height <= usize::MAX ==> b.wf())
                }
            }),
    {
        limits.check_dimensions(dimensions)?;
        limits.check_pixel_count(dimensions.pixel_count())?;
        let n = format.bytes_per_pixel();
        let stride = saturating_mul(dimensions.width as usize, n);
        let total = saturating_mul(stride, dimensions.height as usize);
        limits.check_memory_size(total as u64)?;
        let data: Vec<u8> = vec![0u8; total];
        assert(data@ =~= zeros(total as nat));
        Ok(PixelBuffer { dimensions, format, data, stride })
    }

    /// Wraps existing bytes, which must hold exactly the rows of the image.
    pub fn from_raw(dimensions: ImageDimensions, format: PixelFormat, data: Vec<u8>) -> (r: Result<Self, String>)
        requires
            dimensions.width * bpp(format) <= usize::MAX,
            dimensions.width * bpp(format) * dimensions.height <= usize::MAX,
        ensures
            r is Ok <==> data@.len() == dimensions.width * bpp(format) * dimensions.height,
            r matches Ok(b) ==> b.dimensions == dimensions && b.format == format && b.data@ == data@ && b.wf(),
    {
        let n = format.bytes_per_pixel();
        let expected_stride = (dimensions.width as usize) * n;
        let expected_len = expected_stride * (dimensions.height as usize);
        if data.len() != expected_len {
            return Err(String::from_str("Buffer size mismatch between data and dimensions"));
        }
        Ok(PixelBuffer { dimensions, format, data, stride: expected_stride })
    }

    /// The bytes of pixel `(x, y)`, or `None` outside the image or the data.
    pub fn get_pixel(&self, x: u32, y: u32) -> (r: Option<&[u8]>)
        requires
            self.addressable(),
        ensures
            ({
                let ok = x < self.dimensions.width && y < self.dimensions.height
                    && self.offset(x as int, y as int) + bpp(self.format) <= self.data@.len();
                match r {
                    Some(p) => ok && p@ == self.pixel(x as int, y as int),
                    None => !ok,
                }
            }),
    {
        if x >= self.dimensions.width || y >= self.dimensions.height {
            return None;
        }
        let n = self.format.bytes_per_pixel();
        proof {
            self.lemma_offset_fits(x as int, y as int);
        }
        let start = (y as usize) * self.stride + (x as usize) * n;
        let end = start + n;
        if end <= self.data.len() {
            Some(&self.data.as_slice()[start..end])
        } else {
            None
        }
    }

    /// Byte offset of pixel `(x, y)` of a well-formed buffer.
    pub(crate) fn pixel_offset(&self, x: u32, y: u32) -> (off: usize)
        requires
            self.wf() || self.readable(),
            x < self.dimensions.width,
            y < self.dimensions.height,
        ensures
            off == self.offset(x as int, y as int),
            off + bpp(self.format) <= self.data@.len(),
    {
        proof {
            self.lemma_pixel_in(x as int, y as int);
        }
        let _len = self.data.len();
        (y as usize) * self.stride + (x as usize) * self.format.bytes_per_pixel()
    }

    /// Pixels of a well-formed or readable buffer lie within its data.
    pub proof fn lemma_pixel_in(&self, x: int, y: int)
        requires
            self.wf() || self.readable(),
            0 <= x < self.dimensions.width,
            0 <= y < self.dimensions.height,
        ensures
            0 <= y * self.stride,
            0 <= x * bpp(self.format),
            0 <= self.offset(x, y),
            self.offset(x, y) + bpp(self.format) <= self.data@.len(),
            self.pixel(x, y).len() == bpp(self.format),
    {
        let b = bpp(self.format);
        let s = self.stride as int;
        let w = self.dimensions.width as int;
        let h = self.dimensions.height as int;
        if self.wf() {
            assert(0 <= y * s && 0 <= x * b && y * s + x * b + b <= s * h) by (nonlinear_arith)
                requires
                    0 <= x < w,
                    0 <= y < h,
                    s == w * b,
                    b >= 1,
            ;
        } else {
            assert(0 <= y * s && 0 <= x * b && y * s + x * b + b <= (h - 1) * s + w * b) by (nonlinear_arith)
                requires
                    0 <= x < w,
                    0 <= y < h,
                    s >= w * b,
                    b >= 1,
            ;
        }
    }

    /// A well-formed buffer is readable.
    pub proof fn lemma_wf_readable(&self)
        requires
            self.wf(),
        ensures
            self.readable(),
    {
        let b = bpp(self.format);
        let s = self.stride as int;
        let h = self.dimensions.height as int;
        let w = self.dimensions.width as int;
        if h > 0 {
            assert((h - 1) * s + w * b <= s * h) by (nonlinear_arith)
                requires
                    s == w * b,
                    h >= 1,
            ;
        }
    }

    /// Whether every pixel can be read through the stride: each row holds its pixels and the
    /// data reaches the last pixel.
    pub open spec fn readable(&self) -> bool {
        &&& self.stride >= self.dimensions.width * bpp(self.format)
        &&& (self.dimensions.height == 0 || (self.dimensions.height - 1) * self.stride
            + self.dimensions.width * bpp(self.format) <= self.data@.len())
    }

    /// Offsets of in-range pixels of an addressable buffer fit in `usize`.
    pub proof fn lemma_offset_fits(&self, x: int, y: int)
        requires
            self.addressable(),
            0 <= x < self.dimensions.width,
            0 <= y < self.dimensions.height,
        ensures
            0 <= y * self.stride,
            0 <= x * bpp(self.format),
            self.offset(x, y) + bpp(self.format) <= usize::MAX,
    {
        let b = bpp(self.format);
        let h = self.dimensions.height as int;
        let w = self.dimensions.width as int;
        let s = self.stride as int;
        assert(0 <= y * s && 0 <= x * b && y * s + x * b + b <= (h - 1) * s + w * b) by (nonlinear_arith)
            requires
                0 <= x < w,
                0 <= y < h,
                b >= 0,
                s >= 0,
        ;
    }

    /// Writes pixel `(x, y)`; fails outside the image, for a pixel of the wrong size, or
    /// outside the data.
    pub fn set_pixel(&mut self, x: u32, y: u32, pixel: &[u8]) -> (r: HeicResult<()>)
        requires
            old(self).addressable(),
        ensures
            final(self).dimensions == old(self).dimensions,
            final(self).format == old(self).format,
            final(self).stride == old(self).stride,
            ({
                let s = *old(self);
                if !(x < s.dimensions.width && y < s.dimensions.height) {
                    r matches Err(e) && e.kind() == ErrorKind::InvalidInput && final(self).data@ == s.data@
                } else if pixel@.len() != bpp(s.format) {
                    r matches Err(e) && e.kind() == ErrorKind::InvalidInput && final(self).data@ == s.data@
                } else if s.offset(x as int, y as int) + bpp(s.format) > s.data@.len() {
                    r matches Err(e) && e.kind() == ErrorKind::LimitExceeded && final(self).data@ == s.data@
                } else {
                    r is Ok && final(self).data@ == splice(s.data@, s.offset(x as int, y as int), pixel@)
                }
            }),
    {
        if x >= self.dimensions.width || y >= self.dimensions.height {
            return Err(HeicError::invalid_input("Pixel coordinates out of bounds"));
        }
        let n = self.format.bytes_per_pixel();
        if pixel.len() != n {
            return Err(HeicError::invalid_input("Invalid pixel byte length"));
        }
        proof {
            self.lemma_offset_fits(x as int, y as int);
        }
        let start = (y as usize) * self.stride + (x as usize) * n;
        let end = start + n;
        if end <= self.data.len() {
            copy_bytes(&mut self.data, start, pixel);
            Ok(())
        } else {
            Err(HeicError::limit_exceeded("Pixel index exceeds buffer capacity"))
        }
    }

    /// Copies the sub-rectangle of `src` at `(src_x, src_y)` of `width` by `height` pixels,
    /// clipped to both buffers, into this buffer at `(dst_x, dst_y)`; the formats must match.
    pub fn blit(&mut self, dst_x: u32, dst_y: u32, src: &PixelBuffer, src_x: u32, src_y: u32, width: u32, height: u32) -> (r: HeicResult<()>)
        requires
            old(self).wf(),
            src.readable(),
            old(self).format == src.format ==> blit_rows_reachable(*old(self), dst_x, dst_y, *src, src_x, src_y, width, height),
        ensures
            final(self).dimensions == old(self).dimensions,
            final(self).format == old(self).format,
            final(self).stride == old(self).stride,
            final(self).wf(),
            old(self).format != src.format ==> (r matches Err(e) && e.kind() == ErrorKind::InvalidInput
                && final(self).data@ == old(self).data@),
            old(self).format == src.format ==> r is Ok && final(self).data@ == blit_rows(
                old(self).data@, old(self).stride as int, dst_x * bpp(src.format), dst_y as int,
                src.data@, src.stride as int, src_x * bpp(src.format), src_y as int,
                min3(width as int, sat_sub(src.dimensions.width as int, src_x as int), sat_sub(old(self).dimensions.width as int, dst_x as int)) * bpp(src.format),
                min3(height as int, sat_sub(src.dimensions.height as int, src_y as int), sat_sub(old(self).dimensions.height as int, dst_y as int)) as nat,
            ),
    {
        if self.format != src.format {
            return Err(HeicError::invalid_input("Cannot blit between pixel buffers of different formats"));
        }
        let n = self.format.bytes_per_pixel();
        let sw = if src.dimensions.width > src_x { src.dimensions.width - src_x } else { 0 };
        let dw = if self.dimensions.width > dst_x { self.dimensions.width - dst_x } else { 0 };
        let sh = if src.dimensions.height > src_y { src.dimensions.height - src_y } else { 0 };
        let dh = if self.dimensions.height > dst_y { self.dimensions.height - dst_y } else { 0 };
        let cw0 = if width < sw { width } else { sw };
        let copy_w = if cw0 < dw { cw0 } else { dw };
        let ch0 = if height < sh { height } else { sh };
        let copy_h = if ch0 < dh { ch0 } else { dh };
        let ghost b = bpp(self.format);
        let ghost d0 = self.data@;
        proof {
            assert(copy_w * b <= src.dimensions.width * b) by (nonlinear_arith)
                requires
                    copy_w <= src.dimensions.width,
                    b >= 0,
            ;
        }
        let row_bytes = (copy_w as usize) * n;
        let ghost reach = copy_h == 0 || copy_w > 0 || ((src_y + copy_h - 1) * src.stride + src_x * b <= src.data@.len()
            && (dst_y + copy_h - 1) * self.stride + dst_x * b <= self.data@.len());
        assert(reach);
        let mut row: u32 = 0;
        while row < copy_h
            invariant
                row <= copy_h,
                self.wf(),
                src.readable(),
                self.format == src.format,
                n == b,
                b == bpp(self.format),
                1 <= b <= 4,
                self.dimensions == old(self).dimensions,
                self.stride == old(self).stride,
                self.format == old(self).format,
                self.data@.len() == d0.len(),
                d0 == old(self).data@,
                copy_w > 0 ==> copy_w as int + src_x <= src.dimensions.width,
                copy_w > 0 ==> copy_w as int + dst_x <= self.dimensions.width,
                copy_h > 0 ==> copy_h as int + src_y <= src.dimensions.height,
                copy_h > 0 ==> copy_h as int + dst_y <= self.dimensions.height,
                copy_h == 0 || copy_w > 0 || ((src_y + copy_h - 1) * src.stride + src_x * b <= src.data@.len()
                    && (dst_y + copy_h - 1) * self.stride + dst_x * b <= d0.len()),
                row_bytes == copy_w * b,
                self.data@ == blit_rows(d0, self.stride as int, dst_x * b, dst_y as int, src.data@, src.stride as int,
                    src_x * b, src_y as int, copy_w * b, row as nat),
            decreases copy_h - row,
        {
            let sy = src_y + row;
            let dy = dst_y + row;
            let slen = src.data.len();
            let dlen = self.data.len();
            proof {
                let sb = src.stride as int;
                let db = self.stride as int;
                if copy_w > 0 {
                    assert(0 <= sy * sb && sy * sb + src_x * b + copy_w * b <= src.data@.len()) by (nonlinear_arith)
                        requires
                            sy < src.dimensions.height,
                            sb >= src.dimensions.width * b,
                            copy_w + src_x <= src.dimensions.width,
                            (src.dimensions.height - 1) * sb + src.dimensions.width * b <= src.data@.len(),
                            b >= 0,
                    ;
                    assert(0 <= dy * db && dy * db + dst_x * b + copy_w * b <= self.dimensions.height * db) by (nonlinear_arith)
                        requires
                            dy < self.dimensions.height,
                            db == self.dimensions.width * b,
                            copy_w + dst_x <= self.dimensions.width,
                            b >= 0,
                    ;
                } else {
                    assert(0 <= sy * sb && sy * sb <= (src_y + copy_h - 1) * sb) by (nonlinear_arith)
                        requires
                            sy <= src_y + copy_h - 1,
                            sy >= 0,
                            sb >= 0,
                    ;
                    assert(0 <= dy * db && dy * db <= (dst_y + copy_h - 1) * db) by (nonlinear_arith)
                        requires
                            dy <= dst_y + copy_h - 1,
                            dy >= 0,
                            db >= 0,
                    ;
                }
                assert(0 <= src_x * b && 0 <= dst_x * b) by (nonlinear_arith)
                    requires
                        b >= 0,
                ;
            }
            let s_row = (sy as usize) * src.stride + (src_x as usize) * n;
            let d_row = (dy as usize) * self.stride + (dst_x as usize) * n;
            copy_bytes(&mut self.data, d_row, &src.data.as_slice()[s_row..s_row + row_bytes]);
            row = row + 1;
        }
        Ok(())
    }

    /// Copies the top-left `target_w` by `target_h` pixels (clipped to this buffer) into a new
    /// buffer created under `limits`.
    pub fn crop(&self, target_w: u32, target_h: u32, limits: &Limits) -> (r: HeicResult<PixelBuffer>)
        requires
            self.wf(),
        ensures
            ({
                let cw = if target_w < self.dimensions.width { target_w } else { self.dimensions.width };
                let ch = if target_h < self.dimensions.height { target_h } else { self.dimensions.height };
                let d = ImageDimensions { width: cw, height: ch };
                let total = cw * bpp(self.format) * ch;
                &&& r is Ok <==> (limits.allows_dimensions(d) && limits.allows_pixel_count(cw * ch)
                    && limits.allows_memory_size(total))
                &&& r matches Err(e) ==> e.kind() == ErrorKind::LimitExceeded
                &&& r matches Ok(b) ==> {
                    &&& b.dimensions == d
                    &&& b.format == self.format
                    &&& b.wf()
                    &&& b.data@ == blit_rows(zeros(total as nat), cw * bpp(self.format), 0, 0, self.data@,
                        self.stride as int, 0, 0, cw * bpp(self.format), ch as nat)
                }
            }),
    {
        let cw = if target_w < self.dimensions.width { target_w } else { self.dimensions.width };
        let ch = if target_h < self.dimensions.height { target_h } else { self.dimensions.height };
        let ghost b = bpp(self.format);
        let _len = self.data.len();
        proof {
            assert(cw * b <= self.dimensions.width * b && cw * b * ch <= self.dimensions.width * b * self.dimensions.height) by (nonlinear_arith)
                requires
                    cw <= self.dimensions.width,
                    ch <= self.dimensions.height,
                    b >= 0,
            ;
            assert(0 <= cw * b * ch) by (nonlinear_arith)
                requires
                    cw >= 0,
                    ch >= 0,
                    b >= 0,
            ;
        }
        let mut dest = PixelBuffer::new_with_limits(ImageDimensions::new(cw, ch), self.format, limits)?;
        proof {
            let sb = self.stride as int;
            if ch > 0 && cw == 0 {
                assert((0 + ch - 1) * sb + 0 * b <= self.data@.len()) by (nonlinear_arith)
                    requires
                        ch <= self.dimensions.height,
                        sb >= 0,
                        self.data@.len() == sb * self.dimensions.height,
                ;
                assert(dest.stride == 0);
                assert((0 + ch - 1) * dest.stride + 0 * b <= dest.data@.len()) by (nonlinear_arith)
                    requires
                        dest.stride == 0,
                ;
            }
        }
        proof {
            self.lemma_wf_readable();
        }
        dest.blit(0, 0, self, 0, 0, cw, ch)?;
        Ok(dest)
    }

    /// Fills every complete pixel of the data with `color`, which must be one pixel long.
    pub fn fill(&mut self, color: &[u8]) -> (r: HeicResult<()>)
        ensures
            final(self).dimensions == old(self).dimensions,
            final(self).format == old(self).format,
            final(self).stride == old(self).stride,
            color@.len() != bpp(old(self).format) ==> (r matches Err(e) && e.kind() == ErrorKind::InvalidInput
                && final(self).data@ == old(self).data@),
            color@.len() == bpp(old(self).format) ==> r is Ok && {
                let b = bpp(old(self).format);
                let k = old(self).data@.len() as int / b;
                final(self).data@ == repeat(color@, k as nat) + old(self).data@.skip(k * b)
            },
    {
        let n = self.format.bytes_per_pixel();
        if color.len() != n {
            return Err(HeicError::invalid_input("Fill color size does not match the pixel size"));
        }
        let len = self.data.len();
        let chunks = len / n;
        let mut i: usize = 0;
        let mut off: usize = 0;
        let ghost d0 = self.data@;
        assert(d0.skip(0) =~= d0);
        while i < chunks
            invariant
                n == color@.len(),
                1 <= n <= 4,
                chunks == len / n,
                len == self.data@.len(),
                len == d0.len(),
                i <= chunks,
                off == i * n,
                self.dimensions == old(self).dimensions,
                self.format == old(self).format,
                self.stride == old(self).stride,
                d0 == old(self).data@,
                repeat(color@, i as nat).len() == off,
                self.data@ == repeat(color@, i as nat) + d0.skip(off as int),
            decreases chunks - i,
        {
            proof {
                assert(off + n <= len) by (nonlinear_arith)
                    requires
                        off == i * n,
                        i < chunks,
                        chunks == len / n,
                        n >= 1,
                ;
            }
            copy_bytes(&mut self.data, off, color);
            proof {
                assert(self.data@ =~= repeat(color@, (i + 1) as nat) + d0.skip(off + n));
                assert((i + 1) * n == off + n) by (nonlinear_arith)
                    requires
                        off == i * n,
                ;
            }
            i = i + 1;
            off = off + n;
        }
        Ok(())
    }
}

/// Distinct pixels of a well-formed buffer occupy disjoint byte ranges.
proof fn lemma_pixels_disjoint(buf: PixelBuffer, x: int, y: int, x2: int, y2: int)
    requires
        buf.wf(),
        0 <= x < buf.dimensions.width,
        0 <= y < buf.dimensions.height,
        0 <= x2 < buf.dimensions.width,
        0 <= y2 < buf.dimensions.height,
        x != x2 || y != y2,
    ensures
        buf.offset(x2, y2) + bpp(buf.format) <= buf.offset(x, y)
            || buf.offset(x, y) + bpp(buf.format) <= buf.offset(x2, y2),
{
    let b = bpp(buf.format);
    let w = buf.dimensions.width as int;
    let s = buf.stride as int;
    if y == y2 {
        assert(x2 * b + b <= x * b || x * b + b <= x2 * b) by (nonlinear_arith)
            requires
                x != x2,
                b >= 1,
        ;
    } else if y2 < y {
        assert(x2 * b + b <= w * b && 0 <= x * b) by (nonlinear_arith)
            requires
                0 <= x,
                x2 < w,
                b >= 1,
        ;
        assert(y2 * s + s <= y * s) by (nonlinear_arith)
            requires
                y2 < y,
                s >= 0,
        ;
    } else {
        assert(x * b + b <= w * b && 0 <= x2 * b) by (nonlinear_arith)
            requires
                0 <= x2,
                x < w,
                b >= 1,
        ;
        assert(y * s + s <= y2 * s) by (nonlinear_arith)
            requires
                y < y2,
                s >= 0,
        ;
    }
}

/// Reading a pixel after writing it gives the written bytes, and every other pixel reads as
/// before: `before` is a well-formed buffer and `after` is what a successful `set_pixel` of
/// `p` at `(x, y)` leaves.
pub proof fn lemma_set_then_get(before: PixelBuffer, after: PixelBuffer, x: int, y: int, p: Seq<u8>)
    requires
        before.wf(),
        after.dimensions == before.dimensions,
        after.format == before.format,
        after.stride == before.stride,
        0 <= x < before.dimensions.width,
        0 <= y < before.dimensions.height,
        p.len() == bpp(before.format),
        after.data@ == splice(before.data@, before.offset(x, y), p),
    ensures
        after.wf(),
        after.pixel(x, y) == p,
        forall|x2: int, y2: int|
            0 <= x2 < before.dimensions.width && 0 <= y2 < before.dimensions.height && (x2 != x || y2 != y)
                ==> #[trigger] after.pixel(x2, y2) == before.pixel(x2, y2),
{
    before.lemma_pixel_in(x, y);
    let off = before.offset(x, y);
    let b = bpp(before.format);
    assert(after.pixel(x, y) =~= p);
    assert forall|x2: int, y2: int|
        0 <= x2 < before.dimensions.width && 0 <= y2 < before.dimensions.height && (x2 != x || y2 != y)
            implies #[trigger] after.pixel(x2, y2) == before.pixel(x2, y2) by {
        before.lemma_pixel_in(x2, y2);
        lemma_pixels_disjoint(before, x, y, x2, y2);
        assert(after.pixel(x2, y2) =~= before.pixel(x2, y2));
    }
}

/// After a successful `fill` of a well-formed buffer, every pixel holds the fill colour:
/// `after` is what `fill` leaves for a colour of one pixel.
pub proof fn lemma_fill_sets_every_pixel(before: PixelBuffer, after: PixelBuffer, color: Seq<u8>)
    requires
        before.wf(),
        after.dimensions == before.dimensions,
        after.format == before.format,
        after.stride == before.stride,
        color.len() == bpp(before.format),
        after.data@ == repeat(color, (before.data@.len() as int / bpp(before.format)) as nat)
            + before.data@.skip((before.data@.len() as int / bpp(before.format)) * bpp(before.format)),
    ensures
        after.wf(),
        forall|x: int, y: int| 0 <= x < before.dimensions.width && 0 <= y < before.dimensions.height
            ==> #[trigger] after.pixel(x, y) == color,
{
    let b = bpp(before.format);
    let w = before.dimensions.width as int;
    let h = before.dimensions.height as int;
    let n = before.data@.len() as int;
    assert(b >= 1);
    assert(n == (w * h) * b) by (nonlinear_arith)
        requires
            n == (w * b) * h,
    ;
    vstd::arithmetic::div_mod::lemma_div_multiples_vanish(w * h, b);
    assert(n / b == w * h) by (nonlinear_arith)
        requires
            n == (w * h) * b,
            (b * (w * h)) / b == w * h,
            b >= 1,
    ;
    lemma_repeat(color, (w * h) as nat);
    assert(after.data@.len() == n);
    assert forall|x: int, y: int| 0 <= x < w && 0 <= y < h implies #[trigger] after.pixel(x, y) == color by {
        before.lemma_pixel_in(x, y);
        let i = y * w + x;
        assert(before.offset(x, y) == i * b) by (nonlinear_arith)
            requires
                before.offset(x, y) == y * (w * b) + x * b,
                i == y * w + x,
        ;
        assert(0 <= i < w * h) by (nonlinear_arith)
            requires
                0 <= x < w,
                0 <= y < h,
                i == y * w + x,
        ;
        assert(i * b + b <= (w * h) * b) by (nonlinear_arith)
            requires
                i < w * h,
                b >= 0,
        ;
        assert(after.data@.subrange(i * b, i * b + b) =~= repeat(color, (w * h) as nat).subrange(i * b, i * b + b));
    }
}

/// `color` repeated `n` times has `n` copies of it, copy `i` at `i * len`.
proof fn lemma_repeat(color: Seq<u8>, n: nat)
    ensures
        repeat(color, n).len() == n * color.len(),
        forall|i: int| 0 <= i < n ==> #[trigger] repeat(color, n).subrange(i * color.len(), i * color.len() + color.len()) == color,
    decreases n,
{
    let b = color.len() as int;
    if n == 0 {
        assert(n * b == 0) by (nonlinear_arith)
            requires
                n == 0,
        ;
    } else {
        let n1 = (n - 1) as nat;
        lemma_repeat(color, n1);
        assert(n1 * b + b == n * b) by (nonlinear_arith)
            requires
                n1 + 1 == n,
        ;
        assert forall|i: int| 0 <= i < n implies #[trigger] repeat(color, n).subrange(i * b, i * b + b) == color by {
            if i < n1 {
                assert(i * b + b <= n1 * b) by (nonlinear_arith)
                    requires
                        i < n1,
                        b >= 0,
                ;
                assert(0 <= i * b) by (nonlinear_arith)
                    requires
                        i >= 0,
                        b >= 0,
                ;
                assert(repeat(color, n).subrange(i * b, i * b + b) =~= repeat(color, n1).subrange(i * b, i * b + b));
            } else {
                assert(repeat(color, n).subrange(i * b, i * b + b) =~= color);
            }
        }
    }
}

/// Whether byte `i` of a buffer with rows of `ds` bytes lies in the rectangle of `rows` rows
/// from row `dy` and `wb` bytes from byte `dx` of each row.
pub open spec fn in_rect(i: int, ds: int, dx: int, dy: int, wb: int, rows: int) -> bool {
    dy <= i / ds < dy + rows && dx <= i % ds < dx + wb
}

/// What a blit writes: byte `i` of the result is the source byte at the same place of the
/// copied rectangle when `i` lies in the rectangle, else the byte of `d`.
pub proof fn lemma_blit_rows_bytes(d: Seq<u8>, ds: int, dx: int, dy: int, src: Seq<u8>, ss: int, sx: int, sy: int, wb: int, rows: nat)
    requires
        ds > 0,
        0 <= dx,
        0 <= dy,
        0 <= wb,
        dx + wb <= ds,
        (dy + rows) * ds <= d.len(),
        0 <= sx,
        0 <= sy,
        0 <= ss,
        rows > 0 ==> (sy + rows - 1) * ss + sx + wb <= src.len(),
    ensures
        blit_rows(d, ds, dx, dy, src, ss, sx, sy, wb, rows).len() == d.len(),
        forall|i: int| 0 <= i < d.len() ==> #[trigger] blit_rows(d, ds, dx, dy, src, ss, sx, sy, wb, rows)[i]
            == if in_rect(i, ds, dx, dy, wb, rows as int) {
                src[(sy + i / ds - dy) * ss + sx + i % ds - dx]
            } else {
                d[i]
            },
    decreases rows,
{
    if rows > 0 {
        let r = rows - 1;
        let r1 = (rows - 1) as nat;
        assert((dy + r1) * ds <= (dy + rows) * ds) by (nonlinear_arith)
            requires
                r1 < rows,
                ds > 0,
        ;
        if r1 > 0 {
            assert((sy + r1 - 1) * ss <= (sy + rows - 1) * ss) by (nonlinear_arith)
                requires
                    r1 < rows,
                    ss >= 0,
            ;
        }
        lemma_blit_rows_bytes(d, ds, dx, dy, src, ss, sx, sy, wb, r1);
        let prev = blit_rows(d, ds, dx, dy, src, ss, sx, sy, wb, r1);
        let off = (dy + r) * ds + dx;
        let soff = (sy + r) * ss + sx;
        let rr: int = dy + r;
        assert(0 <= rr * ds && rr * ds + ds == (rr + 1) * ds) by (nonlinear_arith)
            requires
                0 <= rr,
                ds > 0,
        ;
        assert(rr + 1 == dy + rows);
        assert(0 <= (sy + r) * ss) by (nonlinear_arith)
            requires
                0 <= sy,
                r >= 0,
                ss >= 0,
        ;
        let part = src.subrange(soff, soff + wb);
        let res = blit_rows(d, ds, dx, dy, src, ss, sx, sy, wb, rows);
        assert(res == splice(prev, off, part));
        assert forall|i: int| 0 <= i < d.len() implies #[trigger] res[i]
            == if in_rect(i, ds, dx, dy, wb, rows as int) {
                src[(sy + i / ds - dy) * ss + sx + i % ds - dx]
            } else {
                d[i]
            } by {
            vstd::arithmetic::div_mod::lemma_fundamental_div_mod(i, ds);
            if off <= i < off + wb {
                vstd::arithmetic::div_mod::lemma_fundamental_div_mod_converse(i, ds, dy + r, dx + (i - off));
                assert(res[i] == part[i - off]);
            } else {
                assert(res[i] == prev[i]);
                if in_rect(i, ds, dx, dy, wb, rows as int) && !in_rect(i, ds, dx, dy, wb, r1 as int) {
                    assert(i / ds == dy + r);
                    assert(i == (dy + r) * ds + i % ds) by (nonlinear_arith)
                        requires
                            i == ds * (i / ds) + i % ds,
                            i / ds == dy + r,
                    ;
                }
            }
        }
    }
}

/// Byte `t` of pixel `(x, y)` of a well-formed buffer of non-zero width sits in row `y` at
/// column `x * bpp + t`.
pub(crate) proof fn lemma_pixel_byte(buf: PixelBuffer, x: int, y: int, t: int)
    requires
        buf.wf(),
        0 <= x < buf.dimensions.width,
        0 <= y < buf.dimensions.height,
        0 <= t < bpp(buf.format),
    ensures
        buf.stride > 0,
        (buf.offset(x, y) + t) / (buf.stride as int) == y,
        (buf.offset(x, y) + t) % (buf.stride as int) == x * bpp(buf.format) + t,
        0 <= buf.offset(x, y) + t < buf.data@.len(),
        buf.pixel(x, y)[t] == buf.data@[buf.offset(x, y) + t],
{
    let b = bpp(buf.format);
    let w = buf.dimensions.width as int;
    let s = buf.stride as int;
    buf.lemma_pixel_in(x, y);
    assert(s > 0 && x * b + t < s && 0 <= x * b) by (nonlinear_arith)
        requires
            s == w * b,
            0 <= x < w,
            0 <= t < b,
    ;
    vstd::arithmetic::div_mod::lemma_fundamental_div_mod_converse(buf.offset(x, y) + t, s, y, x * b + t);
}

/// A blit with no copied columns whose row starts lie within `d` changes nothing.
pub(crate) proof fn lemma_blit_rows_empty(d: Seq<u8>, ds: int, dx: int, dy: int, src: Seq<u8>, ss: int, sx: int, sy: int, rows: nat)
    requires
        0 <= dx,
        0 <= dy,
        0 <= ds,
        rows > 0 ==> (dy + rows - 1) * ds + dx <= d.len(),
        0 <= sx,
        0 <= sy,
        0 <= ss,
        rows > 0 ==> (sy + rows - 1) * ss + sx <= src.len(),
    ensures
        blit_rows(d, ds, dx, dy, src, ss, sx, sy, 0, rows) == d,
    decreases rows,
{
    if rows > 0 {
        let r1 = (rows - 1) as nat;
        if r1 > 0 {
            assert((dy + r1 - 1) * ds <= (dy + rows - 1) * ds) by (nonlinear_arith)
                requires
                    r1 < rows,
                    ds >= 0,
            ;
            assert((sy + r1 - 1) * ss <= (sy + rows - 1) * ss) by (nonlinear_arith)
                requires
                    r1 < rows,
                    ss >= 0,
            ;
        }
        assert(0 <= (sy + r1) * ss) by (nonlinear_arith)
            requires
                0 <= sy,
                ss >= 0,
        ;
        lemma_blit_rows_empty(d, ds, dx, dy, src, ss, sx, sy, r1);
        let off = (dy + r1) * ds + dx;
        assert(0 <= (dy + r1) * ds) by (nonlinear_arith)
            requires
                0 <= dy,
                ds >= 0,
        ;
        assert(splice(d, off, src.subrange((sy + r1) * ss + sx, (sy + r1) * ss + sx + 0)) =~= d);
    }
}

/// A blit copies the clipped rectangle and leaves everything else: when `after` is what a
/// successful `blit` of `src` into `before` leaves, destination pixel
/// `(dst_x + i, dst_y + j)` of the copied rectangle reads as source pixel
/// `(src_x + i, src_y + j)`, and every pixel outside the rectangle reads as before.
pub proof fn lemma_blit_pixels(before: PixelBuffer, after: PixelBuffer, src: PixelBuffer, dst_x: u32, dst_y: u32, src_x: u32, src_y: u32, width: u32, height: u32)
    requires
        before.wf(),
        src.wf(),
        before.format == src.format,
        blit_rows_reachable(before, dst_x, dst_y, src, src_x, src_y, width, height),
        after.dimensions == before.dimensions,
        after.format == before.format,
        after.stride == before.stride,
        after.data@ == blit_rows(before.data@, before.stride as int, dst_x * bpp(src.format), dst_y as int,
            src.data@, src.stride as int, src_x * bpp(src.format), src_y as int,
            blit_width(before, dst_x, src, src_x, width) * bpp(src.format),
            blit_height(before, dst_y, src, src_y, height) as nat),
    ensures
        forall|i: int, j: int| 0 <= i < blit_width(before, dst_x, src, src_x, width)
            && 0 <= j < blit_height(before, dst_y, src, src_y, height)
            ==> #[trigger] after.pixel(dst_x + i, dst_y + j) == src.pixel(src_x + i, src_y + j),
        forall|x: int, y: int| 0 <= x < before.dimensions.width && 0 <= y < before.dimensions.height
            && !(dst_x <= x < dst_x + blit_width(before, dst_x, src, src_x, width)
                && dst_y <= y < dst_y + blit_height(before, dst_y, src, src_y, height))
            ==> #[trigger] after.pixel(x, y) == before.pixel(x, y),
{
    let b = bpp(src.format);
    let cw = blit_width(before, dst_x, src, src_x, width);
    let ch = blit_height(before, dst_y, src, src_y, height);
    let ds = before.stride as int;
    let ss = src.stride as int;
    let w = before.dimensions.width as int;
    let h = before.dimensions.height as int;
    if ch == 0 || w == 0 {
        if w == 0 {
            assert(ds == 0) by (nonlinear_arith)
                requires
                    ds == w * b,
                    w == 0,
            ;
            assert(cw == 0);
        }
        assert(ch == 0 || cw == 0);
        if ch > 0 {
            assert((dst_y + ch - 1) * ds + dst_x * b <= before.data@.len());
            assert(0 <= dst_x * b) by (nonlinear_arith)
                requires
                    b >= 1,
            ;
            assert(0 <= src_x * b) by (nonlinear_arith)
                requires
                    b >= 1,
            ;
            lemma_blit_rows_empty(before.data@, ds, dst_x * b, dst_y as int, src.data@, ss, src_x * b, src_y as int, ch as nat);
            assert(cw * b == 0) by (nonlinear_arith)
                requires
                    cw == 0,
            ;
        }
        assert(after.data@ == before.data@);
    } else if cw == 0 {
        assert((dst_y + ch - 1) * ds + dst_x * b <= before.data@.len());
        assert(0 <= dst_x * b) by (nonlinear_arith)
            requires
                b >= 1,
        ;
        assert(cw * b == 0) by (nonlinear_arith)
            requires
                cw == 0,
        ;
        assert(0 <= src_x * b) by (nonlinear_arith)
            requires
                b >= 1,
        ;
        lemma_blit_rows_empty(before.data@, ds, dst_x * b, dst_y as int, src.data@, ss, src_x * b, src_y as int, ch as nat);
        assert(after.data@ == before.data@);
    } else {
        let sw = src.dimensions.width as int;
        assert(dst_x + cw <= w && src_x + cw <= sw);
        assert(dst_y + ch <= h && src_y + ch <= src.dimensions.height);
        assert(ds > 0 && 0 <= dst_x * b && dst_x * b + cw * b <= ds && (dst_y + ch) * ds <= before.data@.len()
            && 0 <= src_x * b && (src_y + ch - 1) * ss + src_x * b + cw * b <= src.data@.len()) by (nonlinear_arith)
            requires
                ds == w * b,
                w > 0,
                b >= 1,
                dst_x + cw <= w,
                dst_y + ch <= h,
                before.data@.len() == ds * h,
                ss == sw * b,
                src_x + cw <= sw,
                src_y + ch <= src.dimensions.height,
                src.data@.len() == ss * src.dimensions.height,
                src_x >= 0,
                dst_x >= 0,
                cw >= 1,
                ch >= 1,
        ;
        assert(0 <= cw * b);
        lemma_blit_rows_bytes(before.data@, ds, dst_x * b, dst_y as int, src.data@, ss, src_x * b, src_y as int, cw * b, ch as nat);
        assert forall|i: int, j: int| 0 <= i < cw && 0 <= j < ch
            implies #[trigger] after.pixel(dst_x + i, dst_y + j) == src.pixel(src_x + i, src_y + j) by {
            let x = dst_x + i;
            let y = dst_y + j;
            before.lemma_pixel_in(x, y);
            src.lemma_pixel_in(src_x + i, src_y + j);
            assert forall|t: int| 0 <= t < b implies after.pixel(x, y)[t] == src.pixel(src_x + i, src_y + j)[t] by {
                lemma_pixel_byte(before, x, y, t);
                lemma_pixel_byte(src, src_x + i, src_y + j, t);
                let k = before.offset(x, y) + t;
                assert(dst_x * b <= x * b + t < dst_x * b + cw * b) by (nonlinear_arith)
                    requires
                        x == dst_x + i,
                        0 <= i < cw,
                        0 <= t < b,
                ;
                assert(in_rect(k, ds, dst_x * b, dst_y as int, cw * b, ch));
                assert((src_y + k / ds - dst_y) * ss + src_x * b + k % ds - dst_x * b == src.offset(src_x + i, src_y + j) + t) by (nonlinear_arith)
                    requires
                        k / ds == y,
                        k % ds == x * b + t,
                        y == dst_y + j,
                        x == dst_x + i,
                        src.offset(src_x + i, src_y + j) == (src_y + j) * ss + (src_x + i) * b,
                ;
            }
            assert(after.pixel(x, y) =~= src.pixel(src_x + i, src_y + j));
        }
        assert forall|x: int, y: int| 0 <= x < w && 0 <= y < h
            && !(dst_x <= x < dst_x + cw && dst_y <= y < dst_y + ch)
            implies #[trigger] after.pixel(x, y) == before.pixel(x, y) by {
            before.lemma_pixel_in(x, y);
            assert forall|t: int| 0 <= t < b implies after.pixel(x, y)[t] == before.pixel(x, y)[t] by {
                lemma_pixel_byte(before, x, y, t);
                let k = before.offset(x, y) + t;
                if dst_y <= y < dst_y + ch {
                    assert(!(dst_x * b <= x * b + t < dst_x * b + cw * b)) by (nonlinear_arith)
                        requires
                            !(dst_x <= x < dst_x + cw),
                            0 <= t < b,
                    ;
                }
                assert(!in_rect(k, ds, dst_x * b, dst_y as int, cw * b, ch));
            }
            assert(after.pixel(x, y) =~= before.pixel(x, y));
        }
    }
}

/// Cropping keeps the top-left pixels: when `out` is what a successful `crop` of `src` to
/// `target_w` by `target_h` returns, its pixel `(x, y)` reads as pixel `(x, y)` of `src`.
pub proof fn lemma_crop_pixels(src: PixelBuffer, out: PixelBuffer, target_w: u32, target_h: u32)
    requires
        src.wf(),
        out.wf(),
        out.format == src.format,
        out.dimensions.width == (if target_w < src.dimensions.width { target_w } else { src.dimensions.width }),
        out.dimensions.height == (if target_h < src.dimensions.height { target_h } else { src.dimensions.height }),
        out.data@ == blit_rows(zeros((out.dimensions.width * bpp(src.format) * out.dimensions.height) as nat),
            out.dimensions.width * bpp(src.format), 0, 0, src.data@, src.stride as int, 0, 0,
            out.dimensions.width * bpp(src.format), out.dimensions.height as nat),
    ensures
        forall|x: int, y: int| 0 <= x < out.dimensions.width && 0 <= y < out.dimensions.height
            ==> #[trigger] out.pixel(x, y) == src.pixel(x, y),
{
    let b = bpp(src.format);
    let cw = out.dimensions.width as int;
    let ch = out.dimensions.height as int;
    let ds = cw * b;
    let ss = src.stride as int;
    if cw > 0 && ch > 0 {
        let d = zeros((cw * b * ch) as nat);
        assert(ds > 0 && (0 + ch) * ds == cw * b * ch && 0 <= cw * b * ch) by (nonlinear_arith)
            requires
                ds == cw * b,
                cw > 0,
                ch > 0,
                b >= 1,
        ;
        assert((0 + ch - 1) * ss + 0 + cw * b <= src.data@.len()) by (nonlinear_arith)
            requires
                ss == src.dimensions.width * b,
                cw <= src.dimensions.width,
                ch <= src.dimensions.height,
                src.data@.len() == ss * src.dimensions.height,
                ch >= 1,
                b >= 1,
        ;
        lemma_blit_rows_bytes(d, ds, 0, 0, src.data@, ss, 0, 0, cw * b, ch as nat);
        assert forall|x: int, y: int| 0 <= x < cw && 0 <= y < ch implies #[trigger] out.pixel(x, y) == src.pixel(x, y) by {
            out.lemma_pixel_in(x, y);
            src.lemma_pixel_in(x, y);
            assert forall|t: int| 0 <= t < b implies out.pixel(x, y)[t] == src.pixel(x, y)[t] by {
                lemma_pixel_byte(out, x, y, t);
                lemma_pixel_byte(src, x, y, t);
                let k = out.offset(x, y) + t;
                assert(x * b + t < cw * b) by (nonlinear_arith)
                    requires
                        0 <= x < cw,
                        0 <= t < b,
                ;
                assert(in_rect(k, ds, 0, 0, cw * b, ch));
                assert((0 + k / ds - 0) * ss + 0 + k % ds - 0 == src.offset(x, y) + t);
            }
            assert(out.pixel(x, y) =~= src.pixel(x, y));
        }
    }
}

/// A buffer built pixel by pixel reads back pixel by pixel: when the data of a well-formed
/// buffer is the image of `f` (pixels of the format's size), pixel `(x, y)` is `f(x, y)`.
pub proof fn lemma_image_buffer_pixels(buf: PixelBuffer, f: spec_fn(int, int) -> Seq<u8>)
    requires
        buf.wf(),
        buf.data@ == image(buf.dimensions.width as nat, buf.dimensions.height as nat, f),
        forall|x: int, y: int| 0 <= x < buf.dimensions.width && 0 <= y < buf.dimensions.height
            ==> (#[trigger] f(x, y)).len() == bpp(buf.format),
    ensures
        forall|x: int, y: int| 0 <= x < buf.dimensions.width && 0 <= y < buf.dimensions.height
            ==> #[trigger] buf.pixel(x, y) == f(x, y),
{
    let b = bpp(buf.format);
    lemma_image_pixel(buf.dimensions.width as nat, buf.dimensions.height as nat, f, b as nat);
}

/// Two byte sequences of `h` rows of `w` pixels of `b` bytes are equal when all their
/// pixels are.
pub proof fn lemma_same_pixels_same_data(w: int, h: int, b: int, a: Seq<u8>, c: Seq<u8>)
    requires
        w >= 0,
        h >= 0,
        b >= 1,
        a.len() == h * (w * b),
        c.len() == h * (w * b),
        forall|x: int, y: int| 0 <= x < w && 0 <= y < h ==>
            #[trigger] a.subrange(y * (w * b) + x * b, y * (w * b) + x * b + b)
                == c.subrange(y * (w * b) + x * b, y * (w * b) + x * b + b),
    ensures
        a == c,
{
    let s = w * b;
    assert forall|i: int| 0 <= i < a.len() implies a[i] == c[i] by {
        assert(s > 0) by (nonlinear_arith)
            requires
                a.len() == h * s,
                0 <= i < a.len(),
                s == w * b,
                b >= 1,
                w >= 0,
                h >= 0,
        ;
        vstd::arithmetic::div_mod::lemma_fundamental_div_mod(i, s);
        let y = i / s;
        let r = i % s;
        vstd::arithmetic::div_mod::lemma_fundamental_div_mod(r, b);
        let x = r / b;
        let t = r % b;
        assert(0 <= y < h) by (nonlinear_arith)
            requires
                i == s * y + r,
                0 <= r < s,
                0 <= i < h * s,
                s > 0,
        ;
        assert(0 <= x < w) by (nonlinear_arith)
            requires
                r == b * x + t,
                0 <= t < b,
                0 <= r < s,
                s == w * b,
                b >= 1,
        ;
        assert(i == y * s + x * b + t);
        assert(0 <= y * s && y * s + x * b + b <= h * s) by (nonlinear_arith)
            requires
                0 <= y < h,
                0 <= x < w,
                s == w * b,
                b >= 1,
        ;
        assert(a.subrange(y * s + x * b, y * s + x * b + b) == c.subrange(y * s + x * b, y * s + x * b + b));
        assert(a.subrange(y * s + x * b, y * s + x * b + b)[t] == a[i]);
        assert(c.subrange(y * s + x * b, y * s + x * b + b)[t] == c[i]);
    }
    assert(a =~= c);
}

} // verus!
