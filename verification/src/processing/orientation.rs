//! EXIF orientation transforms (rotations and reflections) of pixel buffers.

use crate::error::{ErrorKind, HeicError, HeicResult};
use crate::limits::Limits;
use crate::processing::pixels;
use crate::processing::pixels::{bpp, image, image_row, PixelBuffer};
use crate::text::append_bytes;
use crate::types::{spec_swaps_dimensions, ImageDimensions, Orientation};
use vstd::prelude::*;

verus! {

/// EXIF orientation, by its EXIF name.
pub type ExifOrientation = Orientation;

/// Width and height of an image of `w` by `h` pixels after orientation `o`.
pub open spec fn oriented_dims(o: Orientation, w: int, h: int) -> (int, int) {
    if spec_swaps_dimensions(o) { (h, w) } else { (w, h) }
}

/// The source pixel (in an image of `w` by `h` pixels) that lands at `(dx, dy)` under
/// orientation `o`, which maps source `(x, y)` to: 1 `(x, y)`; 2 `(w-1-x, y)`;
/// 3 `(w-1-x, h-1-y)`; 4 `(x, h-1-y)`; 5 `(y, x)`; 6 `(h-1-y, x)`; 7 `(h-1-y, w-1-x)`;
/// 8 `(y, w-1-x)`.
pub open spec fn source_of(o: Orientation, w: int, h: int, dx: int, dy: int) -> (int, int) {
    match o {
        Orientation::Normal => (dx, dy),
        Orientation::MirrorHorizontal => (w - 1 - dx, dy),
        Orientation::Rotate180 => (w - 1 - dx, h - 1 - dy),
        Orientation::MirrorVertical => (dx, h - 1 - dy),
        Orientation::MirrorHorizontalRotate270 => (dy, dx),
        Orientation::Rotate90 => (dy, h - 1 - dx),
        Orientation::MirrorHorizontalRotate90 => (w - 1 - dy, h - 1 - dx),
        Orientation::Rotate270 => (w - 1 - dy, dx),
    }
}

/// Where source pixel `(x, y)` of an image of `w` by `h` pixels lands under orientation `o`.
pub open spec fn target_of(o: Orientation, w: int, h: int, x: int, y: int) -> (int, int) {
    match o {
        Orientation::Normal => (x, y),
        Orientation::MirrorHorizontal => (w - 1 - x, y),
        Orientation::Rotate180 => (w - 1 - x, h - 1 - y),
        Orientation::MirrorVertical => (x, h - 1 - y),
        Orientation::MirrorHorizontalRotate270 => (y, x),
        Orientation::Rotate90 => (h - 1 - y, x),
        Orientation::MirrorHorizontalRotate90 => (h - 1 - y, w - 1 - x),
        Orientation::Rotate270 => (y, w - 1 - x),
    }
}

/// The pixels of the oriented image of `src`, by destination coordinates.
pub open spec fn oriented_pixel(src: PixelBuffer, o: Orientation) -> spec_fn(int, int) -> Seq<u8> {
    |dx: int, dy: int| {
        let s = source_of(o, src.dimensions.width as int, src.dimensions.height as int, dx, dy);
        src.pixel(s.0, s.1)
    }
}

/// The bytes of `src` after orientation `o`, in row-major order.
pub open spec fn spec_oriented(src: PixelBuffer, o: Orientation) -> Seq<u8> {
    let d = oriented_dims(o, src.dimensions.width as int, src.dimensions.height as int);
    image(d.0 as nat, d.1 as nat, oriented_pixel(src, o))
}

/// Every destination pixel comes from a pixel of the source.
pub proof fn lemma_source_in_range(o: Orientation, w: int, h: int, dx: int, dy: int)
    requires
        0 <= dx < oriented_dims(o, w, h).0,
        0 <= dy < oriented_dims(o, w, h).1,
    ensures
        0 <= source_of(o, w, h, dx, dy).0 < w,
        0 <= source_of(o, w, h, dx, dy).1 < h,
{
}

/// Offset in `src` of the source pixel of destination pixel `(dx, dy)`.
fn source_offset(src: &PixelBuffer, o: Orientation, dx: u32, dy: u32) -> (off: usize)
    requires
        src.readable(),
        !(o is Normal),
        dx < oriented_dims(o, src.dimensions.width as int, src.dimensions.height as int).0,
        dy < oriented_dims(o, src.dimensions.width as int, src.dimensions.height as int).1,
    ensures
        off + bpp(src.format) <= src.data@.len(),
        src.data@.subrange(off as int, off + bpp(src.format)) == oriented_pixel(*src, o)(dx as int, dy as int),
{
    let w = src.dimensions.width;
    let h = src.dimensions.height;
    let n = src.format.bytes_per_pixel();
    let _len = src.data.len();
    let (sx, sy): (u32, u32) = match o {
        Orientation::Normal => (dx, dy),
        Orientation::MirrorHorizontal => (w - 1 - dx, dy),
        Orientation::Rotate180 => (w - 1 - dx, h - 1 - dy),
        Orientation::MirrorVertical => (dx, h - 1 - dy),
        Orientation::MirrorHorizontalRotate270 => (dy, dx),
        Orientation::Rotate90 => (dy, h - 1 - dx),
        Orientation::MirrorHorizontalRotate90 => (w - 1 - dy, h - 1 - dx),
        Orientation::Rotate270 => (w - 1 - dy, dx),
    };
    assert((sx as int, sy as int) == source_of(o, w as int, h as int, dx as int, dy as int));
    proof {
        src.lemma_pixel_in(sx as int, sy as int);
    }
    (sy as usize) * src.stride + (sx as usize) * n
}

/// Applies an EXIF orientation to a readable pixel buffer. The identity returns a copy;
/// any other orientation builds a new buffer (checked against `limits`) in which source
/// pixel `(x, y)` lands at [`target_of`].
pub fn apply_orientation(src: &PixelBuffer, orientation: Orientation, limits: &Limits) -> (r: HeicResult<PixelBuffer>)
    requires
        src.readable(),
        src.dimensions.width == 0 ==> src.dimensions.height * bpp(src.format) <= usize::MAX,
    ensures
        orientation is Normal ==> (r matches Ok(b) && b.dimensions == src.dimensions && b.format == src.format
            && b.stride == src.stride && b.data@ == src.data@),
        !(orientation is Normal) ==> ({
            let d = oriented_dims(orientation, src.dimensions.width as int, src.dimensions.height as int);
            let dims = ImageDimensions { width: d.0 as u32, height: d.1 as u32 };
            let total = d.0 * bpp(src.format) * d.1;
            &&& r is Ok <==> (limits.allows_dimensions(dims) && limits.allows_pixel_count(d.0 * d.1)
                && limits.allows_memory_size(total))
            &&& r matches Err(e) ==> e.kind() == ErrorKind::LimitExceeded
            &&& r matches Ok(b) ==> b.dimensions == dims && b.format == src.format && b.wf()
                && b.data@ == spec_oriented(*src, orientation)
        }),
{
    if orientation == Orientation::Normal {
        return Ok(PixelBuffer {
            dimensions: src.dimensions,
            format: src.format,
            data: vstd::slice::slice_to_vec(src.data.as_slice()),
            stride: src.stride,
        });
    }
    let w = src.dimensions.width;
    let h = src.dimensions.height;
    let n = src.format.bytes_per_pixel();
    let swaps = orientation.swaps_dimensions();
    let (dw, dh) = if swaps { (h, w) } else { (w, h) };
    let ghost b = bpp(src.format);
    let slen = src.data.len();
    proof {
        let s = src.stride as int;
        assert(w * b * h <= slen && w * b <= usize::MAX && (w >= 1 ==> h * b <= slen)) by (nonlinear_arith)
            requires
                s >= w * b,
                s <= usize::MAX,
                h == 0 || (h - 1) * s + w * b <= slen,
                w >= 0,
                h >= 0,
                b >= 1,
        ;
        assert(dw * b <= usize::MAX && dw * b * dh <= usize::MAX && dw * b * dh == w * b * h) by (nonlinear_arith)
            requires
                (dw == w && dh == h) || (dw == h && dh == w),
                w * b * h <= slen,
                slen <= usize::MAX,
                w * b <= usize::MAX,
                h * b <= usize::MAX,
                w >= 0,
                h >= 0,
                1 <= b <= 4,
        ;
    }
    let mut dst = PixelBuffer::new_with_limits(ImageDimensions::new(dw, dh), src.format, limits)?;
    let ghost f = oriented_pixel(*src, orientation);
    let mut out: Vec<u8> = Vec::new();
    let mut dy: u32 = 0;
    while dy < dh
        invariant
            dy <= dh,
            src.readable(),
            n == b,
            b == bpp(src.format),
            1 <= b <= 4,
            slen == src.data@.len(),
            w == src.dimensions.width,
            h == src.dimensions.height,
            (dw as int, dh as int) == oriented_dims(orientation, w as int, h as int),
            !(orientation is Normal),
            f == oriented_pixel(*src, orientation),
            out@ == image(dw as nat, dy as nat, f),
        decreases dh - dy,
    {
        let mut dx: u32 = 0;
        while dx < dw
            invariant
                dx <= dw,
                dy < dh,
                src.readable(),
                n == b,
                b == bpp(src.format),
                1 <= b <= 4,
                slen == src.data@.len(),
                w == src.dimensions.width,
                h == src.dimensions.height,
                (dw as int, dh as int) == oriented_dims(orientation, w as int, h as int),
                !(orientation is Normal),
                f == oriented_pixel(*src, orientation),
                out@ == image(dw as nat, dy as nat, f) + image_row(dy as int, dx as nat, f),
            decreases dw - dx,
        {
            let off = source_offset(src, orientation, dx, dy);
            let ghost before = out@;
            append_bytes(&mut out, &src.data.as_slice()[off..off + n]);
            assert(out@ =~= image(dw as nat, dy as nat, f) + image_row(dy as int, (dx + 1) as nat, f));
            dx = dx + 1;
        }
        assert(out@ =~= image(dw as nat, (dy + 1) as nat, f));
        dy = dy + 1;
    }
    proof {
        assert forall|x: int, y: int| 0 <= x < dw && 0 <= y < dh implies (#[trigger] f(x, y)).len() == b by {
            lemma_source_in_range(orientation, w as int, h as int, x, y);
            let sxy = source_of(orientation, w as int, h as int, x, y);
            src.lemma_pixel_in(sxy.0, sxy.1);
        }
        pixels::lemma_image_pixel(dw as nat, dh as nat, f, b as nat);
        assert(dh * (dw * b) == dw * b * dh) by (nonlinear_arith);
    }
    dst.data = out;
    Ok(dst)
}

/// Orientation moves every pixel and changes none: source pixel `(x, y)` of a well-formed
/// buffer reads, in the oriented buffer, at [`target_of`], which lies within the oriented
/// dimensions. `dst` is what `apply_orientation` returns: a copy for the identity, else
/// [`spec_oriented`].
pub proof fn lemma_orientation_moves_pixel(src: PixelBuffer, dst: PixelBuffer, o: Orientation, x: int, y: int)
    requires
        src.wf(),
        dst.wf(),
        dst.format == src.format,
        dst.dimensions.width == oriented_dims(o, src.dimensions.width as int, src.dimensions.height as int).0,
        dst.dimensions.height == oriented_dims(o, src.dimensions.width as int, src.dimensions.height as int).1,
        (o is Normal && dst.data@ == src.data@) || dst.data@ == spec_oriented(src, o),
        0 <= x < src.dimensions.width,
        0 <= y < src.dimensions.height,
    ensures
        0 <= target_of(o, src.dimensions.width as int, src.dimensions.height as int, x, y).0 < dst.dimensions.width,
        0 <= target_of(o, src.dimensions.width as int, src.dimensions.height as int, x, y).1 < dst.dimensions.height,
        dst.pixel(target_of(o, src.dimensions.width as int, src.dimensions.height as int, x, y).0,
            target_of(o, src.dimensions.width as int, src.dimensions.height as int, x, y).1) == src.pixel(x, y),
{
    let w = src.dimensions.width as int;
    let h = src.dimensions.height as int;
    let b = bpp(src.format);
    let t = target_of(o, w, h, x, y);
    assert(source_of(o, w, h, t.0, t.1) == (x, y));
    if o is Normal && dst.data@ == src.data@ {
    } else {
        let d = oriented_dims(o, w, h);
        let f = oriented_pixel(src, o);
        assert forall|dx: int, dy: int| 0 <= dx < d.0 && 0 <= dy < d.1 implies (#[trigger] f(dx, dy)).len() == b by {
            lemma_source_in_range(o, w, h, dx, dy);
            let sxy = source_of(o, w, h, dx, dy);
            src.lemma_pixel_in(sxy.0, sxy.1);
        }
        pixels::lemma_image_pixel(d.0 as nat, d.1 as nat, f, b as nat);
        assert(f(t.0, t.1) == src.pixel(x, y));
    }
}

/// The orientation that undoes `o`: the two quarter turns undo each other, and every other
/// orientation undoes itself.
pub open spec fn inverse_orientation(o: Orientation) -> Orientation {
    match o {
        Orientation::Rotate90 => Orientation::Rotate270,
        Orientation::Rotate270 => Orientation::Rotate90,
        _ => o,
    }
}

/// Orientations 5 to 8 swap width and height, the others keep them; and applying the
/// inverse orientation to an oriented buffer gives the source back: `mid` is `src` oriented
/// by `o`, and `out` is `mid` oriented by [`inverse_orientation`] of `o`, as
/// `apply_orientation` builds them.
pub proof fn lemma_orientation_inverse(src: PixelBuffer, mid: PixelBuffer, out: PixelBuffer, o: Orientation)
    requires
        src.wf(),
        mid.wf(),
        out.wf(),
        mid.format == src.format,
        out.format == src.format,
        mid.dimensions.width == oriented_dims(o, src.dimensions.width as int, src.dimensions.height as int).0,
        mid.dimensions.height == oriented_dims(o, src.dimensions.width as int, src.dimensions.height as int).1,
        mid.data@ == spec_oriented(src, o),
        out.dimensions.width == oriented_dims(inverse_orientation(o), mid.dimensions.width as int,
            mid.dimensions.height as int).0,
        out.dimensions.height == oriented_dims(inverse_orientation(o), mid.dimensions.width as int,
            mid.dimensions.height as int).1,
        out.data@ == spec_oriented(mid, inverse_orientation(o)),
    ensures
        spec_swaps_dimensions(o) <==> (o is MirrorHorizontalRotate270 || o is Rotate90 || o is MirrorHorizontalRotate90
            || o is Rotate270),
        out.dimensions == src.dimensions,
        out.data@ == src.data@,
{
    let w = src.dimensions.width as int;
    let h = src.dimensions.height as int;
    let b = bpp(src.format);
    let mw = mid.dimensions.width as int;
    let mh = mid.dimensions.height as int;
    let inv = inverse_orientation(o);
    let f = oriented_pixel(src, o);
    assert forall|dx: int, dy: int| 0 <= dx < mw && 0 <= dy < mh implies (#[trigger] f(dx, dy)).len() == b by {
        lemma_source_in_range(o, w, h, dx, dy);
        let sxy = source_of(o, w, h, dx, dy);
        src.lemma_pixel_in(sxy.0, sxy.1);
    }
    pixels::lemma_image_pixel(mw as nat, mh as nat, f, b as nat);
    let g = oriented_pixel(mid, inv);
    assert forall|x: int, y: int| 0 <= x < w && 0 <= y < h implies #[trigger] g(x, y) == src.pixel(x, y) by {
        lemma_source_in_range(inv, mw, mh, x, y);
        let m = source_of(inv, mw, mh, x, y);
        assert(source_of(o, w, h, m.0, m.1) == (x, y));
        assert(mid.pixel(m.0, m.1) == f(m.0, m.1));
    }
    assert forall|x: int, y: int| 0 <= x < w && 0 <= y < h implies (#[trigger] g(x, y)).len() == b by {
        src.lemma_pixel_in(x, y);
    }
    assert(out.dimensions == src.dimensions);
    pixels::lemma_image_pixel(w as nat, h as nat, g, b as nat);
    assert forall|x: int, y: int| 0 <= x < w && 0 <= y < h implies
        #[trigger] out.data@.subrange(y * (w * b) + x * b, y * (w * b) + x * b + b)
            == src.data@.subrange(y * (w * b) + x * b, y * (w * b) + x * b + b) by {
        assert(g(x, y) == src.pixel(x, y));
    }
    assert(src.data@.len() == h * (w * b)) by (nonlinear_arith)
        requires
            src.data@.len() == src.stride * h,
            src.stride == w * b,
    ;
    pixels::lemma_same_pixels_same_data(w, h, b, out.data@, src.data@);
}

} // verus!
