//! Colour profiles, alpha merging, background blending and pixel format conversion.

use crate::error::{ErrorKind, HeicError, HeicResult};
use crate::limits::Limits;
use crate::processing::pixels;
use crate::processing::pixels::{bpp, image, image_row, lemma_image_buffer_pixels, lemma_same_pixels_same_data, PixelBuffer};
use crate::types::{spec_has_alpha, ColorSpace, ImageDimensions, PixelFormat};
use vstd::prelude::*;

verus! {

/// Colour profile of an image.
#[derive(Debug, Clone, PartialEq, Eq)]
pub struct ColorProfileInfo {
    /// Identified colour space.
    pub space: ColorSpace,
    /// Raw ICC profile bytes, if embedded in the container.
    pub raw_icc: Option<Vec<u8>>,
}

impl Default for ColorProfileInfo {
    fn default() -> (p: Self)
        ensures
            p.space is Srgb,
            p.raw_icc is None,
    {
        ColorProfileInfo { space: ColorSpace::Srgb, raw_icc: None }
    }
}

/// Red, green and blue of the pixel at byte `i` of `buf` as alpha merging reads them: in
/// byte order for RGB layouts, reversed for BGR layouts; a gray buffer reads the byte and
/// the next two (clamped to the last byte of the data).
pub open spec fn merge_rgb(buf: PixelBuffer, i: int) -> (u8, u8, u8) {
    let d = buf.data@;
    match buf.format {
        PixelFormat::Rgb8 | PixelFormat::Rgba8 => (d[i], d[i + 1], d[i + 2]),
        PixelFormat::Bgr8 | PixelFormat::Bgra8 => (d[i + 2], d[i + 1], d[i]),
        PixelFormat::Gray8 => {
            let last = d.len() - 1;
            (d[i], d[if i + 1 < last { i + 1 } else { last }], d[if i + 2 < last { i + 2 } else { last }])
        },
    }
}

/// The merged pixel `(x, y)`: colour from `rgb`, alpha from the fourth byte of a 4-byte
/// `alpha` pixel or the first byte otherwise.
pub open spec fn merged_pixel(rgb: PixelBuffer, alpha: PixelBuffer) -> spec_fn(int, int) -> Seq<u8> {
    |x: int, y: int| {
        let c = merge_rgb(rgb, rgb.offset(x, y));
        let ai = alpha.offset(x, y);
        let a = if bpp(alpha.format) >= 4 { alpha.data@[ai + 3] } else { alpha.data@[ai] };
        seq![c.0, c.1, c.2, a]
    }
}

/// Reads the colour of the pixel at byte `i` for alpha merging.
fn read_merge_rgb(buf: &PixelBuffer, i: usize) -> (c: (u8, u8, u8))
    requires
        i + bpp(buf.format) <= buf.data@.len(),
    ensures
        c == merge_rgb(*buf, i as int),
{
    let d = buf.data.as_slice();
    match buf.format {
        PixelFormat::Rgb8 | PixelFormat::Rgba8 => (d[i], d[i + 1], d[i + 2]),
        PixelFormat::Bgr8 | PixelFormat::Bgra8 => (d[i + 2], d[i + 1], d[i]),
        PixelFormat::Gray8 => {
            let last = d.len() - 1;
            let i1 = if last - i > 1 { i + 1 } else { last };
            let i2 = if last - i > 2 { i + 2 } else { last };
            (d[i], d[i1], d[i2])
        },
    }
}

/// Merges a colour buffer and an alpha plane of the same dimensions into a new RGBA buffer
/// (checked against `limits`).
pub fn merge_alpha_channel(rgb_buf: &PixelBuffer, alpha_buf: &PixelBuffer, limits: &Limits) -> (r: HeicResult<PixelBuffer>)
    requires
        rgb_buf.dimensions == alpha_buf.dimensions ==> {
            &&& rgb_buf.readable()
            &&& alpha_buf.readable()
            &&& rgb_buf.dimensions.width * 4 <= usize::MAX
            &&& rgb_buf.dimensions.width * 4 * rgb_buf.dimensions.height <= usize::MAX
        },
    ensures
        rgb_buf.dimensions != alpha_buf.dimensions ==> (r matches Err(e) && e.kind() == ErrorKind::InvalidInput),
        rgb_buf.dimensions == alpha_buf.dimensions ==> ({
            let d = rgb_buf.dimensions;
            &&& r is Ok <==> (limits.allows_dimensions(d) && limits.allows_pixel_count(d.width * d.height)
                && limits.allows_memory_size(d.width * 4 * d.height))
            &&& r matches Err(e) ==> e.kind() == ErrorKind::LimitExceeded
            &&& r matches Ok(b) ==> b.dimensions == d && b.format == PixelFormat::Rgba8 && b.wf()
                && b.data@ == image(d.width as nat, d.height as nat, merged_pixel(*rgb_buf, *alpha_buf))
        }),
{
    if rgb_buf.dimensions != alpha_buf.dimensions {
        return Err(HeicError::invalid_input("Dimension mismatch between color and alpha planes"));
    }
    let dims = rgb_buf.dimensions;
    let w = dims.width;
    let h = dims.height;
    let _rlen = rgb_buf.data.len();
    let _alen = alpha_buf.data.len();
    let mut out_buf = PixelBuffer::new_with_limits(dims, PixelFormat::Rgba8, limits)?;
    let ghost f = merged_pixel(*rgb_buf, *alpha_buf);
    let alpha_wide = alpha_buf.format.bytes_per_pixel() >= 4;
    let mut out: Vec<u8> = Vec::new();
    let mut y: u32 = 0;
    while y < h
        invariant
            y <= h,
            rgb_buf.readable(),
            alpha_buf.readable(),
            dims == rgb_buf.dimensions,
            dims == alpha_buf.dimensions,
            w == dims.width,
            h == dims.height,
            alpha_wide == (bpp(alpha_buf.format) >= 4),
            f == merged_pixel(*rgb_buf, *alpha_buf),
            out@ == image(w as nat, y as nat, f),
        decreases h - y,
    {
        let mut x: u32 = 0;
        while x < w
            invariant
                x <= w,
                y < h,
                rgb_buf.readable(),
                alpha_buf.readable(),
                dims == rgb_buf.dimensions,
                dims == alpha_buf.dimensions,
                w == dims.width,
                h == dims.height,
                alpha_wide == (bpp(alpha_buf.format) >= 4),
                f == merged_pixel(*rgb_buf, *alpha_buf),
                out@ == image(w as nat, y as nat, f) + image_row(y as int, x as nat, f),
            decreases w - x,
        {
            let ri = rgb_buf.pixel_offset(x, y);
            let ai = alpha_buf.pixel_offset(x, y);
            let (r, g, b) = read_merge_rgb(rgb_buf, ri);
            let _alen = alpha_buf.data.len();
            let a = if alpha_wide { alpha_buf.data[ai + 3] } else { alpha_buf.data[ai] };
            out.push(r);
            out.push(g);
            out.push(b);
            out.push(a);
            assert(out@ =~= image(w as nat, y as nat, f) + image_row(y as int, (x + 1) as nat, f));
            x = x + 1;
        }
        assert(out@ =~= image(w as nat, (y + 1) as nat, f));
        y = y + 1;
    }
    proof {
        lemma_image_len(w as nat, h as nat, f, 4);
    }
    out_buf.data = out;
    Ok(out_buf)
}

/// `c` blended over background `bg` with opacity `a` (0 to 255), rounded:
/// `(c * a + bg * (255 - a) + 127) / 255`.
pub open spec fn blend(c: int, a: int, bg: int) -> u8 {
    ((c * a + bg * (255 - a) + 127) / 255) as u8
}

/// Red, green, blue and alpha of the pixel at byte `i` as flattening reads them; layouts
/// without alpha are opaque.
pub open spec fn flatten_rgba(buf: PixelBuffer, i: int) -> (int, int, int, int) {
    let d = buf.data@;
    match buf.format {
        PixelFormat::Rgba8 => (d[i] as int, d[i + 1] as int, d[i + 2] as int, d[i + 3] as int),
        PixelFormat::Bgra8 => (d[i + 2] as int, d[i + 1] as int, d[i] as int, d[i + 3] as int),
        _ => (d[i] as int, d[i + 1] as int, d[i + 2] as int, 255),
    }
}

/// Pixel `(x, y)` of `src` flattened onto background `bg`.
pub open spec fn flat_pixel(src: PixelBuffer, bg: [u8; 3]) -> spec_fn(int, int) -> Seq<u8> {
    |x: int, y: int| {
        let c = flatten_rgba(src, src.offset(x, y));
        seq![blend(c.0, c.3, bg[0] as int), blend(c.1, c.3, bg[1] as int), blend(c.2, c.3, bg[2] as int)]
    }
}

/// Flattening reads each layout's own channels: output pixel `(x, y)` is the red, green and
/// blue of source pixel `(x, y)` blended over `bg` with its alpha, where an RGBA pixel holds
/// red, green, blue, alpha in bytes 0 to 3, a BGRA pixel holds blue, green, red, alpha, and a
/// pixel of a layout without alpha is opaque, so its bytes are kept. `out` is what
/// `flatten_alpha` returns for `src` and `bg`.
pub proof fn lemma_flatten_channels(src: PixelBuffer, bg: [u8; 3], out: PixelBuffer, x: int, y: int)
    requires
        src.readable(),
        src.format != PixelFormat::Gray8,
        out.wf(),
        out.format == PixelFormat::Rgb8,
        out.dimensions == src.dimensions,
        out.data@ == image(src.dimensions.width as nat, src.dimensions.height as nat, flat_pixel(src, bg)),
        0 <= x < src.dimensions.width,
        0 <= y < src.dimensions.height,
    ensures
        ({
            let d = src.data@;
            let o3 = y * src.stride + x * 3;
            let o4 = y * src.stride + x * 4;
            let p = out.data@.subrange(y * out.stride + x * 3, y * out.stride + x * 3 + 3);
            &&& src.format == PixelFormat::Rgba8 ==> p == seq![
                ((d[o4] * d[o4 + 3] + bg[0] * (255 - d[o4 + 3]) + 127) / 255) as u8,
                ((d[o4 + 1] * d[o4 + 3] + bg[1] * (255 - d[o4 + 3]) + 127) / 255) as u8,
                ((d[o4 + 2] * d[o4 + 3] + bg[2] * (255 - d[o4 + 3]) + 127) / 255) as u8,
            ]
            &&& src.format == PixelFormat::Bgra8 ==> p == seq![
                ((d[o4 + 2] * d[o4 + 3] + bg[0] * (255 - d[o4 + 3]) + 127) / 255) as u8,
                ((d[o4 + 1] * d[o4 + 3] + bg[1] * (255 - d[o4 + 3]) + 127) / 255) as u8,
                ((d[o4] * d[o4 + 3] + bg[2] * (255 - d[o4 + 3]) + 127) / 255) as u8,
            ]
            &&& (src.format == PixelFormat::Rgb8 || src.format == PixelFormat::Bgr8) ==> p == seq![d[o3], d[o3 + 1], d[o3 + 2]]
        }),
{
    let f = flat_pixel(src, bg);
    assert forall|i: int, j: int| 0 <= i < src.dimensions.width && 0 <= j < src.dimensions.height
        implies (#[trigger] f(i, j)).len() == bpp(out.format) by {}
    lemma_image_buffer_pixels(out, f);
    assert(out.pixel(x, y) == f(x, y));
    let d = src.data@;
    let o = src.offset(x, y);
    src.lemma_pixel_in(x, y);
    if src.format == PixelFormat::Rgb8 || src.format == PixelFormat::Bgr8 {
        assert forall|c: int, b: int| 0 <= c < 256 && 0 <= b < 256 implies #[trigger] blend(c, 255, b) == c by {
            assert((c * 255 + b * (255 - 255) + 127) / 255 == c) by (nonlinear_arith)
                requires
                    0 <= c < 256,
                    0 <= b < 256,
            ;
        }
        assert(blend(d[o] as int, 255, bg[0] as int) == d[o]);
        assert(blend(d[o + 1] as int, 255, bg[1] as int) == d[o + 1]);
        assert(blend(d[o + 2] as int, 255, bg[2] as int) == d[o + 2]);
    }
}

/// Blends one channel.
fn blend_channel(c: u8, a: u8, bg: u8) -> (r: u8)
    ensures
        r == blend(c as int, a as int, bg as int),
{
    let c32 = c as u32;
    let a32 = a as u32;
    let bg32 = bg as u32;
    assert(c32 * a32 <= 255 * 255 && bg32 * (255 - a32) <= 255 * 255) by (nonlinear_arith)
        requires
            c32 <= 255,
            a32 <= 255,
            bg32 <= 255,
    ;
    let v = (c32 * a32 + bg32 * (255 - a32) + 127) / 255;
    assert(v <= 255) by (nonlinear_arith)
        requires
            v == (c32 * a32 + bg32 * (255 - a32) + 127) / 255,
            c32 <= 255,
            a32 <= 255,
            bg32 <= 255,
    ;
    v as u8
}

/// Flattens a buffer onto a solid background colour, giving a new opaque RGB buffer (checked
/// against `limits`): each channel becomes `(c * a + bg * (255 - a) + 127) / 255`.
pub fn flatten_alpha(rgba_buf: &PixelBuffer, bg_color: [u8; 3], limits: &Limits) -> (r: HeicResult<PixelBuffer>)
    requires
        rgba_buf.readable(),
        rgba_buf.format != PixelFormat::Gray8 || rgba_buf.dimensions.width * rgba_buf.dimensions.height == 0,
        rgba_buf.dimensions.width * 3 <= usize::MAX,
        rgba_buf.dimensions.width * 3 * rgba_buf.dimensions.height <= usize::MAX,
    ensures
        ({
            let d = rgba_buf.dimensions;
            &&& r is Ok <==> (limits.allows_dimensions(d) && limits.allows_pixel_count(d.width * d.height)
                && limits.allows_memory_size(d.width * 3 * d.height))
            &&& r matches Err(e) ==> e.kind() == ErrorKind::LimitExceeded
            &&& r matches Ok(b) ==> b.dimensions == d && b.format == PixelFormat::Rgb8 && b.wf()
                && b.data@ == image(d.width as nat, d.height as nat, flat_pixel(*rgba_buf, bg_color))
        }),
{
    let dims = rgba_buf.dimensions;
    let w = dims.width;
    let h = dims.height;
    let mut out_buf = PixelBuffer::new_with_limits(dims, PixelFormat::Rgb8, limits)?;
    let ghost f = flat_pixel(*rgba_buf, bg_color);
    let mut out: Vec<u8> = Vec::new();
    let mut y: u32 = 0;
    while y < h
        invariant
            y <= h,
            rgba_buf.readable(),
            dims == rgba_buf.dimensions,
            w == dims.width,
            h == dims.height,
            rgba_buf.format != PixelFormat::Gray8 || w * h == 0,
            f == flat_pixel(*rgba_buf, bg_color),
            out@ == image(w as nat, y as nat, f),
        decreases h - y,
    {
        let mut x: u32 = 0;
        while x < w
            invariant
                x <= w,
                y < h,
                rgba_buf.readable(),
                dims == rgba_buf.dimensions,
                w == dims.width,
                h == dims.height,
                rgba_buf.format != PixelFormat::Gray8 || w * h == 0,
                f == flat_pixel(*rgba_buf, bg_color),
                out@ == image(w as nat, y as nat, f) + image_row(y as int, x as nat, f),
            decreases w - x,
        {
            proof {
                assert(w * h > 0) by (nonlinear_arith)
                    requires
                        x < w,
                        y < h,
                ;
            }
            let i = rgba_buf.pixel_offset(x, y);
            let _len = rgba_buf.data.len();
            let d = rgba_buf.data.as_slice();
            let (r, g, b, a): (u8, u8, u8, u8) = match rgba_buf.format {
                PixelFormat::Rgba8 => (d[i], d[i + 1], d[i + 2], d[i + 3]),
                PixelFormat::Bgra8 => (d[i + 2], d[i + 1], d[i], d[i + 3]),
                _ => (d[i], d[i + 1], d[i + 2], 255u8),
            };
            out.push(blend_channel(r, a, bg_color[0]));
            out.push(blend_channel(g, a, bg_color[1]));
            out.push(blend_channel(b, a, bg_color[2]));
            assert(out@ =~= image(w as nat, y as nat, f) + image_row(y as int, (x + 1) as nat, f));
            x = x + 1;
        }
        assert(out@ =~= image(w as nat, (y + 1) as nat, f));
        y = y + 1;
    }
    proof {
        lemma_image_len(w as nat, h as nat, f, 3);
    }
    out_buf.data = out;
    Ok(out_buf)
}

/// Red, green, blue and alpha of the pixel at byte `i` as format conversion reads them
/// (gray is replicated, layouts without alpha are opaque).
pub open spec fn convert_rgba(buf: PixelBuffer, i: int) -> (u8, u8, u8, u8) {
    let d = buf.data@;
    match buf.format {
        PixelFormat::Rgb8 => (d[i], d[i + 1], d[i + 2], 255u8),
        PixelFormat::Rgba8 => (d[i], d[i + 1], d[i + 2], d[i + 3]),
        PixelFormat::Bgr8 => (d[i + 2], d[i + 1], d[i], 255u8),
        PixelFormat::Bgra8 => (d[i + 2], d[i + 1], d[i], d[i + 3]),
        PixelFormat::Gray8 => (d[i], d[i], d[i], 255u8),
    }
}

/// The bytes of a pixel with channels `c` in layout `target`.
pub open spec fn encode_rgba(c: (u8, u8, u8, u8), target: PixelFormat) -> Seq<u8> {
    match target {
        PixelFormat::Rgb8 => seq![c.0, c.1, c.2],
        PixelFormat::Rgba8 => seq![c.0, c.1, c.2, c.3],
        PixelFormat::Bgr8 => seq![c.2, c.1, c.0],
        PixelFormat::Bgra8 => seq![c.2, c.1, c.0, c.3],
        PixelFormat::Gray8 => seq![c.0],
    }
}

/// Pixel `(x, y)` of `src` in layout `target`.
pub open spec fn converted_pixel(src: PixelBuffer, target: PixelFormat) -> spec_fn(int, int) -> Seq<u8> {
    |x: int, y: int| encode_rgba(convert_rgba(src, src.offset(x, y)), target)
}

/// Conversion moves each layout's own channels: output pixel `(x, y)` holds the red, green,
/// blue and alpha of source pixel `(x, y)` in the target's byte order, where RGB and RGBA
/// store red, green, blue (alpha) in bytes 0 to 3, BGR and BGRA store blue, green, red
/// (alpha), gray is one byte for all three colours, and layouts without alpha are opaque.
/// `out` is what `convert_pixel_format` returns for `src` and another colour layout `t`.
pub proof fn lemma_convert_channels(src: PixelBuffer, t: PixelFormat, out: PixelBuffer, x: int, y: int)
    requires
        src.readable(),
        t != PixelFormat::Gray8,
        t != src.format,
        out.wf(),
        out.format == t,
        out.dimensions == src.dimensions,
        out.data@ == image(src.dimensions.width as nat, src.dimensions.height as nat, converted_pixel(src, t)),
        0 <= x < src.dimensions.width,
        0 <= y < src.dimensions.height,
    ensures
        ({
            let d = src.data@;
            let o1 = y * src.stride + x;
            let o3 = y * src.stride + x * 3;
            let o4 = y * src.stride + x * 4;
            let c: (u8, u8, u8, u8) = match src.format {
                PixelFormat::Rgb8 => (d[o3], d[o3 + 1], d[o3 + 2], 255u8),
                PixelFormat::Rgba8 => (d[o4], d[o4 + 1], d[o4 + 2], d[o4 + 3]),
                PixelFormat::Bgr8 => (d[o3 + 2], d[o3 + 1], d[o3], 255u8),
                PixelFormat::Bgra8 => (d[o4 + 2], d[o4 + 1], d[o4], d[o4 + 3]),
                PixelFormat::Gray8 => (d[o1], d[o1], d[o1], 255u8),
            };
            let q3 = out.data@.subrange(y * out.stride + x * 3, y * out.stride + x * 3 + 3);
            let q4 = out.data@.subrange(y * out.stride + x * 4, y * out.stride + x * 4 + 4);
            &&& t == PixelFormat::Rgb8 ==> q3 == seq![c.0, c.1, c.2]
            &&& t == PixelFormat::Rgba8 ==> q4 == seq![c.0, c.1, c.2, c.3]
            &&& t == PixelFormat::Bgr8 ==> q3 == seq![c.2, c.1, c.0]
            &&& t == PixelFormat::Bgra8 ==> q4 == seq![c.2, c.1, c.0, c.3]
        }),
{
    let f = converted_pixel(src, t);
    assert forall|i: int, j: int| 0 <= i < src.dimensions.width && 0 <= j < src.dimensions.height
        implies (#[trigger] f(i, j)).len() == bpp(out.format) by {}
    lemma_image_buffer_pixels(out, f);
    assert(out.pixel(x, y) == f(x, y));
    src.lemma_pixel_in(x, y);
}

/// Merging takes each layout's own colour channels and the alpha byte: output pixel `(x, y)`
/// is red, green, blue of colour pixel `(x, y)` (bytes 0, 1, 2 of an RGB or RGBA pixel,
/// bytes 2, 1, 0 of a BGR or BGRA pixel), then byte 3 of a 4-byte alpha pixel or byte 0 of a
/// narrower one. `out` is what `merge_alpha_channel` returns for `rgb` and `alpha`.
pub proof fn lemma_merge_channels(rgb: PixelBuffer, alpha: PixelBuffer, out: PixelBuffer, x: int, y: int)
    requires
        rgb.readable(),
        alpha.readable(),
        rgb.format != PixelFormat::Gray8,
        rgb.dimensions == alpha.dimensions,
        out.wf(),
        out.format == PixelFormat::Rgba8,
        out.dimensions == rgb.dimensions,
        out.data@ == image(rgb.dimensions.width as nat, rgb.dimensions.height as nat, merged_pixel(rgb, alpha)),
        0 <= x < rgb.dimensions.width,
        0 <= y < rgb.dimensions.height,
    ensures
        ({
            let d = rgb.data@;
            let o = y * rgb.stride + x * (if rgb.format == PixelFormat::Rgba8 || rgb.format == PixelFormat::Bgra8 { 4int } else { 3int });
            let e = alpha.data@;
            let ao = y * alpha.stride;
            let a = match alpha.format {
                PixelFormat::Rgba8 | PixelFormat::Bgra8 => e[ao + x * 4 + 3],
                PixelFormat::Rgb8 | PixelFormat::Bgr8 => e[ao + x * 3],
                PixelFormat::Gray8 => e[ao + x],
            };
            let q = out.data@.subrange(y * out.stride + x * 4, y * out.stride + x * 4 + 4);
            &&& (rgb.format == PixelFormat::Rgb8 || rgb.format == PixelFormat::Rgba8) ==> q == seq![d[o], d[o + 1], d[o + 2], a]
            &&& (rgb.format == PixelFormat::Bgr8 || rgb.format == PixelFormat::Bgra8) ==> q == seq![d[o + 2], d[o + 1], d[o], a]
        }),
{
    let f = merged_pixel(rgb, alpha);
    assert forall|i: int, j: int| 0 <= i < rgb.dimensions.width && 0 <= j < rgb.dimensions.height
        implies (#[trigger] f(i, j)).len() == bpp(out.format) by {}
    lemma_image_buffer_pixels(out, f);
    assert(out.pixel(x, y) == f(x, y));
    rgb.lemma_pixel_in(x, y);
    alpha.lemma_pixel_in(x, y);
}

/// Blending an opaque channel keeps it.
proof fn lemma_opaque_blend(c: u8, a: u8, b: u8)
    ensures
        a == 255 ==> ((c * a + b * (255 - a) + 127) / 255) as u8 == c,
{
    if a == 255 {
        assert((c * a + b * (255 - a) + 127) / 255 == c) by (nonlinear_arith)
            requires
                a == 255,
                c < 256,
        ;
    }
}

/// Flattening does not depend on the channel layout: flattening a BGRA or RGB buffer gives
/// the same pixel as converting it to RGBA first and flattening that. `out` is what
/// `flatten_alpha` returns for `src` and `bg`, `rgba` what `convert_pixel_format` returns for
/// `src` and RGBA, and `out2` what `flatten_alpha` returns for `rgba` and `bg`.
pub proof fn lemma_flatten_after_convert(
    src: PixelBuffer,
    bg: [u8; 3],
    out: PixelBuffer,
    rgba: PixelBuffer,
    out2: PixelBuffer,
    x: int,
    y: int,
)
    requires
        src.readable(),
        src.format == PixelFormat::Bgra8 || src.format == PixelFormat::Rgb8,
        out.wf(),
        out.format == PixelFormat::Rgb8,
        out.dimensions == src.dimensions,
        out.data@ == image(src.dimensions.width as nat, src.dimensions.height as nat, flat_pixel(src, bg)),
        rgba.wf(),
        rgba.format == PixelFormat::Rgba8,
        rgba.dimensions == src.dimensions,
        rgba.data@ == image(src.dimensions.width as nat, src.dimensions.height as nat,
            converted_pixel(src, PixelFormat::Rgba8)),
        out2.wf(),
        out2.format == PixelFormat::Rgb8,
        out2.dimensions == src.dimensions,
        out2.data@ == image(src.dimensions.width as nat, src.dimensions.height as nat, flat_pixel(rgba, bg)),
        0 <= x < src.dimensions.width,
        0 <= y < src.dimensions.height,
    ensures
        out.pixel(x, y) == out2.pixel(x, y),
{
    lemma_flatten_channels(src, bg, out, x, y);
    lemma_convert_channels(src, PixelFormat::Rgba8, rgba, x, y);
    rgba.lemma_wf_readable();
    lemma_flatten_channels(rgba, bg, out2, x, y);
    assert(out.pixel(x, y) == out.data@.subrange(y * out.stride + x * 3, y * out.stride + x * 3 + 3));
    assert(out2.pixel(x, y) == out2.data@.subrange(y * out2.stride + x * 3, y * out2.stride + x * 3 + 3));
    let o4 = y * rgba.stride + x * 4;
    let e = rgba.data@;
    rgba.lemma_pixel_in(x, y);
    assert(rgba.offset(x, y) == o4);
    let q = e.subrange(o4, o4 + 4);
    assert(q[0] == e[o4] && q[1] == e[o4 + 1] && q[2] == e[o4 + 2] && q[3] == e[o4 + 3]);
    if src.format == PixelFormat::Rgb8 {
        lemma_opaque_blend(e[o4], e[o4 + 3], bg[0]);
        lemma_opaque_blend(e[o4 + 1], e[o4 + 3], bg[1]);
        lemma_opaque_blend(e[o4 + 2], e[o4 + 3], bg[2]);
    }
}

/// Appends the pixel at byte `i` of `src` in layout `target`.
fn push_converted(src: &PixelBuffer, i: usize, target: PixelFormat, out: &mut Vec<u8>)
    requires
        i + bpp(src.format) <= src.data@.len(),
        target != PixelFormat::Gray8,
    ensures
        final(out)@ == old(out)@ + encode_rgba(convert_rgba(*src, i as int), target),
{
    let _len = src.data.len();
    let d = src.data.as_slice();
    let (r, g, b, a): (u8, u8, u8, u8) = match src.format {
        PixelFormat::Rgb8 => (d[i], d[i + 1], d[i + 2], 255u8),
        PixelFormat::Rgba8 => (d[i], d[i + 1], d[i + 2], d[i + 3]),
        PixelFormat::Bgr8 => (d[i + 2], d[i + 1], d[i], 255u8),
        PixelFormat::Bgra8 => (d[i + 2], d[i + 1], d[i], d[i + 3]),
        PixelFormat::Gray8 => (d[i], d[i], d[i], 255u8),
    };
    let ghost before = out@;
    match target {
        PixelFormat::Rgb8 => {
            out.push(r);
            out.push(g);
            out.push(b);
        },
        PixelFormat::Rgba8 => {
            out.push(r);
            out.push(g);
            out.push(b);
            out.push(a);
        },
        PixelFormat::Bgr8 => {
            out.push(b);
            out.push(g);
            out.push(r);
        },
        _ => {
            out.push(b);
            out.push(g);
            out.push(r);
            out.push(a);
        },
    }
    assert(out@ =~= before + encode_rgba(convert_rgba(*src, i as int), target));
}

/// Converts a buffer to another pixel layout. The same layout gives a copy; another builds a
/// new buffer (checked against `limits`). Conversion to gray of a non-empty buffer is not
/// supported.
pub fn convert_pixel_format(src: &PixelBuffer, target: PixelFormat, limits: &Limits) -> (r: HeicResult<PixelBuffer>)
    requires
        src.readable(),
        src.format != target ==> (target != PixelFormat::Gray8 || src.dimensions.width * src.dimensions.height == 0),
        src.dimensions.width * bpp(target) <= usize::MAX,
        src.dimensions.width * bpp(target) * src.dimensions.height <= usize::MAX,
    ensures
        src.format == target ==> (r matches Ok(b) && b.dimensions == src.dimensions && b.format == src.format
            && b.stride == src.stride && b.data@ == src.data@),
        src.format != target ==> ({
            let d = src.dimensions;
            &&& r is Ok <==> (limits.allows_dimensions(d) && limits.allows_pixel_count(d.width * d.height)
                && limits.allows_memory_size(d.width * bpp(target) * d.height))
            &&& r matches Err(e) ==> e.kind() == ErrorKind::LimitExceeded
            &&& r matches Ok(b) ==> b.dimensions == d && b.format == target && b.wf()
                && b.data@ == image(d.width as nat, d.height as nat, converted_pixel(*src, target))
        }),
{
    if src.format == target {
        return Ok(PixelBuffer {
            dimensions: src.dimensions,
            format: src.format,
            data: vstd::slice::slice_to_vec(src.data.as_slice()),
            stride: src.stride,
        });
    }
    let dims = src.dimensions;
    let w = dims.width;
    let h = dims.height;
    let mut out_buf = PixelBuffer::new_with_limits(dims, target, limits)?;
    let ghost f = converted_pixel(*src, target);
    let mut out: Vec<u8> = Vec::new();
    let mut y: u32 = 0;
    while y < h
        invariant
            y <= h,
            src.readable(),
            dims == src.dimensions,
            w == dims.width,
            h == dims.height,
            target != PixelFormat::Gray8 || w * h == 0,
            f == converted_pixel(*src, target),
            out@ == image(w as nat, y as nat, f),
        decreases h - y,
    {
        let mut x: u32 = 0;
        while x < w
            invariant
                x <= w,
                y < h,
                src.readable(),
                dims == src.dimensions,
                w == dims.width,
                h == dims.height,
                target != PixelFormat::Gray8 || w * h == 0,
                f == converted_pixel(*src, target),
                out@ == image(w as nat, y as nat, f) + image_row(y as int, x as nat, f),
            decreases w - x,
        {
            proof {
                assert(w * h > 0) by (nonlinear_arith)
                    requires
                        x < w,
                        y < h,
                ;
            }
            let i = src.pixel_offset(x, y);
            push_converted(src, i, target, &mut out);
            assert(out@ =~= image(w as nat, y as nat, f) + image_row(y as int, (x + 1) as nat, f));
            x = x + 1;
        }
        assert(out@ =~= image(w as nat, (y + 1) as nat, f));
        y = y + 1;
    }
    proof {
        assert forall|x: int, y: int| 0 <= x < w && 0 <= y < h implies (#[trigger] f(x, y)).len() == bpp(target) by {}
        lemma_image_len(w as nat, h as nat, f, bpp(target) as nat);
    }
    out_buf.data = out;
    Ok(out_buf)
}

/// The image has `h * (w * b)` bytes when every pixel has `b`.
proof fn lemma_image_len(w: nat, h: nat, f: spec_fn(int, int) -> Seq<u8>, b: nat)
    requires
        forall|x: int, y: int| 0 <= x < w && 0 <= y < h ==> (#[trigger] f(x, y)).len() == b,
    ensures
        image(w, h, f).len() == w * b * h,
{
    pixels::lemma_image_pixel(w, h, f, b);
    assert(h * (w * b) == w * b * h) by (nonlinear_arith);
}

/// Converting to another layout that keeps any alpha, and back, gives the source again
/// (channels are moved, never altered); converting to the same layout copies. `mid` is
/// what `convert_pixel_format` gives for `src` and `t`, and `out` what it gives for `mid` and
/// the source layout.
pub proof fn lemma_convert_round_trip(src: PixelBuffer, mid: PixelBuffer, out: PixelBuffer, t: PixelFormat)
    requires
        src.wf(),
        mid.wf(),
        out.wf(),
        src.format != PixelFormat::Gray8,
        t != PixelFormat::Gray8,
        spec_has_alpha(src.format) ==> spec_has_alpha(t),
        mid.dimensions == src.dimensions,
        mid.format == t,
        src.format == t ==> mid.data@ == src.data@,
        src.format != t ==> mid.data@ == image(src.dimensions.width as nat, src.dimensions.height as nat,
            converted_pixel(src, t)),
        out.dimensions == src.dimensions,
        out.format == src.format,
        src.format == t ==> out.data@ == mid.data@,
        src.format != t ==> out.data@ == image(src.dimensions.width as nat, src.dimensions.height as nat,
            converted_pixel(mid, src.format)),
    ensures
        out.data@ == src.data@,
{
    if src.format != t {
        let w = src.dimensions.width as int;
        let h = src.dimensions.height as int;
        let b = bpp(src.format);
        let f1 = converted_pixel(src, t);
        let f2 = converted_pixel(mid, src.format);
        assert forall|x: int, y: int| 0 <= x < w && 0 <= y < h implies (#[trigger] f1(x, y)).len() == bpp(t) by {}
        assert forall|x: int, y: int| 0 <= x < w && 0 <= y < h implies (#[trigger] f2(x, y)).len() == b by {}
        lemma_image_buffer_pixels(mid, f1);
        lemma_image_buffer_pixels(out, f2);
        assert forall|x: int, y: int| 0 <= x < w && 0 <= y < h implies
            #[trigger] out.data@.subrange(y * (w * b) + x * b, y * (w * b) + x * b + b)
                == src.data@.subrange(y * (w * b) + x * b, y * (w * b) + x * b + b) by {
            src.lemma_pixel_in(x, y);
            mid.lemma_pixel_in(x, y);
            out.lemma_pixel_in(x, y);
            let mo = mid.offset(x, y);
            let so = src.offset(x, y);
            assert(mid.pixel(x, y) == f1(x, y));
            assert(out.pixel(x, y) == f2(x, y));
            let mp = mid.pixel(x, y);
            assert forall|k: int| 0 <= k < bpp(t) implies mid.data@[mo + k] == #[trigger] mp[k] by {}
            let sp = src.pixel(x, y);
            assert forall|k: int| 0 <= k < b implies src.data@[so + k] == #[trigger] sp[k] by {}
            assert(out.pixel(x, y) =~= src.pixel(x, y));
        }
        assert(src.data@.len() == h * (w * b)) by (nonlinear_arith)
            requires
                src.data@.len() == src.stride * h,
                src.stride == w * b,
        ;
        assert(out.data@.len() == h * (w * b)) by (nonlinear_arith)
            requires
                out.data@.len() == out.stride * h,
                out.stride == w * b,
        ;
        lemma_same_pixels_same_data(w, h, b, out.data@, src.data@);
    }
}

} // verus!
