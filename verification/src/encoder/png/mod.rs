//! PNG encoding (ISO/IEC 15948) with a zlib stream of stored deflate blocks.

pub mod chunks;
pub mod decode;
pub mod deflate;

use crate::error::{ErrorKind, HeicError, HeicResult};
use crate::processing::color::convert_rgba;
use crate::processing::pixels::{image_row, PixelBuffer};
use crate::types::spec_has_alpha;
use chunks::{ihdr_type, spec_chunk, spec_ihdr_data, write_chunk, write_ihdr};
use deflate::{deflate_zlib, spec_deflate_zlib};
use vstd::prelude::*;

verus! {

/// Encoding options for PNG.
#[derive(Debug, Clone, Copy, PartialEq, Eq)]
pub struct PngOptions {
    /// Compression level from 0 to 9.
    pub compression_level: u8,
}

impl Default for PngOptions {
    fn default() -> (o: Self)
        ensures
            o.compression_level == 0,
    {
        PngOptions { compression_level: 0 }
    }
}

/// PNG image encoder.
#[derive(Debug, Clone, Copy)]
pub struct PngEncoder;

impl PngEncoder {
    /// Creates a PNG encoder.
    pub fn new() -> (e: Self) {
        PngEncoder
    }
}

/// The PNG signature.
pub open spec fn png_signature() -> Seq<u8> {
    seq![0x89u8, 0x50u8, 0x4Eu8, 0x47u8, 0x0Du8, 0x0Au8, 0x1Au8, 0x0Au8]
}

/// The `IDAT` chunk type.
pub open spec fn idat_type() -> Seq<u8> {
    seq![73u8, 68u8, 65u8, 84u8]
}

/// The `IEND` chunk type.
pub open spec fn iend_type() -> Seq<u8> {
    seq![73u8, 69u8, 78u8, 68u8]
}

/// Pixel `(x, y)` of `buf` as PNG samples: RGB, or RGBA when `alpha`.
pub open spec fn png_pixel(buf: PixelBuffer, alpha: bool) -> spec_fn(int, int) -> Seq<u8> {
    |x: int, y: int| {
        let c = convert_rgba(buf, buf.offset(x, y));
        if alpha { seq![c.0, c.1, c.2, c.3] } else { seq![c.0, c.1, c.2] }
    }
}

/// The first `h` scanlines of width `w`, each a filter byte 0 followed by its pixels.
pub open spec fn scanlines(w: nat, h: nat, f: spec_fn(int, int) -> Seq<u8>) -> Seq<u8>
    decreases h,
{
    if h == 0 {
        Seq::empty()
    } else {
        scanlines(w, (h - 1) as nat, f) + seq![0u8] + image_row(h - 1, w, f)
    }
}

/// The PNG file of a non-empty buffer: signature, `IHDR` (colour type 6 with alpha, else 2),
/// one `IDAT` with the zlib stream of the unfiltered scanlines, and `IEND`.
pub open spec fn spec_png(buf: PixelBuffer) -> Seq<u8> {
    let alpha = spec_has_alpha(buf.format);
    let w = buf.dimensions.width;
    let h = buf.dimensions.height;
    png_signature()
        + spec_chunk(ihdr_type(), spec_ihdr_data(w, h, if alpha { 6u8 } else { 2u8 }))
        + spec_chunk(idat_type(), spec_deflate_zlib(scanlines(w as nat, h as nat, png_pixel(buf, alpha))))
        + spec_chunk(iend_type(), Seq::empty())
}

/// Appends the samples of pixel `(x, y)`.
fn push_png_pixel(buf: &PixelBuffer, x: u32, y: u32, alpha: bool, out: &mut Vec<u8>)
    requires
        buf.readable(),
        x < buf.dimensions.width,
        y < buf.dimensions.height,
    ensures
        final(out)@ == old(out)@ + png_pixel(*buf, alpha)(x as int, y as int),
{
    let i = buf.pixel_offset(x, y);
    let _len = buf.data.len();
    let d = buf.data.as_slice();
    let (r, g, b, a): (u8, u8, u8, u8) = match buf.format {
        crate::types::PixelFormat::Rgb8 => (d[i], d[i + 1], d[i + 2], 255u8),
        crate::types::PixelFormat::Rgba8 => (d[i], d[i + 1], d[i + 2], d[i + 3]),
        crate::types::PixelFormat::Bgr8 => (d[i + 2], d[i + 1], d[i], 255u8),
        crate::types::PixelFormat::Bgra8 => (d[i + 2], d[i + 1], d[i], d[i + 3]),
        crate::types::PixelFormat::Gray8 => (d[i], d[i], d[i], 255u8),
    };
    let ghost before = out@;
    out.push(r);
    out.push(g);
    out.push(b);
    if alpha {
        out.push(a);
    }
    assert(out@ =~= before + png_pixel(*buf, alpha)(x as int, y as int));
}

/// Encodes a readable, non-empty buffer as a PNG file.
pub fn encode_png(buffer: &PixelBuffer, _options: &PngOptions) -> (r: HeicResult<Vec<u8>>)
    requires
        buffer.readable(),
    ensures
        buffer.dimensions.width == 0 || buffer.dimensions.height == 0 ==> (r matches Err(e)
            && e.kind() == ErrorKind::InvalidInput),
        buffer.dimensions.width > 0 && buffer.dimensions.height > 0 ==> (r matches Ok(v)
            && v@ == spec_png(*buffer)),
{
    let width = buffer.dimensions.width;
    let height = buffer.dimensions.height;
    if width == 0 || height == 0 {
        return Err(HeicError::invalid_input("Image dimensions cannot be zero"));
    }
    let has_alpha = buffer.format.has_alpha();
    let color_type: u8 = if has_alpha { 6 } else { 2 };
    let mut out: Vec<u8> = Vec::new();
    out.push(0x89);
    out.push(0x50);
    out.push(0x4E);
    out.push(0x47);
    out.push(0x0D);
    out.push(0x0A);
    out.push(0x1A);
    out.push(0x0A);
    write_ihdr(&mut out, width, height, color_type);
    let ghost f = png_pixel(*buffer, has_alpha);
    let mut raw: Vec<u8> = Vec::new();
    let mut y: u32 = 0;
    while y < height
        invariant
            y <= height,
            buffer.readable(),
            width == buffer.dimensions.width,
            height == buffer.dimensions.height,
            f == png_pixel(*buffer, has_alpha),
            raw@ == scanlines(width as nat, y as nat, f),
        decreases height - y,
    {
        raw.push(0);
        let mut x: u32 = 0;
        while x < width
            invariant
                x <= width,
                y < height,
                buffer.readable(),
                width == buffer.dimensions.width,
                height == buffer.dimensions.height,
                f == png_pixel(*buffer, has_alpha),
                raw@ == scanlines(width as nat, y as nat, f) + seq![0u8] + image_row(y as int, x as nat, f),
            decreases width - x,
        {
            push_png_pixel(buffer, x, y, has_alpha, &mut raw);
            assert(raw@ =~= scanlines(width as nat, y as nat, f) + seq![0u8] + image_row(y as int, (x + 1) as nat, f));
            x = x + 1;
        }
        assert(raw@ =~= scanlines(width as nat, (y + 1) as nat, f));
        y = y + 1;
    }
    let compressed = deflate_zlib(raw.as_slice());
    let idat: [u8; 4] = [73, 68, 65, 84];
    let iend: [u8; 4] = [73, 69, 78, 68];
    assert(idat@ =~= idat_type());
    assert(iend@ =~= iend_type());
    write_chunk(&mut out, &idat, compressed.as_slice());
    let empty: [u8; 0] = [];
    assert(empty@ =~= Seq::<u8>::empty());
    write_chunk(&mut out, &iend, empty.as_slice());
    assert(out@ =~= spec_png(*buffer));
    Ok(out)
}

} // verus!
