//! Decoding of PNG files, as a specification.
//!
//! The decoder covers 8-bit truecolour images (colour types 2 and 6, no interlacing) made of
//! an `IHDR`, one `IDAT` whose zlib stream uses stored deflate blocks, and an `IEND`, with
//! every scanline unfiltered (filter type 0). On any other file it gives `None`; on the
//! files it accepts it gives what a PNG decoder gives.

use crate::encoder::png::chunks::{ihdr_type, spec_chunk, spec_ihdr_data};
use crate::encoder::png::deflate::{be32_bytes, inflate_zlib, lemma_zlib_round_trip, spec_crc32, spec_deflate_zlib};
use crate::encoder::png::{iend_type, idat_type, png_pixel, png_signature, scanlines, spec_png};
use crate::processing::pixels::{bpp, image, image_row, lemma_image_pixel, lemma_image_row, PixelBuffer};
use crate::types::{spec_has_alpha, PixelFormat};
use vstd::prelude::*;

verus! {

/// The big-endian value of four bytes.
pub open spec fn be32_value(b: Seq<u8>) -> int {
    16777216 * b[0] as int + 65536 * b[1] as int + 256 * b[2] as int + b[3] as int
}

/// The first chunk of `s`: its type, its data and the bytes after it, when its CRC matches.
pub open spec fn take_chunk(s: Seq<u8>) -> Option<(Seq<u8>, Seq<u8>, Seq<u8>)> {
    if s.len() < 12 {
        None
    } else {
        let len = be32_value(s.subrange(0, 4));
        if s.len() < 12 + len {
            None
        } else {
            let t = s.subrange(4, 8);
            let d = s.subrange(8, 8 + len);
            if s.subrange(8 + len, 12 + len) != be32_bytes(spec_crc32(t + d) as int) {
                None
            } else {
                Some((t, d, s.subrange(12 + len, s.len() as int)))
            }
        }
    }
}

/// The rows of `h` scanlines of `row_len` bytes each with filter type 0, without their
/// filter bytes.
pub open spec fn unfilter(raw: Seq<u8>, row_len: int, h: nat) -> Option<Seq<u8>>
    decreases h,
{
    if h == 0 {
        if raw.len() == 0 { Some(Seq::empty()) } else { None }
    } else {
        let start = (h - 1) * (row_len + 1);
        if row_len < 0 || start < 0 || raw.len() != start + row_len + 1 || raw[start] != 0 {
            None
        } else {
            match unfilter(raw.take(start), row_len, (h - 1) as nat) {
                Some(rows) => Some(rows + raw.skip(start + 1)),
                None => None,
            }
        }
    }
}

/// The image of an `IHDR` payload and the `IDAT` zlib stream.
pub open spec fn decode_parts(hd: Seq<u8>, z: Seq<u8>) -> Option<(int, int, int, Seq<u8>)> {
    if hd.len() != 13 || hd[8] != 8 || !(hd[9] == 2 || hd[9] == 6) || hd[10] != 0 || hd[11] != 0 || hd[12] != 0 {
        None
    } else {
        let w = be32_value(hd.subrange(0, 4));
        let h = be32_value(hd.subrange(4, 8));
        let ch: int = if hd[9] == 6 { 4 } else { 3 };
        match inflate_zlib(z) {
            None => None,
            Some(raw) => match unfilter(raw, w * ch, h as nat) {
                None => None,
                Some(samples) => Some((w, h, ch, samples)),
            },
        }
    }
}

/// Decodes a PNG file to its width, height, samples per pixel (3 or 4) and samples in
/// row-major order (red, green, blue and, for 4, alpha).
#[verifier::opaque]
pub open spec fn png_decode(p: Seq<u8>) -> Option<(int, int, int, Seq<u8>)> {
    if p.len() < 8 || p.take(8) != png_signature() {
        None
    } else {
        match take_chunk(p.skip(8)) {
            None => None,
            Some((t1, hd, r1)) => if t1 != ihdr_type() {
                None
            } else {
                match take_chunk(r1) {
                    None => None,
                    Some((t2, z, r2)) => if t2 != idat_type() {
                        None
                    } else {
                        match take_chunk(r2) {
                            None => None,
                            Some((t3, e, _r3)) => if t3 != iend_type() || e.len() != 0 {
                                None
                            } else {
                                decode_parts(hd, z)
                            },
                        }
                    },
                }
            },
        }
    }
}

/// Big-endian bytes read back.
proof fn lemma_be32_value(v: u32)
    ensures
        be32_bytes(v as int).len() == 4,
        be32_value(be32_bytes(v as int)) == v as int,
{
    assert(16777216 * (v / 16777216 % 256) + 65536 * (v / 65536 % 256) + 256 * (v / 256 % 256) + v % 256 == v)
        by (bit_vector);
}

/// A chunk reads back.
proof fn lemma_take_chunk(t: Seq<u8>, d: Seq<u8>, rest: Seq<u8>)
    requires
        t.len() == 4,
        d.len() <= u32::MAX,
    ensures
        take_chunk(spec_chunk(t, d) + rest) == Some((t, d, rest)),
{
    let len = d.len() as int;
    assert((d.len() as u32) as int == len);
    lemma_be32_value(d.len() as u32);
    lemma_be32_value(spec_crc32(t + d));
    let s = spec_chunk(t, d) + rest;
    assert(s.subrange(0, 4) =~= be32_bytes(len));
    assert(s.subrange(4, 8) =~= t);
    assert(s.subrange(8, 8 + len) =~= d);
    assert(s.subrange(8 + len, 12 + len) =~= be32_bytes(spec_crc32(t + d) as int));
    assert(s.subrange(12 + len, s.len() as int) =~= rest);
}

/// Unfiltered scanlines read back as the image.
proof fn lemma_unfilter_scanlines(w: nat, h: nat, f: spec_fn(int, int) -> Seq<u8>, ch: nat)
    requires
        forall|x: int, y: int| 0 <= x < w && 0 <= y < h ==> (#[trigger] f(x, y)).len() == ch,
    ensures
        scanlines(w, h, f).len() == h * (w * ch + 1),
        unfilter(scanlines(w, h, f), (w * ch) as int, h) == Some(image(w, h, f)),
    decreases h,
{
    if h > 0 {
        let h1 = (h - 1) as nat;
        lemma_unfilter_scanlines(w, h1, f, ch);
        assert forall|x: int| 0 <= x < w implies (#[trigger] f(x, h1 as int)).len() == ch by {}
        lemma_image_row(h1 as int, w, f, ch);
        let raw = scanlines(w, h, f);
        let prev = scanlines(w, h1, f);
        let rl: int = (w * ch) as int;
        let st: int = h1 * (rl + 1);
        assert(st + rl + 1 == h * (rl + 1)) by (nonlinear_arith)
            requires
                h1 + 1 == h,
                st == h1 * (rl + 1),
        ;
        assert(raw == prev + seq![0u8] + image_row(h1 as int, w, f));
        assert(raw.take(st) =~= prev);
        assert(raw[st] == 0);
        assert(raw.skip(st + 1) =~= image_row(h1 as int, w, f));
    } else {
        assert(h * (w * ch + 1) == 0) by (nonlinear_arith)
            requires
                h == 0,
        ;
    }
}

/// A file of the three chunks decodes as its header and zlib stream say.
#[verifier::spinoff_prover]
#[verifier::rlimit(40)]
proof fn lemma_png_chunks(hd: Seq<u8>, z: Seq<u8>)
    requires
        hd.len() == 13,
        z.len() <= u32::MAX,
    ensures
        png_decode(png_signature() + spec_chunk(ihdr_type(), hd) + spec_chunk(idat_type(), z)
            + spec_chunk(iend_type(), Seq::empty())) == decode_parts(hd, z),
{
    let c1 = spec_chunk(ihdr_type(), hd);
    let c2 = spec_chunk(idat_type(), z);
    let c3 = spec_chunk(iend_type(), Seq::empty());
    let p = png_signature() + c1 + c2 + c3;
    assert(p.take(8) =~= png_signature());
    assert(p.skip(8) =~= c1 + (c2 + (c3 + Seq::empty())));
    lemma_take_chunk(ihdr_type(), hd, c2 + (c3 + Seq::empty()));
    lemma_take_chunk(idat_type(), z, c3 + Seq::empty());
    lemma_take_chunk(iend_type(), Seq::empty(), Seq::empty());
    reveal(png_decode);
}

/// The header and zlib stream decode to what their fields and contents give.
proof fn lemma_decode_parts(hd: Seq<u8>, z: Seq<u8>, raw: Seq<u8>, w: u32, h: u32, alpha: bool, samples: Seq<u8>)
    requires
        hd.len() == 13,
        be32_value(hd.subrange(0, 4)) == w as int,
        be32_value(hd.subrange(4, 8)) == h as int,
        hd[8] == 8,
        hd[9] == (if alpha { 6u8 } else { 2u8 }),
        hd[10] == 0 && hd[11] == 0 && hd[12] == 0,
        inflate_zlib(z) == Some(raw),
        unfilter(raw, w as int * (if alpha { 4int } else { 3int }), h as nat) == Some(samples),
    ensures
        decode_parts(hd, z) == Some((w as int, h as int, if alpha { 4int } else { 3int }, samples)),
{
}

/// Round trip: the PNG file written for a well-formed, non-empty buffer decodes to its width,
/// height and pixels as RGB, or RGBA for layouts with alpha.
#[verifier::spinoff_prover]
#[verifier::rlimit(100)]
pub proof fn lemma_png_round_trip(buf: PixelBuffer)
    requires
        buf.wf(),
        buf.dimensions.width > 0,
        buf.dimensions.height > 0,
        spec_deflate_zlib(scanlines(buf.dimensions.width as nat, buf.dimensions.height as nat,
            png_pixel(buf, spec_has_alpha(buf.format)))).len() <= u32::MAX,
    ensures
        png_decode(spec_png(buf)) == Some((
            buf.dimensions.width as int,
            buf.dimensions.height as int,
            if spec_has_alpha(buf.format) { 4int } else { 3int },
            image(buf.dimensions.width as nat, buf.dimensions.height as nat, png_pixel(buf, spec_has_alpha(buf.format))),
        )),
{
    let alpha = spec_has_alpha(buf.format);
    let w = buf.dimensions.width;
    let h = buf.dimensions.height;
    let ct: u8 = if alpha { 6 } else { 2 };
    let ch: nat = if alpha { 4 } else { 3 };
    let f = png_pixel(buf, alpha);
    let hd = spec_ihdr_data(w, h, ct);
    let sl = scanlines(w as nat, h as nat, f);
    let z = spec_deflate_zlib(sl);
    lemma_be32_value(w);
    lemma_be32_value(h);
    assert(hd.len() == 13);
    assert(hd.subrange(0, 4) =~= be32_bytes(w as int));
    assert(hd.subrange(4, 8) =~= be32_bytes(h as int));
    assert(hd[8] == 8 && hd[9] == ct && hd[10] == 0 && hd[11] == 0 && hd[12] == 0);
    lemma_png_chunks(hd, z);
    lemma_zlib_round_trip(sl);
    assert forall|x: int, y: int| 0 <= x < w && 0 <= y < h implies (#[trigger] f(x, y)).len() == ch by {}
    lemma_unfilter_scanlines(w as nat, h as nat, f, ch);
    assert((w * ch) as int == w as int * (if alpha { 4int } else { 3int }));
    lemma_decode_parts(hd, z, sl, w, h, alpha, image(w as nat, h as nat, f));
}



/// The samples of pixel `(x, y)` in the pixel data written for `buf`, read by layout.
proof fn lemma_png_samples(buf: PixelBuffer, x: int, y: int)
    requires
        buf.wf(),
        0 <= x < buf.dimensions.width,
        0 <= y < buf.dimensions.height,
    ensures
        ({
            let alpha = spec_has_alpha(buf.format);
            let ch: int = if alpha { 4 } else { 3 };
            let w = buf.dimensions.width as int;
            let px = image(buf.dimensions.width as nat, buf.dimensions.height as nat, png_pixel(buf, alpha));
            let k = (y * w + x) * ch;
            let p = px.subrange(k, k + ch);
            let d = buf.data@;
            let o1 = y * buf.stride + x;
            let o3 = y * buf.stride + x * 3;
            let o4 = y * buf.stride + x * 4;
            &&& buf.format == PixelFormat::Rgba8 ==> ch == 4 && p == seq![d[o4], d[o4 + 1], d[o4 + 2], d[o4 + 3]]
            &&& buf.format == PixelFormat::Bgra8 ==> ch == 4 && p == seq![d[o4 + 2], d[o4 + 1], d[o4], d[o4 + 3]]
            &&& buf.format == PixelFormat::Rgb8 ==> ch == 3 && p == seq![d[o3], d[o3 + 1], d[o3 + 2]]
            &&& buf.format == PixelFormat::Bgr8 ==> ch == 3 && p == seq![d[o3 + 2], d[o3 + 1], d[o3]]
            &&& buf.format == PixelFormat::Gray8 ==> ch == 3 && p == seq![d[o1], d[o1], d[o1]]
        }),
{
    let alpha = spec_has_alpha(buf.format);
    let w = buf.dimensions.width as int;
    let h = buf.dimensions.height as int;
    let ch: int = if alpha { 4 } else { 3 };
    let f = png_pixel(buf, alpha);
    assert forall|i: int, j: int| 0 <= i < w && 0 <= j < h implies (#[trigger] f(i, j)).len() == ch by {}
    lemma_image_pixel(w as nat, h as nat, f, ch as nat);
    assert((y * w + x) * ch == y * (w * ch) + x * ch) by (nonlinear_arith);
    assert(image(w as nat, h as nat, f).subrange(y * (w * ch) + x * ch, y * (w * ch) + x * ch + ch) == f(x, y));
    buf.lemma_pixel_in(x, y);
}

/// Decoded channels: decoding the PNG file written for a well-formed, non-empty buffer gives,
/// at pixel `(x, y)`, that pixel's red, green and blue (and alpha for layouts with one) in
/// that order, as each layout stores them: RGB and RGBA hold red, green, blue (alpha) in
/// bytes 0 to 3; BGR and BGRA hold blue, green, red (alpha); gray is one byte for all three.
#[verifier::spinoff_prover]
pub proof fn lemma_png_pixel_channels(buf: PixelBuffer, x: int, y: int)
    requires
        buf.wf(),
        buf.dimensions.width > 0,
        buf.dimensions.height > 0,
        spec_deflate_zlib(scanlines(buf.dimensions.width as nat, buf.dimensions.height as nat,
            png_pixel(buf, spec_has_alpha(buf.format)))).len() <= u32::MAX,
        0 <= x < buf.dimensions.width,
        0 <= y < buf.dimensions.height,
    ensures
        png_decode(spec_png(buf)) matches Some((dw, dh, ch, px)) && {
            let d = buf.data@;
            let w = buf.dimensions.width as int;
            let k = (y * w + x) * ch;
            let p = px.subrange(k, k + ch);
            let o1 = y * buf.stride + x;
            let o3 = y * buf.stride + x * 3;
            let o4 = y * buf.stride + x * 4;
            &&& dw == w && dh == buf.dimensions.height
            &&& buf.format == PixelFormat::Rgba8 ==> ch == 4 && p == seq![d[o4], d[o4 + 1], d[o4 + 2], d[o4 + 3]]
            &&& buf.format == PixelFormat::Bgra8 ==> ch == 4 && p == seq![d[o4 + 2], d[o4 + 1], d[o4], d[o4 + 3]]
            &&& buf.format == PixelFormat::Rgb8 ==> ch == 3 && p == seq![d[o3], d[o3 + 1], d[o3 + 2]]
            &&& buf.format == PixelFormat::Bgr8 ==> ch == 3 && p == seq![d[o3 + 2], d[o3 + 1], d[o3]]
            &&& buf.format == PixelFormat::Gray8 ==> ch == 3 && p == seq![d[o1], d[o1], d[o1]]
        },
{
    lemma_png_round_trip(buf);
    lemma_png_samples(buf, x, y);
}

} // verus!
