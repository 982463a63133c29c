//! Lossless WebP (VP8L) encoding.

pub mod bitwriter;
pub mod decode;
pub mod riff;

use crate::bits::{bytes_lsb_bits, lemma_msb_len, lsb_bits, lsb_bytes, msb_bits};
use crate::error::{ErrorKind, HeicError, HeicResult};
use crate::processing::color::convert_rgba;
use crate::processing::pixels::{bpp, PixelBuffer};
use crate::types::{spec_has_alpha, PixelFormat};
use bitwriter::Vp8lBitWriter;
use decode::{
    byte_code_bits, codes_bits, byte_code_stored, lemma_pixels_bits_push, pixels_bits, triple_bits, vp8l_decode,
    vp8l_stream, webp_decode,
};
use riff::{spec_riff_webp, wrap_riff_webp};
use vstd::arithmetic::power2::{lemma2_to64, pow2};
use vstd::prelude::*;

verus! {

/// Encoding options for WebP.
#[derive(Debug, Clone, Copy, PartialEq, Eq)]
pub struct WebpOptions {
    /// Quality in percent (0 to 100), for lossy encoding.
    pub quality: u8,
    /// Whether to use lossless compression.
    pub lossless: bool,
}

impl Default for WebpOptions {
    fn default() -> (o: Self)
        ensures
            o.quality == 80,
            o.lossless,
    {
        WebpOptions { quality: 80, lossless: true }
    }
}

/// WebP image encoder.
#[derive(Debug, Clone, Copy)]
pub struct WebpEncoder;

impl WebpEncoder {
    /// Creates a WebP encoder.
    pub fn new() -> (e: Self) {
        WebpEncoder
    }
}

/// The pixels of a buffer as `(red, green, blue, alpha)` in row-major order (alpha 255 for
/// layouts without alpha, gray replicated).
pub open spec fn rgba_pixels(buf: PixelBuffer) -> Seq<(u8, u8, u8, u8)> {
    let w = buf.dimensions.width as int;
    Seq::new((w * buf.dimensions.height) as nat, |i: int| convert_rgba(buf, buf.offset(i % w, i / w)))
}

/// The bytes of the VP8L bitstream for `w` by `h` pixels `ps` ([`vp8l_stream`]), padded
/// with zero bits to a whole byte and packed least significant bit first.
pub open spec fn vp8l_bytes(w: int, h: int, alpha: bool, ps: Seq<(u8, u8, u8, u8)>) -> Seq<u8> {
    let s = vp8l_stream(w, h, alpha, ps);
    lsb_bytes(s + lsb_bits(0, ((8 - s.len() % 8) % 8) as nat))
}

/// Bytes whose bits are a stream followed by the zero bits that complete its last byte are
/// [`lsb_bytes`] of the padded stream.
proof fn lemma_vp8l_data(data: Seq<u8>, stream: Seq<bool>, pending: nat)
    requires
        stream.len() - 8 * (stream.len() as int / 8) == pending,
        bytes_lsb_bits(data) == stream + lsb_bits(0, if pending == 0 { 0 } else { (8 - pending) as nat }),
    ensures
        data == lsb_bytes(stream + lsb_bits(0, ((8 - stream.len() % 8) % 8) as nat)),
{
    assert(((8 - stream.len() % 8) % 8) as nat == if pending == 0 { 0 } else { (8 - pending) as nat });
    bitwriter::lemma_lsb_bytes_of_bits(data);
}

/// The pixels a WebP file is written with are each layout's own channels: entry
/// `y * width + x` is the red, green, blue and alpha of pixel `(x, y)`, where RGB and RGBA
/// store red, green, blue (alpha) in bytes 0 to 3, BGR and BGRA store blue, green, red
/// (alpha), gray is one byte for all three colours, and layouts without alpha are opaque.
pub proof fn lemma_webp_pixel_channels(buf: PixelBuffer, x: int, y: int)
    requires
        0 <= x < buf.dimensions.width,
        0 <= y < buf.dimensions.height,
    ensures
        ({
            let d = buf.data@;
            let o1 = y * buf.stride + x;
            let o3 = y * buf.stride + x * 3;
            let o4 = y * buf.stride + x * 4;
            let p = rgba_pixels(buf)[y * buf.dimensions.width + x];
            &&& buf.format == PixelFormat::Rgb8 ==> p == (d[o3], d[o3 + 1], d[o3 + 2], 255u8)
            &&& buf.format == PixelFormat::Rgba8 ==> p == (d[o4], d[o4 + 1], d[o4 + 2], d[o4 + 3])
            &&& buf.format == PixelFormat::Bgr8 ==> p == (d[o3 + 2], d[o3 + 1], d[o3], 255u8)
            &&& buf.format == PixelFormat::Bgra8 ==> p == (d[o4 + 2], d[o4 + 1], d[o4], d[o4 + 3])
            &&& buf.format == PixelFormat::Gray8 ==> p == (d[o1], d[o1], d[o1], 255u8)
        }),
{
    let w = buf.dimensions.width as int;
    let h = buf.dimensions.height as int;
    let i = y * w + x;
    assert(0 <= i < w * h) by (nonlinear_arith)
        requires
            i == y * w + x,
            0 <= x < w,
            0 <= y < h,
    ;
    vstd::arithmetic::div_mod::lemma_fundamental_div_mod_converse(i, w, y, x);
    assert(rgba_pixels(buf)[i] == convert_rgba(buf, buf.offset(x, y)));
    assert(buf.format == PixelFormat::Gray8 ==> bpp(buf.format) == 1);
    assert(buf.format == PixelFormat::Gray8 ==> buf.offset(x, y) == y * buf.stride + x);
}

/// Reads the channels of the pixel at byte `i`.
fn read_rgba(buf: &PixelBuffer, i: usize) -> (c: (u8, u8, u8, u8))
    requires
        i + bpp(buf.format) <= buf.data@.len(),
    ensures
        c == convert_rgba(*buf, i as int),
{
    let d = buf.data.as_slice();
    match buf.format {
        PixelFormat::Rgb8 => (d[i], d[i + 1], d[i + 2], 255u8),
        PixelFormat::Rgba8 => (d[i], d[i + 1], d[i + 2], d[i + 3]),
        PixelFormat::Bgr8 => (d[i + 2], d[i + 1], d[i], 255u8),
        PixelFormat::Bgra8 => (d[i + 2], d[i + 1], d[i], d[i + 3]),
        PixelFormat::Gray8 => (d[i], d[i], d[i], 255u8),
    }
}

/// Writes one bit.
fn write_bit(w: &mut Vp8lBitWriter, b: bool)
    requires
        old(w).wf(),
    ensures
        final(w).wf(),
        final(w).stream() == old(w).stream().push(b),
{
    proof {
        lemma2_to64();
        reveal_with_fuel(lsb_bits, 2);
    }
    w.write_bits(if b { 1 } else { 0 }, 1);
    assert(w.stream() =~= old(w).stream().push(b));
}

/// Writes the 8-bit code of a byte value, most significant bit first.
fn write_byte_symbol(w: &mut Vp8lBitWriter, v: u8)
    requires
        old(w).wf(),
    ensures
        final(w).wf(),
        final(w).stream() == old(w).stream() + msb_bits(v as int, 8),
{
    let ghost s0 = w.stream();
    let ghost x = v as int;
    let bits: [bool; 8] = [(v / 128) % 2 == 1, (v / 64) % 2 == 1, (v / 32) % 2 == 1, (v / 16) % 2 == 1,
        (v / 8) % 2 == 1, (v / 4) % 2 == 1, (v / 2) % 2 == 1, v % 2 == 1];
    let ghost expected = seq![x / 128 % 2 == 1, x / 64 % 2 == 1, x / 32 % 2 == 1, x / 16 % 2 == 1,
        x / 8 % 2 == 1, x / 4 % 2 == 1, x / 2 % 2 == 1, x % 2 == 1];
    assert(bits@ =~= expected);
    let mut k: usize = 0;
    while k < 8
        invariant
            k <= 8,
            w.wf(),
            bits@ == expected,
            w.stream() == s0 + expected.take(k as int),
        decreases 8 - k,
    {
        write_bit(w, bits[k]);
        assert(expected.take(k + 1) =~= expected.take(k as int).push(expected[k as int]));
        k = k + 1;
    }
    proof {
        decode::lemma_msb8(x);
    }
    assert(expected.take(8) =~= expected);
}

/// Writes the prefix code that gives 8-bit codes to symbols 0 to 255 of an alphabet of
/// `size` symbols.
fn write_byte_code(w: &mut Vp8lBitWriter, size: u32)
    requires
        old(w).wf(),
        256 <= size,
    ensures
        final(w).wf(),
        final(w).stream() == old(w).stream() + byte_code_bits(size as nat),
{
    proof {
        lemma2_to64();
    }
    w.write_bits(0, 1);
    w.write_bits(8, 4);
    let ghost after_count = w.stream();
    let stored: [u32; 12] = [0, 0, 1, 0, 0, 0, 0, 0, 0, 0, 0, 1];
    let mut k: usize = 0;
    while k < 12
        invariant
            k <= 12,
            w.wf(),
            stored@ == seq![0u32, 0, 1, 0, 0, 0, 0, 0, 0, 0, 0, 1],
            w.stream() == after_count + triple_bits(byte_code_stored().take(k as int)),
        decreases 12 - k,
    {
        proof {
            lemma2_to64();
            assert(stored@[k as int] as int == byte_code_stored()[k as int]);
            lemma_triple_bits_push(byte_code_stored().take(k as int), byte_code_stored()[k as int]);
            assert(byte_code_stored().take(k + 1) =~= byte_code_stored().take(k as int).push(byte_code_stored()[k as int]));
        }
        w.write_bits(stored[k], 3);
        k = k + 1;
    }
    assert(byte_code_stored().take(12) =~= byte_code_stored());
    w.write_bits(0, 1);
    let ghost before_lengths = w.stream();
    let mut i: u32 = 0;
    while i < size
        invariant
            i <= size,
            w.wf(),
            w.stream() == before_lengths + Seq::new(i as nat, |j: int| j < 256),
        decreases size - i,
    {
        write_bit(w, i < 256);
        assert(w.stream() =~= before_lengths + Seq::new((i + 1) as nat, |j: int| j < 256));
        i = i + 1;
    }
    assert(w.stream() =~= old(w).stream() + byte_code_bits(size as nat));
}

/// Appending a value appends its three bits.
proof fn lemma_triple_bits_push(vals: Seq<int>, v: int)
    ensures
        triple_bits(vals.push(v)) == triple_bits(vals) + lsb_bits(v, 3),
    decreases vals.len(),
{
    if vals.len() == 0 {
        let q = vals.push(v);
        assert(q.drop_first() =~= Seq::<int>::empty());
        assert(triple_bits(q.drop_first()) == Seq::<bool>::empty());
        assert(triple_bits(vals) == Seq::<bool>::empty());
        assert(triple_bits(q) =~= triple_bits(vals) + lsb_bits(v, 3));
    } else {
        lemma_triple_bits_push(vals.drop_first(), v);
        assert(vals.push(v).drop_first() =~= vals.drop_first().push(v));
        assert(triple_bits(vals.push(v)) =~= triple_bits(vals) + lsb_bits(v, 3));
    }
}

/// The length of what the encoder writes: 1263 bits of header and codes, then 32 bits per
/// pixel.
proof fn lemma_stream_len(w: int, h: int, alpha: bool, ps: Seq<(u8, u8, u8, u8)>)
    ensures
        vp8l_stream(w, h, alpha, ps).len() == 1263 + 32 * ps.len(),
{
    bitwriter::lemma_lsb_len(0x2F, 8);
    bitwriter::lemma_lsb_len(w - 1, 14);
    bitwriter::lemma_lsb_len(h - 1, 14);
    bitwriter::lemma_lsb_len(if alpha { 1 } else { 0 }, 1);
    bitwriter::lemma_lsb_len(0, 3);
    bitwriter::lemma_lsb_len(0, 1);
    bitwriter::lemma_lsb_len(1, 1);
    bitwriter::lemma_lsb_len(8, 4);
    lemma_triple_bits_len(byte_code_stored());
    lemma_pixels_bits_len(ps);
}

/// Three bits per value.
proof fn lemma_triple_bits_len(vals: Seq<int>)
    ensures
        triple_bits(vals).len() == 3 * vals.len(),
    decreases vals.len(),
{
    if vals.len() > 0 {
        lemma_triple_bits_len(vals.drop_first());
        bitwriter::lemma_lsb_len(vals[0], 3);
    }
}

/// Thirty-two bits per pixel.
proof fn lemma_pixels_bits_len(ps: Seq<(u8, u8, u8, u8)>)
    ensures
        pixels_bits(ps).len() == 32 * ps.len(),
    decreases ps.len(),
{
    if ps.len() > 0 {
        lemma_pixels_bits_len(ps.drop_first());
        lemma_msb_len(ps[0].0 as int, 8);
        lemma_msb_len(ps[0].1 as int, 8);
        lemma_msb_len(ps[0].2 as int, 8);
        lemma_msb_len(ps[0].3 as int, 8);
    }
}

/// The little-endian bytes of a 32-bit value add up to it.
proof fn lemma_le32_value(v: u32)
    ensures
        (v % 256) as int + 256 * (v / 256 % 256) as int + 65536 * (v / 65536 % 256) as int
            + 16777216 * (v / 16777216 % 256) as int == v as int,
{
    assert((v % 256) + 256 * (v / 256 % 256) + 65536 * (v / 65536 % 256) + 16777216 * (v / 16777216 % 256) == v)
        by (bit_vector);
}

/// A WebP file holding one `VP8L` chunk decodes as that chunk's bits.
proof fn lemma_webp_payload(payload: Seq<u8>)
    requires
        payload.len() + 12 + payload.len() % 2 <= u32::MAX,
    ensures
        webp_decode(spec_riff_webp(payload)) == vp8l_decode(bytes_lsb_bits(payload)),
{
    let f = spec_riff_webp(payload);
    riff::lemma_riff_framing(payload);
    let v = payload.len() as u32;
    lemma_le32_value(v);
    let b = f.subrange(16, 20);
    assert(b == riff::le32_bytes(v as int));
    assert(f[16] == b[0] && f[17] == b[1] && f[18] == b[2] && f[19] == b[3]);
    assert(decode::le32_at(f, 16) == v);
    let size = (f.len() - 8) as u32;
    lemma_le32_value(size);
    let c = f.subrange(4, 8);
    assert(c == riff::le32_bytes(size as int));
    assert(f[4] == c[0] && f[5] == c[1] && f[6] == c[2] && f[7] == c[3]);
    assert(decode::le32_at(f, 4) == f.len() - 8);
}

/// The header bits of a VP8L image: signature, size, alpha hint, version 0, and no
/// transform, colour cache or meta prefix codes.
pub open spec fn header_bits(w: int, h: int, alpha: bool) -> Seq<bool> {
    lsb_bits(0x2F, 8) + lsb_bits(w - 1, 14) + lsb_bits(h - 1, 14) + lsb_bits(if alpha { 1 } else { 0 }, 1)
        + lsb_bits(0, 3) + lsb_bits(0, 3)
}

/// Writes the header.
fn write_header(writer: &mut Vp8lBitWriter, width: u32, height: u32, has_alpha: bool)
    requires
        old(writer).wf(),
        1 <= width <= 16384,
        1 <= height <= 16384,
    ensures
        final(writer).wf(),
        final(writer).stream() == old(writer).stream() + header_bits(width as int, height as int, has_alpha),
{
    proof {
        lemma2_to64();
        vstd::arithmetic::power2::lemma_pow2_strictly_increases(8, 14);
    }
    writer.write_bits(0x2F, 8);
    writer.write_bits(width - 1, 14);
    writer.write_bits(height - 1, 14);
    writer.write_bits(if has_alpha { 1 } else { 0 }, 1);
    writer.write_bits(0, 3);
    // Transform, colour cache and meta prefix code flags: none of them.
    writer.write_bits(0, 3);
    assert(writer.stream() =~= old(writer).stream() + header_bits(width as int, height as int, has_alpha));
}

/// Writes the simple prefix code with the single symbol 0.
fn write_zero_code(writer: &mut Vp8lBitWriter)
    requires
        old(writer).wf(),
    ensures
        final(writer).wf(),
        final(writer).stream() == old(writer).stream() + decode::zero_code_bits(),
{
    proof {
        lemma2_to64();
    }
    writer.write_bits(1, 1);
    writer.write_bits(0, 1);
    writer.write_bits(0, 1);
    writer.write_bits(0, 1);
    assert(writer.stream() =~= old(writer).stream() + decode::zero_code_bits());
}

/// Writes the header and the five prefix codes.
fn write_header_and_codes(writer: &mut Vp8lBitWriter, width: u32, height: u32, has_alpha: bool)
    requires
        old(writer).wf(),
        1 <= width <= 16384,
        1 <= height <= 16384,
    ensures
        final(writer).wf(),
        final(writer).stream() == old(writer).stream() + header_bits(width as int, height as int, has_alpha)
            + codes_bits(),
{
    write_header(writer, width, height, has_alpha);
    let ghost after_header = writer.stream();
    write_byte_code(writer, 280);
    write_byte_code(writer, 256);
    write_byte_code(writer, 256);
    write_byte_code(writer, 256);
    write_zero_code(writer);
    assert(writer.stream() =~= after_header + codes_bits());
}

/// Writes the codes of every pixel of a readable buffer, row by row.
fn write_pixels(writer: &mut Vp8lBitWriter, buffer: &PixelBuffer)
    requires
        old(writer).wf(),
        buffer.readable(),
    ensures
        final(writer).wf(),
        final(writer).stream() == old(writer).stream() + pixels_bits(rgba_pixels(*buffer)),
{
    let width = buffer.dimensions.width;
    let height = buffer.dimensions.height;
    let ghost pixels = rgba_pixels(*buffer);
    let ghost head = writer.stream();
    assert(pixels.take(0) =~= Seq::<(u8, u8, u8, u8)>::empty());
    assert(pixels_bits(pixels.take(0)) == Seq::<bool>::empty());
    assert(writer.stream() =~= head + pixels_bits(pixels.take(0)));
    let mut y: u32 = 0;
    while y < height
        invariant
            y <= height,
            buffer.readable(),
            writer.wf(),
            width == buffer.dimensions.width,
            height == buffer.dimensions.height,
            pixels == rgba_pixels(*buffer),
            writer.stream() == head + pixels_bits(pixels.take(y * width)),
        decreases height - y,
    {
        let mut x: u32 = 0;
        while x < width
            invariant
                x <= width,
                y < height,
                buffer.readable(),
                writer.wf(),
                width == buffer.dimensions.width,
                height == buffer.dimensions.height,
                pixels == rgba_pixels(*buffer),
                writer.stream() == head + pixels_bits(pixels.take(y * width + x)),
            decreases width - x,
        {
            let off = buffer.pixel_offset(x, y);
            let c = read_rgba(buffer, off);
            let ghost k = y * width + x;
            proof {
                assert(0 <= k < width * height) by (nonlinear_arith)
                    requires
                        k == y * width + x,
                        x < width,
                        y < height,
                ;
                vstd::arithmetic::div_mod::lemma_fundamental_div_mod_converse(k, width as int, y as int, x as int);
                assert(pixels[k] == c);
                assert(pixels.take(k + 1) =~= pixels.take(k).push(c));
                lemma_pixels_bits_push(pixels.take(k), c);
            }
            let ghost before = writer.stream();
            write_byte_symbol(writer, c.1);
            write_byte_symbol(writer, c.0);
            write_byte_symbol(writer, c.2);
            write_byte_symbol(writer, c.3);
            assert(writer.stream() =~= before + decode::pixel_bits(c));
            assert(writer.stream() =~= head + pixels_bits(pixels.take(y * width + x + 1)));
            x = x + 1;
        }
        assert(y * width + width == (y + 1) * width) by (nonlinear_arith);
        y = y + 1;
    }
    assert(height * width == pixels.len()) by (nonlinear_arith)
        requires
            pixels.len() == width * height,
    ;
    assert(pixels.take(height * width) =~= pixels);
}

/// Encodes a readable buffer of at most 16384 by 16384 pixels as a lossless WebP file:
/// a RIFF container ([`spec_riff_webp`]: size field, `WEBP`, one `VP8L` chunk) holding the
/// VP8L bitstream [`vp8l_bytes`], which [`webp_decode`] decodes to the buffer's width,
/// height and pixels.
pub fn encode_webp(buffer: &PixelBuffer, _options: &WebpOptions) -> (r: HeicResult<Vec<u8>>)
    requires
        buffer.readable(),
    ensures
        ({
            let w = buffer.dimensions.width;
            let h = buffer.dimensions.height;
            if w == 0 || h == 0 {
                r matches Err(e) && e.kind() == ErrorKind::InvalidInput
            } else if w > 16384 || h > 16384 {
                r matches Err(e) && e.kind() == ErrorKind::LimitExceeded
            } else {
                &&& r matches Ok(v)
                &&& v@ == spec_riff_webp(vp8l_bytes(w as int, h as int, spec_has_alpha(buffer.format), rgba_pixels(*buffer)))
                &&& webp_decode(v@) == Some((w as int, h as int, rgba_pixels(*buffer)))
            }
        }),
{
    let width = buffer.dimensions.width;
    let height = buffer.dimensions.height;
    if width == 0 || height == 0 {
        return Err(HeicError::invalid_input("Image dimensions cannot be zero"));
    }
    if width > 16384 || height > 16384 {
        return Err(HeicError::limit_exceeded("WebP image dimensions exceed 16384x16384 maximum"));
    }
    let has_alpha = buffer.format.has_alpha();
    let mut writer = Vp8lBitWriter::new();
    write_header_and_codes(&mut writer, width, height, has_alpha);
    write_pixels(&mut writer, buffer);
    let ghost pixels = rgba_pixels(*buffer);
    let ghost stream = writer.stream();
    assert(stream =~= vp8l_stream(width as int, height as int, has_alpha, pixels));
    proof {
        writer.lemma_stream_len();
        lemma_stream_len(width as int, height as int, has_alpha, pixels);
        assert(pixels.len() <= 16384 * 16384) by (nonlinear_arith)
            requires
                pixels.len() == width * height,
                width <= 16384,
                height <= 16384,
        ;
    }
    let ghost pending = writer.pending_len();
    proof {
        bitwriter::lemma_vp8l_packing(writer);
    }
    writer.flush();
    let ghost pad = lsb_bits(0, if pending == 0 { 0 } else { (8 - pending) as nat });
    proof {
        bitwriter::lemma_bytes_len(writer.buffer@);
        bitwriter::lemma_lsb_len(0, if pending == 0 { 0 } else { (8 - pending) as nat });
    }
    proof {
        lemma_vp8l_data(writer.buffer@, stream, pending);
    }
    let vp8l_data = writer.buffer;
    proof {
        decode::lemma_vp8l_round_trip(width as int, height as int, has_alpha, pixels, pad);
    }
    let out = wrap_riff_webp(vp8l_data.as_slice());
    proof {
        lemma_webp_payload(vp8l_data@);
    }
    Ok(out)
}

} // verus!
