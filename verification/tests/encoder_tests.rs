use lib::encoder::jpeg::encoder::{encode_quantized_blocks, JpegHuffmanTables};
use lib::encoder::jpeg::huffman::{
    build_huffman_lut, encode_block, standard_huffman_luts, encode_coeff_bits, JpegBitWriter, AC_CHROMA_BITS, AC_CHROMA_HUFFVAL,
    AC_LUMA_BITS, AC_LUMA_HUFFVAL, DC_CHROMA_BITS, DC_CHROMA_HUFFVAL, DC_LUMA_BITS, DC_LUMA_HUFFVAL,
};
use lib::encoder::jpeg::quant::{scale_quant_table, STD_CHROMA_QTABLE, STD_LUMA_QTABLE, ZIGZAG};
use lib::encoder::jpeg::writer::write_headers;
use lib::encoder::jpeg::{assemble_jpeg, JpegEncoder, JpegOptions};
use lib::encoder::png::deflate::{adler32, crc32, deflate_zlib};
use lib::encoder::png::{encode_png, PngOptions};
use lib::encoder::webp::bitwriter::Vp8lBitWriter;
use lib::encoder::webp::riff::wrap_riff_webp;
use lib::encoder::webp::{encode_webp, WebpOptions};
use lib::error::HeicError;
use lib::processing::pixels::PixelBuffer;
use lib::types::{ImageDimensions, PixelFormat};

#[test]
fn test_encode_png_rgb() {
    let mut buf = PixelBuffer::new(ImageDimensions::new(4, 4), PixelFormat::Rgb8);
    buf.fill(&[255, 128, 0]).unwrap();

    let png_bytes = encode_png(&buf, &PngOptions::default()).expect("PNG encode should succeed");
    assert!(png_bytes.starts_with(&[0x89, 0x50, 0x4E, 0x47, 0x0D, 0x0A, 0x1A, 0x0A]));
    assert!(png_bytes.windows(4).any(|w| w == b"IHDR"));
    assert!(png_bytes.windows(4).any(|w| w == b"IDAT"));
    assert!(png_bytes.windows(4).any(|w| w == b"IEND"));
}

#[test]
fn test_encode_png_rgba() {
    let mut buf = PixelBuffer::new(ImageDimensions::new(2, 2), PixelFormat::Rgba8);
    buf.fill(&[0, 255, 128, 64]).unwrap();

    let png_bytes = encode_png(&buf, &PngOptions::default()).expect("PNG encode should succeed");
    assert!(png_bytes.starts_with(&[0x89, 0x50, 0x4E, 0x47, 0x0D, 0x0A, 0x1A, 0x0A]));
}

#[test]
fn png_of_one_pixel_is_exact() {
    let mut buf = PixelBuffer::new(ImageDimensions::new(1, 1), PixelFormat::Rgb8);
    buf.fill(&[1, 2, 3]).unwrap();
    let png = encode_png(&buf, &PngOptions::default()).unwrap();
    // IHDR: width 1, height 1, depth 8, colour type 2.
    assert_eq!(&png[8..16], &[0, 0, 0, 13, b'I', b'H', b'D', b'R']);
    assert_eq!(&png[16..29], &[0, 0, 0, 1, 0, 0, 0, 1, 8, 2, 0, 0, 0]);
    let ihdr_crc = crc32(&png[12..29]);
    assert_eq!(&png[29..33], &ihdr_crc.to_be_bytes());
    assert!(png.ends_with(&[0, 0, 0, 0, b'I', b'E', b'N', b'D', 0xAE, 0x42, 0x60, 0x82]));
}

#[test]
fn png_rejects_empty_image() {
    let buf = PixelBuffer::new(ImageDimensions::new(0, 3), PixelFormat::Rgb8);
    assert!(matches!(encode_png(&buf, &PngOptions::default()), Err(HeicError::InvalidInput(_))));
}

#[test]
fn checksums_known_values() {
    assert_eq!(crc32(b"123456789"), 0xCBF4_3926);
    assert_eq!(crc32(b""), 0);
    assert_eq!(adler32(b"Wikipedia"), 0x11E6_0398);
    assert_eq!(adler32(b""), 1);
}

/// Decodes a zlib stream of stored blocks.
fn inflate_stored(z: &[u8]) -> Vec<u8> {
    assert_eq!(&z[0..2], &[0x78, 0x01]);
    let mut pos = 2;
    let mut out = Vec::new();
    loop {
        let last = z[pos] == 1;
        let len = z[pos + 1] as usize + 256 * z[pos + 2] as usize;
        let nlen = z[pos + 3] as usize + 256 * z[pos + 4] as usize;
        assert_eq!(nlen, 65535 - len);
        out.extend_from_slice(&z[pos + 5..pos + 5 + len]);
        pos += 5 + len;
        if last {
            break;
        }
    }
    assert_eq!(&z[pos..], &adler32(&out).to_be_bytes());
    out
}

#[test]
fn zlib_round_trip() {
    let empty = deflate_zlib(&[]);
    assert_eq!(empty, vec![0x78, 0x01, 0x01, 0x00, 0x00, 0xFF, 0xFF, 0, 0, 0, 1]);
    assert_eq!(inflate_stored(&empty), Vec::<u8>::new());

    let data: Vec<u8> = (0..70_000u32).map(|i| (i % 251) as u8).collect();
    let z = deflate_zlib(&data);
    assert_eq!(z[2], 0);
    assert_eq!(z.len(), 2 + 5 + 65535 + 5 + (70_000 - 65535) + 4);
    assert_eq!(inflate_stored(&z), data);
}

#[test]
fn webp_test_encode_webp_riff_container() {
    let mut buf = PixelBuffer::new(ImageDimensions::new(8, 8), PixelFormat::Rgb8);
    buf.fill(&[50, 100, 150]).unwrap();

    let webp_bytes = encode_webp(&buf, &WebpOptions::default()).expect("WebP encode should succeed");
    assert!(webp_bytes.starts_with(b"RIFF"));
    assert_eq!(&webp_bytes[8..12], b"WEBP");
    assert_eq!(&webp_bytes[12..16], b"VP8L");
}

#[test]
fn webp_test_encode_webp_rgba() {
    let mut buf = PixelBuffer::new(ImageDimensions::new(4, 4), PixelFormat::Rgba8);
    buf.fill(&[10, 20, 30, 200]).unwrap();

    let webp_bytes = encode_webp(&buf, &WebpOptions::default()).expect("WebP encode should succeed");
    assert!(webp_bytes.starts_with(b"RIFF"));
    assert_eq!(&webp_bytes[8..12], b"WEBP");
}

#[test]
fn mod_test_encode_webp_riff_container() {
    let mut buf = PixelBuffer::new(ImageDimensions::new(8, 8), PixelFormat::Rgb8);
    buf.fill(&[50, 100, 150]).unwrap();

    let webp_bytes = encode_webp(&buf, &WebpOptions::default()).expect("WebP encode should succeed");
    assert!(webp_bytes.starts_with(b"RIFF"));
    assert_eq!(&webp_bytes[8..12], b"WEBP");
    assert_eq!(&webp_bytes[12..16], b"VP8L");
}

#[test]
fn mod_test_encode_webp_rgba() {
    let mut buf = PixelBuffer::new(ImageDimensions::new(4, 4), PixelFormat::Rgba8);
    buf.fill(&[10, 20, 30, 200]).unwrap();

    let webp_bytes = encode_webp(&buf, &WebpOptions::default()).expect("WebP encode should succeed");
    assert!(webp_bytes.starts_with(b"RIFF"));
    assert_eq!(&webp_bytes[8..12], b"WEBP");
}

#[test]
fn webp_framing_and_errors() {
    let buf = PixelBuffer::new(ImageDimensions::new(3, 2), PixelFormat::Rgb8);
    let w = encode_webp(&buf, &WebpOptions::default()).unwrap();
    // 1263 bits of header and codes, 32 bits per pixel: 1455 bits in 182 bytes.
    assert_eq!(w.len(), 20 + 182);
    assert_eq!(&w[4..8], &((w.len() - 8) as u32).to_le_bytes());
    assert_eq!(&w[16..20], &182u32.to_le_bytes());
    assert_eq!(w[20], 0x2F);
    // Width and height minus one (14 bits each), alpha hint 0, version 0, no transform,
    // no colour cache, no meta prefix codes, then a prefix code given by code lengths.
    assert_eq!(&w[21..25], &[0x02, 0x40, 0x00, 0x00]);
    let empty = PixelBuffer::new(ImageDimensions::new(0, 2), PixelFormat::Rgb8);
    assert!(matches!(encode_webp(&empty, &WebpOptions::default()), Err(HeicError::InvalidInput(_))));
    let big = PixelBuffer::new(ImageDimensions::new(16385, 1), PixelFormat::Gray8);
    assert!(matches!(encode_webp(&big, &WebpOptions::default()), Err(HeicError::LimitExceeded(_))));
}

#[test]
fn webp_header_of_eight_by_eight_rgb() {
    let mut buf = PixelBuffer::new(ImageDimensions::new(8, 8), PixelFormat::Rgb8);
    buf.fill(&[50, 100, 150]).unwrap();
    let w = encode_webp(&buf, &WebpOptions::default()).unwrap();
    assert_eq!(&w[0..4], b"RIFF");
    assert_eq!(u32::from_le_bytes([w[4], w[5], w[6], w[7]]) as usize, w.len() - 8);
    assert_eq!(&w[8..12], b"WEBP");
    assert_eq!(&w[12..16], b"VP8L");
    // Signature, 14-bit width - 1 = 7, 14-bit height - 1 = 7, alpha hint 0, version 0.
    assert_eq!(&w[20..25], &[0x2F, 0x07, 0xC0, 0x01, 0x00]);
    // 1263 bits of header and codes and 32 bits per pixel make 3311 bits: 414 bytes.
    assert_eq!(u32::from_le_bytes([w[16], w[17], w[18], w[19]]), 414);
    assert_eq!(w.len(), 20 + 414);
}

#[test]
fn webp_alpha_hint_follows_the_format() {
    let rgba = PixelBuffer::new(ImageDimensions::new(1, 1), PixelFormat::Rgba8);
    let w = encode_webp(&rgba, &WebpOptions::default()).unwrap();
    // The alpha hint is bit 36 of the stream: bit 4 of byte 4 of the chunk data.
    assert_eq!((w[24] >> 4) & 1, 1);
    let rgb = PixelBuffer::new(ImageDimensions::new(1, 1), PixelFormat::Rgb8);
    let w = encode_webp(&rgb, &WebpOptions::default()).unwrap();
    assert_eq!((w[24] >> 4) & 1, 0);
}

#[test]
fn webp_encodes_the_pixels() {
    let mut a = PixelBuffer::new(ImageDimensions::new(2, 2), PixelFormat::Rgba8);
    a.fill(&[1, 2, 3, 4]).unwrap();
    let mut b = a.clone();
    b.set_pixel(1, 1, &[1, 2, 3, 5]).unwrap();
    let ea = encode_webp(&a, &WebpOptions::default()).unwrap();
    let eb = encode_webp(&b, &WebpOptions::default()).unwrap();
    assert_eq!(ea.len(), eb.len());
    assert_ne!(ea, eb);
    // The last pixel's alpha code is the last byte's top bits: 4 and 5 differ in bit 0,
    // written last, most significant bit first.
    let n = 1263 + 32 * 4;
    let last_bit = n - 1;
    let byte = ea[20 + last_bit / 8];
    assert_eq!((byte >> (last_bit % 8)) & 1, 0);
    let byte = eb[20 + last_bit / 8];
    assert_eq!((byte >> (last_bit % 8)) & 1, 1);
}

#[test]
fn riff_pads_odd_payloads() {
    let out = wrap_riff_webp(&[1, 2, 3]);
    assert_eq!(out.len(), 24);
    assert_eq!(&out[4..8], &16u32.to_le_bytes());
    assert_eq!(&out[16..20], &3u32.to_le_bytes());
    assert_eq!(&out[20..24], &[1, 2, 3, 0]);
}

#[test]
fn vp8l_bits_are_packed_lsb_first() {
    let mut w = Vp8lBitWriter::new();
    w.write_bits(0b101, 3);
    w.write_bits(0b11, 2);
    w.write_bits(0x1FF, 9);
    w.flush();
    assert_eq!(w.buffer, vec![0b1111_1101, 0b0011_1111]);
}

#[test]
fn jpeg_quality_scaling_of_tables() {
    let q50 = scale_quant_table(&STD_LUMA_QTABLE, 50);
    assert_eq!(q50, STD_LUMA_QTABLE);
    let q100 = scale_quant_table(&STD_LUMA_QTABLE, 100);
    assert!(q100.iter().all(|&v| v == 1));
    let q0 = scale_quant_table(&STD_CHROMA_QTABLE, 0);
    let q1 = scale_quant_table(&STD_CHROMA_QTABLE, 1);
    assert_eq!(q0, q1);
    assert!(q1.iter().all(|&v| v == 255));
    let q10 = scale_quant_table(&STD_LUMA_QTABLE, 10);
    let q95 = scale_quant_table(&STD_LUMA_QTABLE, 95);
    for i in 0..64 {
        assert!(q10[i] >= q95[i]);
    }
    assert_eq!(q10[0], 80);
}

#[test]
fn jpeg_encoder_options() {
    assert_eq!(JpegOptions::default().quality, 85);
    assert_eq!(JpegEncoder::new().options.quality, 85);
    assert_eq!(JpegEncoder::default().options.quality, 85);
    assert_eq!(JpegEncoder::with_quality(0).options.quality, 1);
    assert_eq!(JpegEncoder::with_quality(200).options.quality, 100);
    assert_eq!(JpegEncoder::with_quality(42).options.quality, 42);
}

#[test]
fn jpeg_coefficient_categories() {
    assert_eq!(encode_coeff_bits(0), (0, 0));
    assert_eq!(encode_coeff_bits(5), (3, 5));
    assert_eq!(encode_coeff_bits(-3), (2, 0));
    assert_eq!(encode_coeff_bits(-1), (1, 0));
    assert_eq!(encode_coeff_bits(1023), (10, 1023));
}

#[test]
fn jpeg_canonical_huffman_codes() {
    let dc = build_huffman_lut(&DC_LUMA_BITS, &DC_LUMA_HUFFVAL);
    assert_eq!(dc[0], (0b00, 2));
    assert_eq!(dc[1], (0b010, 3));
    assert_eq!(dc[5], (0b110, 3));
    assert_eq!(dc[6], (0b1110, 4));
    assert_eq!(dc[11], (0b1_1111_1110, 9));
    let ac = build_huffman_lut(&AC_LUMA_BITS, &AC_LUMA_HUFFVAL);
    assert_eq!(ac[0x01], (0b00, 2));
    assert_eq!(ac[0x00], (0b1010, 4));
    assert_eq!(ac[0xF0], (0b111_1111_1001, 11));
}

#[test]
fn jpeg_bit_writer_stuffs_ff() {
    let mut w = JpegBitWriter::new();
    w.write_bits(0xFF, 8);
    w.write_bits(0b1, 1);
    w.flush();
    assert_eq!(w.buffer, vec![0xFF, 0x00, 0x80]);
}

fn tables() -> ([(u16, u8); 256], [(u16, u8); 256], [(u16, u8); 256], [(u16, u8); 256]) {
    (
        build_huffman_lut(&DC_LUMA_BITS, &DC_LUMA_HUFFVAL),
        build_huffman_lut(&DC_CHROMA_BITS, &DC_CHROMA_HUFFVAL),
        build_huffman_lut(&AC_LUMA_BITS, &AC_LUMA_HUFFVAL),
        build_huffman_lut(&AC_CHROMA_BITS, &AC_CHROMA_HUFFVAL),
    )
}

#[test]
fn jpeg_zero_block_codes_dc_zero_and_end_of_block() {
    let (dcl, dcc, acl, acc) = tables();
    let t = JpegHuffmanTables { dc_luma: &dcl, dc_chroma: &dcc, ac_luma: &acl, ac_chroma: &acc };
    // DC category 0 (00) then end of block (1010), padded with zeros.
    assert_eq!(encode_quantized_blocks(&[[0i32; 64]], &t), vec![0b0010_1000]);
    assert_eq!(encode_quantized_blocks(&[], &t), Vec::<u8>::new());
}

#[test]
fn jpeg_dc_is_coded_against_previous_block_of_same_component() {
    let (dcl, _dcc, acl, _acc) = tables();
    let mut w = JpegBitWriter::new();
    let mut prev = 0i32;
    let mut block = [0i32; 64];
    block[0] = 3;
    encode_block(&block, &mut prev, &dcl, &acl, &mut w);
    assert_eq!(prev, 3);
    encode_block(&block, &mut prev, &dcl, &acl, &mut w);
    w.flush();
    // 011 11 1010 then 00 1010, padded: 01111101 00010100
    assert_eq!(w.buffer, vec![0b0111_1101, 0b0001_0100]);
}

#[test]
fn jpeg_headers_layout() {
    let q = scale_quant_table(&STD_LUMA_QTABLE, 85);
    let c = scale_quant_table(&STD_CHROMA_QTABLE, 85);
    let mut out = Vec::new();
    write_headers(&mut out, 300, 200, &q, &c);
    assert_eq!(out.len(), 619);
    assert_eq!(&out[0..2], &[0xFF, 0xD8]);
    assert_eq!(&out[2..4], &[0xFF, 0xE0]);
    assert_eq!(&out[6..11], b"JFIF\0");
    assert_eq!(&out[20..25], &[0xFF, 0xDB, 0x00, 0x84, 0x00]);
    for i in 0..64 {
        assert_eq!(out[25 + i], q[ZIGZAG[i]]);
    }
    assert_eq!(&out[154..163], &[0xFF, 0xC0, 0x00, 0x11, 0x08, 0x00, 200, 0x01, 44]);
    assert_eq!(&out[605..609], &[0xFF, 0xDA, 0x00, 0x0C]);
}

#[test]
fn jpeg_assembled_file_is_framed() {
    let (dcl, dcc, acl, acc) = tables();
    let t = JpegHuffmanTables { dc_luma: &dcl, dc_chroma: &dcc, ac_luma: &acl, ac_chroma: &acc };
    let q = scale_quant_table(&STD_LUMA_QTABLE, 85);
    let c = scale_quant_table(&STD_CHROMA_QTABLE, 85);
    let mut y = [0i32; 64];
    y[0] = -40;
    y[1] = 7;
    y[63] = -2;
    let blocks = [y, [0i32; 64], [0i32; 64]];
    let jpeg = assemble_jpeg(8, 8, &q, &c, &blocks, &t);
    assert!(jpeg.starts_with(&[0xFF, 0xD8]));
    assert!(jpeg.ends_with(&[0xFF, 0xD9]));
    let body = &jpeg[619..jpeg.len() - 2];
    assert_eq!(body, encode_quantized_blocks(&blocks, &t).as_slice());
    for i in 0..body.len() {
        if body[i] == 0xFF {
            assert_eq!(body[i + 1], 0);
        }
    }
}

#[test]
fn standard_luts_are_the_standard_tables() {
    let (dcl, dcc, acl, acc) = standard_huffman_luts();
    let (a, b, c, d) = tables();
    assert_eq!(dcl, a);
    assert_eq!(dcc, b);
    assert_eq!(acl, c);
    assert_eq!(acc, d);
    assert!(acc.iter().all(|e| e.1 <= 16));
    assert_eq!(acc[0x00], (0b00, 2));
}

#[test]
fn jpeg_wide_coefficients_are_coded() {
    let (dcl, _dcc, acl, _acc) = tables();
    let mut w = JpegBitWriter::new();
    let mut prev = 0i32;
    let mut block = [0i32; 64];
    block[0] = 70_000;
    block[1] = -40_000;
    encode_block(&block, &mut prev, &dcl, &acl, &mut w);
    w.flush();
    assert_eq!(prev, 70_000);
    // DC category 17 has no code in the standard table (0 bits), then its 17 extra bits.
    assert_eq!(encode_coeff_bits(70_000), (17, (70_000 % 65_536) as u16));
    assert!(!w.buffer.is_empty());
}

/// Reads a PNG written as one stored-deflate IDAT with filter type 0 on every row.
fn decode_simple_png(png: &[u8]) -> (u32, u32, u8, Vec<u8>) {
    assert_eq!(&png[0..8], &[0x89, b'P', b'N', b'G', 0x0D, 0x0A, 0x1A, 0x0A]);
    let mut pos = 8;
    let mut ihdr = Vec::new();
    let mut idat = Vec::new();
    loop {
        let len = u32::from_be_bytes([png[pos], png[pos + 1], png[pos + 2], png[pos + 3]]) as usize;
        let kind = &png[pos + 4..pos + 8];
        let body = &png[pos + 8..pos + 8 + len];
        let crc = u32::from_be_bytes([png[pos + 8 + len], png[pos + 9 + len], png[pos + 10 + len], png[pos + 11 + len]]);
        assert_eq!(crc, crc32(&png[pos + 4..pos + 8 + len]));
        match kind {
            b"IHDR" => ihdr = body.to_vec(),
            b"IDAT" => idat.extend_from_slice(body),
            b"IEND" => break,
            _ => panic!("unexpected chunk"),
        }
        pos += 12 + len;
    }
    let w = u32::from_be_bytes([ihdr[0], ihdr[1], ihdr[2], ihdr[3]]);
    let h = u32::from_be_bytes([ihdr[4], ihdr[5], ihdr[6], ihdr[7]]);
    assert_eq!(ihdr[8], 8);
    let channels: usize = if ihdr[9] == 6 { 4 } else { 3 };
    let raw = inflate_stored(&idat);
    let row = 1 + w as usize * channels;
    assert_eq!(raw.len(), row * h as usize);
    let mut pixels = Vec::new();
    for r in 0..h as usize {
        assert_eq!(raw[r * row], 0);
        pixels.extend_from_slice(&raw[r * row + 1..(r + 1) * row]);
    }
    (w, h, ihdr[9], pixels)
}

#[test]
fn png_decodes_to_the_buffer_pixels() {
    let data: Vec<u8> = (0..3 * 2 * 4).map(|i| (i * 11) as u8).collect();
    let buf = PixelBuffer::from_raw(ImageDimensions::new(3, 2), PixelFormat::Bgra8, data.clone()).unwrap();
    let (w, h, colour, pixels) = decode_simple_png(&encode_png(&buf, &PngOptions::default()).unwrap());
    assert_eq!((w, h, colour), (3, 2, 6));
    for p in 0..6 {
        assert_eq!(&pixels[p * 4..p * 4 + 4], &[data[p * 4 + 2], data[p * 4 + 1], data[p * 4], data[p * 4 + 3]]);
    }

    let rgb: Vec<u8> = (0..2 * 2 * 3).map(|i| (200 - i * 5) as u8).collect();
    let buf = PixelBuffer::from_raw(ImageDimensions::new(2, 2), PixelFormat::Rgb8, rgb.clone()).unwrap();
    let (w, h, colour, pixels) = decode_simple_png(&encode_png(&buf, &PngOptions::default()).unwrap());
    assert_eq!((w, h, colour), (2, 2, 2));
    assert_eq!(pixels, rgb);
}

#[test]
fn jpeg_flush_twice_changes_nothing() {
    let mut w = JpegBitWriter::new();
    w.write_bits(0b101, 3);
    w.flush();
    let once = w.buffer.clone();
    w.flush();
    assert_eq!(w.buffer, once);
    assert_eq!(once, vec![0b1010_0000]);

    let mut w = JpegBitWriter::new();
    w.write_bits(0xFF, 8);
    w.write_bits(0b101, 3);
    w.write_bits(0b11111, 5);
    assert_eq!(w.buffer, vec![0xFF, 0x00, 0xBF]);
    w.flush();
    assert_eq!(w.buffer, vec![0xFF, 0x00, 0xBF]);
}
