//! Baseline sequential DCT JPEG encoding (ITU-T T.81): options, tables, Huffman coding,
//! marker segments and the entropy-coded scan.

pub mod encoder;
pub mod huffman;
pub mod quant;
pub mod writer;

use crate::bits::bytes_msb_bits;
use encoder::{encode_quantized_blocks, pad_bits, scan_bits, JpegHuffmanTables};
use huffman::{block_ok, stuff};
use vstd::prelude::*;
use writer::{spec_headers, write_headers};

verus! {

/// Encoding options for JPEG.
#[derive(Debug, Clone, Copy, PartialEq, Eq)]
pub struct JpegOptions {
    /// JPEG quality from 1 to 100 (default 85).
    pub quality: u8,
}

impl Default for JpegOptions {
    fn default() -> (o: Self)
        ensures
            o.quality == 85,
    {
        JpegOptions { quality: 85 }
    }
}

/// Baseline sequential DCT JPEG encoder.
#[derive(Debug, Clone, Copy)]
pub struct JpegEncoder {
    /// Encoding options.
    pub options: JpegOptions,
}

impl Default for JpegEncoder {
    fn default() -> (e: Self)
        ensures
            e.options.quality == 85,
    {
        JpegEncoder { options: JpegOptions { quality: 85 } }
    }
}

impl JpegEncoder {
    /// Creates a JPEG encoder with the default quality (85).
    pub fn new() -> (e: Self)
        ensures
            e.options.quality == 85,
    {
        JpegEncoder { options: JpegOptions { quality: 85 } }
    }

    /// Creates a JPEG encoder with the given quality, clamped to 1..=100.
    pub fn with_quality(quality: u8) -> (e: Self)
        ensures
            e.options.quality == quant::clamp_quality(quality),
    {
        let q = if quality == 0 { 1 } else if quality > 100 { 100 } else { quality };
        JpegEncoder { options: JpegOptions { quality: q } }
    }
}

/// Assembles a baseline JPEG file from quantized blocks (natural order, MCUs of Y, Cb, Cr):
/// the marker segments for the size and quantization tables, the entropy-coded scan, and
/// the end-of-image marker.
pub fn assemble_jpeg(
    width: usize,
    height: usize,
    q_luma: &[u8; 64],
    q_chroma: &[u8; 64],
    blocks: &[[i32; 64]],
    huff_tables: &JpegHuffmanTables,
) -> (out: Vec<u8>)
    requires
        huff_tables.wf(),
        forall|i: int| 0 <= i < blocks@.len() ==> block_ok((#[trigger] blocks@[i])@),
    ensures
        exists|raw: Seq<u8>| #![auto]
            out@ == spec_headers(width as int, height as int, q_luma@, q_chroma@) + stuff(raw) + seq![0xFFu8, 0xD9u8]
            && bytes_msb_bits(raw) == scan_bits(blocks@, *huff_tables, blocks@.len())
                + pad_bits(scan_bits(blocks@, *huff_tables, blocks@.len()).len()),
{
    let mut out: Vec<u8> = Vec::new();
    write_headers(&mut out, width, height, q_luma, q_chroma);
    let entropy = encode_quantized_blocks(blocks, huff_tables);
    let ghost head = out@;
    let mut i: usize = 0;
    while i < entropy.len()
        invariant
            i <= entropy@.len(),
            out@ == head + entropy@.subrange(0, i as int),
        decreases entropy@.len() - i,
    {
        out.push(entropy[i]);
        i = i + 1;
        assert(out@ =~= head + entropy@.subrange(0, i as int));
    }
    out.push(0xFF);
    out.push(0xD9);
    assert(entropy@.subrange(0, i as int) =~= entropy@);
    assert(out@ =~= head + entropy@ + seq![0xFFu8, 0xD9u8]);
    out
}

} // verus!
