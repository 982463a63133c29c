//! Entropy coding of the quantized blocks of a scan, MCU by MCU.

use crate::bits::{bytes_msb_bits, lemma_bytes_msb_len, lemma_msb_len, msb_bits};
use crate::encoder::jpeg::huffman::{
    ac_bits, block_ok, code_bits, dc_bits, encode_block, lut_ok, spec_coeff_bits, stuff, value_bits, JpegBitWriter,
};
use vstd::prelude::*;

verus! {

/// The compiled Huffman lookup tables for luminance and chrominance.
pub struct JpegHuffmanTables<'a> {
    /// DC luminance table.
    pub dc_luma: &'a [(u16, u8); 256],
    /// DC chrominance table.
    pub dc_chroma: &'a [(u16, u8); 256],
    /// AC luminance table.
    pub ac_luma: &'a [(u16, u8); 256],
    /// AC chrominance table.
    pub ac_chroma: &'a [(u16, u8); 256],
}

impl<'a> JpegHuffmanTables<'a> {
    /// Whether every code of the four tables has at most 16 bits.
    pub open spec fn wf(&self) -> bool {
        &&& lut_ok(self.dc_luma@)
        &&& lut_ok(self.dc_chroma@)
        &&& lut_ok(self.ac_luma@)
        &&& lut_ok(self.ac_chroma@)
    }

    /// The DC table of the block at position `n` of the scan (every third block is luma).
    pub open spec fn dc_for(&self, n: int) -> Seq<(u16, u8)> {
        if n % 3 == 0 { self.dc_luma@ } else { self.dc_chroma@ }
    }

    /// The AC table of the block at position `n` of the scan.
    pub open spec fn ac_for(&self, n: int) -> Seq<(u16, u8)> {
        if n % 3 == 0 { self.ac_luma@ } else { self.ac_chroma@ }
    }
}

/// The DC value that the block at position `n` is coded against: that of the previous
/// block of the same component, or 0 for the first.
pub open spec fn prev_dc(blocks: Seq<[i32; 64]>, n: int) -> i32 {
    if n >= 3 { blocks[n - 3]@[0] } else { 0 }
}

/// The coded bits of the first `n` blocks: blocks come in MCUs of Y, Cb, Cr.
pub open spec fn scan_bits(blocks: Seq<[i32; 64]>, t: JpegHuffmanTables, n: nat) -> Seq<bool>
    decreases n,
{
    if n == 0 || n > blocks.len() {
        Seq::empty()
    } else {
        let i = n - 1;
        scan_bits(blocks, t, (n - 1) as nat) + dc_bits(blocks[i]@, prev_dc(blocks, i), t.dc_for(i))
            + ac_bits(blocks[i]@, t.ac_for(i), 1, 0)
    }
}

/// The position of the first block of component `c` at or after `n`.
spec fn next_of(n: int, c: int) -> int {
    n + (c - n % 3 + 3) % 3
}

/// The zero bits that complete the last byte of a stream of `len` bits.
pub open spec fn pad_bits(len: nat) -> Seq<bool> {
    msb_bits(0, ((8 - len % 8) % 8) as nat)
}

/// Huffman-codes the quantized blocks of a scan (natural order, MCUs of Y, Cb, Cr) and
/// returns the byte-stuffed entropy-coded data, padded with zero bits to a whole byte.
pub fn encode_quantized_blocks(blocks: &[[i32; 64]], huff_tables: &JpegHuffmanTables) -> (out: Vec<u8>)
    requires
        huff_tables.wf(),
        forall|i: int| 0 <= i < blocks@.len() ==> block_ok((#[trigger] blocks@[i])@),
    ensures
        exists|raw: Seq<u8>| #![auto]
            out@ == stuff(raw) && bytes_msb_bits(raw) == scan_bits(blocks@, *huff_tables, blocks@.len())
                + pad_bits(scan_bits(blocks@, *huff_tables, blocks@.len()).len()),
{
    let mut writer = JpegBitWriter::new();
    let mut prev_dc_y: i32 = 0;
    let mut prev_dc_cb: i32 = 0;
    let mut prev_dc_cr: i32 = 0;
    let mut n: usize = 0;
    while n < blocks.len()
        invariant
            n <= blocks@.len(),
            writer.wf(),
            huff_tables.wf(),
            forall|i: int| 0 <= i < blocks@.len() ==> block_ok((#[trigger] blocks@[i])@),
            writer.stream() == scan_bits(blocks@, *huff_tables, n as nat),
            prev_dc_y == prev_dc(blocks@, next_of(n as int, 0)),
            prev_dc_cb == prev_dc(blocks@, next_of(n as int, 1)),
            prev_dc_cr == prev_dc(blocks@, next_of(n as int, 2)),
        decreases blocks@.len() - n,
    {
        assert(block_ok(blocks@[n as int]@));
        assert(next_of(n as int, (n % 3) as int) == n);
        if n >= 3 {
            assert(block_ok(blocks@[n - 3]@));
        }
        if n % 3 == 0 {
            encode_block(&blocks[n], &mut prev_dc_y, huff_tables.dc_luma, huff_tables.ac_luma, &mut writer);
        } else if n % 3 == 1 {
            encode_block(&blocks[n], &mut prev_dc_cb, huff_tables.dc_chroma, huff_tables.ac_chroma, &mut writer);
        } else {
            encode_block(&blocks[n], &mut prev_dc_cr, huff_tables.dc_chroma, huff_tables.ac_chroma, &mut writer);
        }
        n = n + 1;
        assert(writer.stream() =~= scan_bits(blocks@, *huff_tables, n as nat));
    }
    let ghost bits = writer.stream();
    proof {
        let ghost w = writer;
        lemma_bytes_msb_len(w.raw@);
        lemma_msb_len(w.bit_accum as int, w.bits_in_accum as nat);
        assert(bits.len() == 8 * w.raw@.len() + w.bits_in_accum);
        assert(bits.len() % 8 == w.bits_in_accum as int);
    }
    writer.flush();
    proof {
        lemma_bytes_msb_len(writer.raw@);
        assert(writer.stream() =~= bytes_msb_bits(writer.raw@));
        assert(writer.buffer@ == stuff(writer.raw@));
    }
    writer.buffer
}


/// DC prediction per component: the scan codes the blocks in order, and block `n` opens with
/// the DC difference `blocks[n][0] - p`, where `p` is the DC of the previous block of the
/// same component (`n - 3`, as blocks come in MCUs of Y, Cb, Cr) or 0 for the first block of
/// each component, coded with the luminance DC table for Y blocks and the chrominance one
/// otherwise; the block's AC coefficients follow.
pub proof fn lemma_dc_prediction(blocks: Seq<[i32; 64]>, t: JpegHuffmanTables, n: int)
    requires
        0 <= n < blocks.len(),
    ensures
        ({
            let p: int = if n < 3 { 0 } else { blocks[n - 3]@[0] as int };
            let c = spec_coeff_bits((blocks[n]@[0] - p) as i32);
            let dc = if n % 3 == 0 { t.dc_luma@ } else { t.dc_chroma@ };
            let ac = if n % 3 == 0 { t.ac_luma@ } else { t.ac_chroma@ };
            &&& n >= 3 ==> (n - 3) % 3 == n % 3 && (n - 2) % 3 != n % 3 && (n - 1) % 3 != n % 3
            &&& scan_bits(blocks, t, (n + 1) as nat) == scan_bits(blocks, t, n as nat) + code_bits(dc[c.0 as int])
                + value_bits(c) + ac_bits(blocks[n]@, ac, 1, 0)
        }),
{
    assert(scan_bits(blocks, t, (n + 1) as nat) == scan_bits(blocks, t, n as nat) + dc_bits(blocks[n]@, prev_dc(blocks, n), t.dc_for(n))
        + ac_bits(blocks[n]@, t.ac_for(n), 1, 0));
}

} // verus!
