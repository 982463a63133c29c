//! Huffman tables (ITU-T T.81 Annex K), the entropy-coded bit writer, and block coding.

use crate::bits::{bytes_msb_bits, lemma_msb_concat, lemma_msb_split, msb_bits};
use crate::encoder::jpeg::quant::ZIGZAG;
use vstd::arithmetic::power2::{lemma2_to64, lemma_pow2_adds, lemma_pow2_pos, pow2};
use vstd::prelude::*;

verus! {

/// Standard DC luminance code counts per length.
pub const DC_LUMA_BITS: [u8; 16] = [0, 1, 5, 1, 1, 1, 1, 1, 1, 0, 0, 0, 0, 0, 0, 0];
/// Standard DC luminance symbols.
pub const DC_LUMA_HUFFVAL: [u8; 12] = [0, 1, 2, 3, 4, 5, 6, 7, 8, 9, 10, 11];
/// Standard DC chrominance code counts per length.
pub const DC_CHROMA_BITS: [u8; 16] = [0, 3, 1, 1, 1, 1, 1, 1, 1, 1, 1, 0, 0, 0, 0, 0];
/// Standard DC chrominance symbols.
pub const DC_CHROMA_HUFFVAL: [u8; 12] = [0, 1, 2, 3, 4, 5, 6, 7, 8, 9, 10, 11];
/// Standard AC luminance code counts per length.
pub const AC_LUMA_BITS: [u8; 16] = [0, 2, 1, 3, 3, 2, 4, 3, 5, 5, 4, 4, 0, 0, 1, 0x7D];
/// Standard AC luminance symbols.
pub const AC_LUMA_HUFFVAL: [u8; 162] = [
    0x01, 0x02, 0x03, 0x00, 0x04, 0x11, 0x05, 0x12, 0x21, 0x31, 0x41, 0x06, 0x13, 0x51, 0x61, 0x07,
    0x22, 0x71, 0x14, 0x32, 0x81, 0x91, 0xA1, 0x08, 0x23, 0x42, 0xB1, 0xC1, 0x15, 0x52, 0xD1, 0xF0,
    0x24, 0x33, 0x62, 0x72, 0x82, 0x09, 0x0A, 0x16, 0x17, 0x18, 0x19, 0x1A, 0x25, 0x26, 0x27, 0x28,
    0x29, 0x2A, 0x34, 0x35, 0x36, 0x37, 0x38, 0x39, 0x3A, 0x43, 0x44, 0x45, 0x46, 0x47, 0x48, 0x49,
    0x4A, 0x53, 0x54, 0x55, 0x56, 0x57, 0x58, 0x59, 0x5A, 0x63, 0x64, 0x65, 0x66, 0x67, 0x68, 0x69,
    0x6A, 0x73, 0x74, 0x75, 0x76, 0x77, 0x78, 0x79, 0x7A, 0x83, 0x84, 0x85, 0x86, 0x87, 0x88, 0x89,
    0x8A, 0x92, 0x93, 0x94, 0x95, 0x96, 0x97, 0x98, 0x99, 0x9A, 0xA2, 0xA3, 0xA4, 0xA5, 0xA6, 0xA7,
    0xA8, 0xA9, 0xAA, 0xB2, 0xB3, 0xB4, 0xB5, 0xB6, 0xB7, 0xB8, 0xB9, 0xBA, 0xC2, 0xC3, 0xC4, 0xC5,
    0xC6, 0xC7, 0xC8, 0xC9, 0xCA, 0xD2, 0xD3, 0xD4, 0xD5, 0xD6, 0xD7, 0xD8, 0xD9, 0xDA, 0xE1, 0xE2,
    0xE3, 0xE4, 0xE5, 0xE6, 0xE7, 0xE8, 0xE9, 0xEA, 0xF1, 0xF2, 0xF3, 0xF4, 0xF5, 0xF6, 0xF7, 0xF8,
    0xF9, 0xFA,
];
/// Standard AC chrominance code counts per length.
pub const AC_CHROMA_BITS: [u8; 16] = [0, 2, 1, 2, 4, 4, 3, 4, 7, 5, 4, 4, 0, 1, 2, 0x77];
/// Standard AC chrominance symbols.
pub const AC_CHROMA_HUFFVAL: [u8; 162] = [
    0x00, 0x01, 0x02, 0x03, 0x11, 0x04, 0x05, 0x21, 0x31, 0x06, 0x12, 0x41, 0x51, 0x07, 0x61, 0x71,
    0x13, 0x22, 0x32, 0x81, 0x08, 0x14, 0x42, 0x91, 0xA1, 0xB1, 0xC1, 0x09, 0x23, 0x33, 0x52, 0xF0,
    0x15, 0x62, 0x72, 0xD1, 0x0A, 0x16, 0x24, 0x34, 0xE1, 0x25, 0xF1, 0x17, 0x18, 0x19, 0x1A, 0x26,
    0x27, 0x28, 0x29, 0x2A, 0x35, 0x36, 0x37, 0x38, 0x39, 0x3A, 0x43, 0x44, 0x45, 0x46, 0x47, 0x48,
    0x49, 0x4A, 0x53, 0x54, 0x55, 0x56, 0x57, 0x58, 0x59, 0x5A, 0x63, 0x64, 0x65, 0x66, 0x67, 0x68,
    0x69, 0x6A, 0x73, 0x74, 0x75, 0x76, 0x77, 0x78, 0x79, 0x7A, 0x82, 0x83, 0x84, 0x85, 0x86, 0x87,
    0x88, 0x89, 0x8A, 0x92, 0x93, 0x94, 0x95, 0x96, 0x97, 0x98, 0x99, 0x9A, 0xA2, 0xA3, 0xA4, 0xA5,
    0xA6, 0xA7, 0xA8, 0xA9, 0xAA, 0xB2, 0xB3, 0xB4, 0xB5, 0xB6, 0xB7, 0xB8, 0xB9, 0xBA, 0xC2, 0xC3,
    0xC4, 0xC5, 0xC6, 0xC7, 0xC8, 0xC9, 0xCA, 0xD2, 0xD3, 0xD4, 0xD5, 0xD6, 0xD7, 0xD8, 0xD9, 0xDA,
    0xE2, 0xE3, 0xE4, 0xE5, 0xE6, 0xE7, 0xE8, 0xE9, 0xEA, 0xF2, 0xF3, 0xF4, 0xF5, 0xF6, 0xF7, 0xF8,
    0xF9, 0xFA,
];

/// Bytes with a zero byte stuffed after every `0xFF`.
pub open spec fn stuff(raw: Seq<u8>) -> Seq<u8>
    decreases raw.len(),
{
    if raw.len() == 0 {
        Seq::empty()
    } else {
        stuff(raw.drop_last()) + (if raw.last() == 0xFF { seq![0xFFu8, 0x00u8] } else { seq![raw.last()] })
    }
}

/// Bit writer for JPEG entropy-coded data: bits are packed most significant first and a
/// zero byte is stuffed after every `0xFF` byte.
pub struct JpegBitWriter {
    /// Encoded (stuffed) bytes.
    pub buffer: Vec<u8>,
    /// Pending bits (the low `bits_in_accum` bits, most significant first).
    pub bit_accum: u32,
    /// Number of pending bits.
    pub bits_in_accum: u8,
    /// The completed bytes before stuffing.
    pub raw: Ghost<Seq<u8>>,
}

impl Default for JpegBitWriter {
    fn default() -> (w: Self)
        ensures
            w.wf(),
            w.raw@ == Seq::<u8>::empty(),
            w.bits_in_accum == 0,
            w.stream() == Seq::<bool>::empty(),
    {
        JpegBitWriter::new()
    }
}

impl JpegBitWriter {
    /// Whether fewer than eight bits are pending, the accumulator holds nothing else, and
    /// the buffer is the stuffed completed bytes.
    pub open spec fn wf(&self) -> bool {
        &&& self.bits_in_accum < 8
        &&& self.bit_accum < pow2(self.bits_in_accum as nat)
        &&& self.buffer@ == stuff(self.raw@)
    }

    /// All bits written so far, in order.
    pub open spec fn stream(&self) -> Seq<bool> {
        bytes_msb_bits(self.raw@) + msb_bits(self.bit_accum as int, self.bits_in_accum as nat)
    }

    /// Creates an empty writer.
    pub fn new() -> (w: Self)
        ensures
            w.wf(),
            w.raw@ == Seq::<u8>::empty(),
            w.bits_in_accum == 0,
            w.stream() == Seq::<bool>::empty(),
    {
        let w = JpegBitWriter { buffer: Vec::new(), bit_accum: 0, bits_in_accum: 0, raw: Ghost(Seq::empty()) };
        proof {
            lemma2_to64();
            assert(w.buffer@ =~= stuff(w.raw@));
            assert(w.stream() =~= Seq::<bool>::empty());
        }
        w
    }

    /// Emits one completed byte (and its stuffing).
    fn emit(&mut self, byte: u8)
        requires
            old(self).buffer@ == stuff(old(self).raw@),
        ensures
            final(self).raw@ == old(self).raw@.push(byte),
            final(self).buffer@ == stuff(final(self).raw@),
            final(self).bit_accum == old(self).bit_accum,
            final(self).bits_in_accum == old(self).bits_in_accum,
    {
        self.buffer.push(byte);
        if byte == 0xFF {
            self.buffer.push(0x00);
        }
        let ghost old_raw = self.raw@;
        self.raw = Ghost(old_raw.push(byte));
        proof {
            assert(self.raw@.drop_last() =~= old_raw);
            assert(self.buffer@ =~= stuff(self.raw@));
        }
    }

    /// Writes the low `len` bits of `code` (at most 24), most significant first.
    pub fn write_bits(&mut self, code: u16, len: u8)
        requires
            old(self).wf(),
            len <= 24,
        ensures
            final(self).wf(),
            final(self).stream() == old(self).stream() + msb_bits(code as int % (pow2(len as nat) as int), len as nat),
    {
        if len == 0 {
            proof {
                lemma2_to64();
                assert(self.stream() =~= old(self).stream() + msb_bits(code as int % (pow2(0) as int), 0));
            }
            return;
        }
        let n = self.bits_in_accum;
        let acc = self.bit_accum;
        let l = len as u32;
        proof {
            lemma2_to64();
            lemma_pow2_pos(len as nat);
            lemma_pow2_pos(n as nat);
            lemma_pow2_adds(n as nat, len as nat);
            vstd::arithmetic::power2::lemma_pow2_strictly_increases((n + len) as nat, 32);
            vstd::bits::lemma_u32_shl_is_mul(1u32, l);
            assert(acc * pow2(len as nat) < pow2((n + len) as nat)) by (nonlinear_arith)
                requires
                    acc < pow2(n as nat),
                    pow2((n + len) as nat) == pow2(n as nat) * pow2(len as nat),
                    pow2(len as nat) > 0,
            ;
            vstd::bits::lemma_u32_shl_is_mul(acc, l);
        }
        let mask: u32 = (1u32 << l) - 1;
        let low = (code as u32) & mask;
        proof {
            vstd::bits::lemma_u32_low_bits_mask_is_mod(code as u32, len as nat);
            vstd::bits::lemma_low_bits_mask_values();
            assert(vstd::bits::low_bits_mask(len as nat) == pow2(len as nat) - 1) by {
                vstd::bits::lemma_low_bits_mask_unfold(len as nat);
            }
        }
        assert(low == (code as u32) % (pow2(len as nat) as u32));
        let shifted = acc << l;
        assert(shifted % (1u32 << l) == 0 && low < (1u32 << l) ==> (shifted | low) == shifted + low) by (bit_vector)
            requires
                l <= 24,
        ;
        assert(shifted % (1u32 << l) == 0) by {
            vstd::arithmetic::div_mod::lemma_mod_multiples_basic(acc as int, pow2(len as nat) as int);
        }
        let mut a: u32 = shifted | low;
        let mut c: u8 = n + len;
        proof {
            lemma_msb_concat(acc as int, low as int, n as nat, len as nat);
            assert(a < pow2(c as nat)) by (nonlinear_arith)
                requires
                    a == acc * pow2(len as nat) + low,
                    acc + 1 <= pow2(n as nat),
                    low < pow2(len as nat),
                    pow2(c as nat) == pow2(n as nat) * pow2(len as nat),
            ;
        }
        let ghost target = old(self).stream() + msb_bits(code as int % (pow2(len as nat) as int), len as nat);
        assert(bytes_msb_bits(self.raw@) + msb_bits(a as int, c as nat) =~= target);
        while c >= 8
            invariant
                c <= 31,
                a < pow2(c as nat),
                self.buffer@ == stuff(self.raw@),
                bytes_msb_bits(self.raw@) + msb_bits(a as int, c as nat) == target,
            decreases c,
        {
            let s = (c - 8) as u32;
            proof {
                lemma2_to64();
                lemma_pow2_pos(s as nat);
                lemma_pow2_adds(8, s as nat);
                vstd::bits::lemma_u32_shr_is_div(a, s);
                lemma_msb_split(a as int, 8, s as nat);
                assert((a as int) / (pow2(s as nat) as int) < 256) by (nonlinear_arith)
                    requires
                        a < pow2(c as nat),
                        pow2(c as nat) == 256 * pow2(s as nat),
                        pow2(s as nat) > 0,
                ;
            }
            let top = a >> s;
            assert(top < 256 ==> top & 0xFF == top) by (bit_vector);
            let byte = (top & 0xFF) as u8;
            let ghost before_raw = self.raw@;
            self.emit(byte);
            proof {
                assert(self.raw@.drop_last() =~= before_raw);
                vstd::bits::lemma_u32_shl_is_mul(1u32, s);
                vstd::bits::lemma_u32_low_bits_mask_is_mod(a, s as nat);
            }
            let keep: u32 = (1u32 << s) - 1;
            a = a & keep;
            c = c - 8;
            proof {
                vstd::arithmetic::div_mod::lemma_mod_bound(a as int, pow2(s as nat) as int);
            }
        }
        self.bit_accum = a;
        self.bits_in_accum = c;
    }

    /// Completes the pending bits into a byte, padding with zero bits.
    pub fn flush(&mut self)
        requires
            old(self).wf(),
        ensures
            final(self).wf(),
            final(self).bits_in_accum == 0,
            old(self).bits_in_accum == 0 ==> final(self).buffer@ == old(self).buffer@ && final(self).raw@ == old(self).raw@,
            final(self).stream() == old(self).stream() + msb_bits(0, if old(self).bits_in_accum == 0 { 0 } else { (8 - old(self).bits_in_accum) as nat }),
            old(self).bits_in_accum > 0 ==> final(self).buffer@ == old(self).buffer@ + stuff(
                seq![(old(self).bit_accum * pow2((8 - old(self).bits_in_accum) as nat)) as u8],
            ),
    {
        if self.bits_in_accum > 0 {
            let a = self.bit_accum;
            let c = self.bits_in_accum;
            let s = (8 - c) as u32;
            proof {
                lemma2_to64();
                lemma_pow2_pos(s as nat);
                lemma_pow2_adds(c as nat, s as nat);
                assert(a * pow2(s as nat) < 256) by (nonlinear_arith)
                    requires
                        a < pow2(c as nat),
                        pow2(c as nat) * pow2(s as nat) == 256,
                        pow2(s as nat) > 0,
                ;
                vstd::bits::lemma_u32_shl_is_mul(a, s);
                lemma_msb_concat(a as int, 0, c as nat, s as nat);
            }
            let shifted = a << s;
            assert(shifted < 256 ==> shifted & 0xFF == shifted) by (bit_vector);
            let byte = (shifted & 0xFF) as u8;
            let ghost before_raw = self.raw@;
            self.emit(byte);
            self.bit_accum = 0;
            self.bits_in_accum = 0;
            proof {
                assert(self.raw@.drop_last() =~= before_raw);
                assert(self.stream() =~= old(self).stream() + msb_bits(0, s as nat));
                assert(byte == a * pow2(s as nat));
                let one = seq![byte];
                assert(one.drop_last() =~= Seq::<u8>::empty());
                assert(stuff(Seq::<u8>::empty()) =~= Seq::<u8>::empty());
                assert(one.last() == byte);
                assert(stuff(one) == stuff(one.drop_last()) + (if one.last() == 0xFF { seq![0xFFu8, 0x00u8] } else { seq![one.last()] }));
                assert(stuff(one) =~= (if byte == 0xFF { seq![0xFFu8, 0x00u8] } else { seq![byte] }));
                assert(self.buffer@ =~= old(self).buffer@ + stuff(one));
            }
        } else {
            assert(self.stream() =~= old(self).stream() + msb_bits(0, 0));
        }
    }
}

/// Packing: the buffer is the whole bytes of the stream so far, eight bits per byte filled
/// from the most significant bit, with a zero byte stuffed after every `0xFF`; fewer than
/// eight bits are pending.
pub proof fn lemma_jpeg_packing(w: JpegBitWriter)
    requires
        w.wf(),
    ensures
        bytes_msb_bits(w.raw@) == w.stream().take(8 * (w.stream().len() as int / 8)),
        w.buffer@ == stuff(w.raw@),
        w.buffer@ == stuff(crate::bits::msb_bytes(w.stream().take(8 * (w.stream().len() as int / 8)))),
        w.stream().len() - 8 * (w.stream().len() as int / 8) == w.bits_in_accum,
{
    crate::bits::lemma_bytes_msb_len(w.raw@);
    crate::bits::lemma_msb_len(w.bit_accum as int, w.bits_in_accum as nat);
    assert(w.stream().take(8 * (w.stream().len() as int / 8)) =~= bytes_msb_bits(w.raw@));
    crate::bits::lemma_msb_bytes_of_bits(w.raw@);
}

/// State of canonical code assignment: the table, the next code, the next symbol index,
/// and whether every code so far fitted in 16 bits.
pub struct LutState {
    /// `(code, length)` of each symbol.
    pub lut: Seq<(u16, u8)>,
    /// Next code.
    pub code: int,
    /// Index of the next symbol in the value list.
    pub k: int,
    /// Whether no code overflowed.
    pub ok: bool,
}

/// Assigns `cnt` codes of length `li + 1` to the next symbols (symbols beyond the list are
/// skipped).
pub open spec fn assign_codes(st: LutState, huffval: Seq<u8>, li: int, cnt: nat) -> LutState
    decreases cnt,
{
    if cnt == 0 {
        st
    } else {
        let s = assign_codes(st, huffval, li, (cnt - 1) as nat);
        if 0 <= s.k < huffval.len() {
            LutState {
                lut: s.lut.update(huffval[s.k] as int, (s.code as u16, (li + 1) as u8)),
                code: s.code + 1,
                k: s.k + 1,
                ok: s.ok && s.code + 1 <= u16::MAX,
            }
        } else {
            s
        }
    }
}

/// Canonical Huffman code assignment (ITU-T T.81 Annex C) over the first `n` code lengths:
/// codes of each length are consecutive, and the next length starts at twice the next code
/// (kept to 16 bits).
pub open spec fn build_lut(bits: Seq<u8>, huffval: Seq<u8>, n: nat) -> LutState
    decreases n,
{
    if n == 0 {
        LutState { lut: Seq::new(256, |i: int| (0u16, 0u8)), code: 0, k: 0, ok: true }
    } else {
        let prev = build_lut(bits, huffval, (n - 1) as nat);
        let s = assign_codes(prev, huffval, n - 1, bits[n - 1] as nat);
        LutState { lut: s.lut, code: (s.code * 2) % 0x1_0000, k: s.k, ok: s.ok }
    }
}

/// Builds the `(code, length)` lookup table of a Huffman table given by its code counts per
/// length and its symbols (the codes must fit in 16 bits).
pub fn build_huffman_lut(bits: &[u8; 16], huffval: &[u8]) -> (lut: [(u16, u8); 256])
    requires
        build_lut(bits@, huffval@, 16).ok,
    ensures
        lut@ == build_lut(bits@, huffval@, 16).lut,
{
    let mut lut: [(u16, u8); 256] = vstd::array::array_fill_for_copy_types((0u16, 0u8));
    let mut code: u16 = 0;
    let mut k: usize = 0;
    let hlen = huffval.len();
    let mut li: usize = 0;
    assert(lut@ =~= build_lut(bits@, huffval@, 0).lut);
    while li < 16
        invariant
            li <= 16,
            hlen == huffval@.len(),
            build_lut(bits@, huffval@, 16).ok,
            ({
                let st = build_lut(bits@, huffval@, li as nat);
                st.lut == lut@ && st.code == code && st.k == k && st.ok
            }),
        decreases 16 - li,
    {
        let count = bits[li];
        let bit_len = (li + 1) as u8;
        let ghost prev = build_lut(bits@, huffval@, li as nat);
        proof {
            lemma_build_ok_prefix(bits@, huffval@, (li + 1) as nat, 16);
        }
        let mut j: u8 = 0;
        while j < count
            invariant
                j <= count,
                count == bits@[li as int],
                bit_len == li + 1,
                li < 16,
                hlen == huffval@.len(),
                prev == build_lut(bits@, huffval@, li as nat),
                assign_codes(prev, huffval@, li as int, count as nat).ok,
                ({
                    let st = assign_codes(prev, huffval@, li as int, j as nat);
                    st.lut == lut@ && st.code == code && st.k == k && st.ok
                }),
            decreases count - j,
        {
            proof {
                lemma_assign_ok_prefix(prev, huffval@, li as int, (j + 1) as nat, count as nat);
            }
            if k < hlen {
                let val = huffval[k] as usize;
                lut[val] = (code, bit_len);
                code = code + 1;
                k = k + 1;
            }
            j = j + 1;
        }
        assert(code * 2 % 0x1_0000 == ((code as u32) * 2 % 0x1_0000) as u16);
        code = (((code as u32) * 2) % 0x1_0000) as u16;
        li = li + 1;
    }
    lut
}

/// Number of codes of the first `n` lengths.
pub open spec fn code_count(bits: Seq<u8>, n: nat) -> int
    decreases n,
{
    if n == 0 { 0 } else { code_count(bits, (n - 1) as nat) + bits[n - 1] }
}

/// The first code of length `n + 1`: after each length the next code doubles (kept to 16
/// bits).
pub open spec fn next_code(bits: Seq<u8>, n: nat) -> int
    decreases n,
{
    if n == 0 { 0 } else { ((next_code(bits, (n - 1) as nat) + bits[n - 1]) * 2) % 0x1_0000 }
}

/// Whether the codes of the first `n` lengths fit in 16 bits.
pub open spec fn codes_fit(bits: Seq<u8>, n: nat) -> bool
    decreases n,
{
    if n == 0 {
        true
    } else {
        codes_fit(bits, (n - 1) as nat) && (bits[n - 1] == 0 || next_code(bits, (n - 1) as nat) + bits[n - 1] <= 65535)
    }
}

/// Assigning `cnt` codes to symbols that exist advances the code and the symbol index by
/// `cnt`, succeeds when the last code fits, and gives lengths of at most 16.
proof fn lemma_assign_counts(st: LutState, huffval: Seq<u8>, li: int, cnt: nat)
    requires
        0 <= st.k,
        st.k + cnt <= huffval.len(),
        0 <= li < 16,
        st.lut.len() == 256,
        forall|i: int| 0 <= i < 256 ==> (#[trigger] st.lut[i]).1 <= 16,
    ensures
        assign_codes(st, huffval, li, cnt).k == st.k + cnt,
        assign_codes(st, huffval, li, cnt).code == st.code + cnt,
        assign_codes(st, huffval, li, cnt).ok == (st.ok && (cnt == 0 || st.code + cnt <= 65535)),
        assign_codes(st, huffval, li, cnt).lut.len() == 256,
        forall|i: int| 0 <= i < 256 ==> (#[trigger] assign_codes(st, huffval, li, cnt).lut[i]).1 <= 16,
    decreases cnt,
{
    if cnt > 0 {
        lemma_assign_counts(st, huffval, li, (cnt - 1) as nat);
        let s = assign_codes(st, huffval, li, (cnt - 1) as nat);
        let r = assign_codes(st, huffval, li, cnt);
        assert(r.lut == s.lut.update(huffval[s.k] as int, (s.code as u16, (li + 1) as u8)));
        assert forall|i: int| 0 <= i < 256 implies (#[trigger] r.lut[i]).1 <= 16 by {
            if i != huffval[s.k] as int {
                assert(r.lut[i] == s.lut[i]);
            }
        }
    }
}

/// While the symbols last, the table state after `n` lengths is given by [`code_count`],
/// [`next_code`] and [`codes_fit`], and every length in it is at most 16.
proof fn lemma_build_counts(bits: Seq<u8>, huffval: Seq<u8>, n: nat)
    requires
        n <= 16,
        bits.len() == 16,
        code_count(bits, n) <= huffval.len(),
    ensures
        build_lut(bits, huffval, n).k == code_count(bits, n),
        build_lut(bits, huffval, n).code == next_code(bits, n),
        build_lut(bits, huffval, n).ok == codes_fit(bits, n),
        build_lut(bits, huffval, n).lut.len() == 256,
        forall|i: int| 0 <= i < 256 ==> (#[trigger] build_lut(bits, huffval, n).lut[i]).1 <= 16,
    decreases n,
{
    if n > 0 {
        let n1 = (n - 1) as nat;
        assert(code_count(bits, n1) <= code_count(bits, n));
        lemma_build_counts(bits, huffval, n1);
        let prev = build_lut(bits, huffval, n1);
        assert(0 <= prev.k) by {
            lemma_code_count_nonneg(bits, n1);
        }
        lemma_assign_counts(prev, huffval, n1 as int, bits[n1 as int] as nat);
    } else {
        assert forall|i: int| 0 <= i < 256 implies (#[trigger] build_lut(bits, huffval, 0).lut[i]).1 <= 16 by {}
    }
}

/// Code counts are not negative.
proof fn lemma_code_count_nonneg(bits: Seq<u8>, n: nat)
    ensures
        code_count(bits, n) >= 0,
    decreases n,
{
    if n > 0 {
        lemma_code_count_nonneg(bits, (n - 1) as nat);
    }
}

/// The lookup tables of the four standard Huffman tables (DC and AC, luminance and
/// chrominance); every code fits in 16 bits.
pub fn standard_huffman_luts() -> (luts: ([(u16, u8); 256], [(u16, u8); 256], [(u16, u8); 256], [(u16, u8); 256]))
    ensures
        luts.0@ == build_lut(DC_LUMA_BITS@, DC_LUMA_HUFFVAL@, 16).lut,
        luts.1@ == build_lut(DC_CHROMA_BITS@, DC_CHROMA_HUFFVAL@, 16).lut,
        luts.2@ == build_lut(AC_LUMA_BITS@, AC_LUMA_HUFFVAL@, 16).lut,
        luts.3@ == build_lut(AC_CHROMA_BITS@, AC_CHROMA_HUFFVAL@, 16).lut,
        lut_ok(luts.0@),
        lut_ok(luts.1@),
        lut_ok(luts.2@),
        lut_ok(luts.3@),
{
    proof {
        lemma_standard_tables_fit();
    }
    (
        build_huffman_lut(&DC_LUMA_BITS, &DC_LUMA_HUFFVAL),
        build_huffman_lut(&DC_CHROMA_BITS, &DC_CHROMA_HUFFVAL),
        build_huffman_lut(&AC_LUMA_BITS, &AC_LUMA_HUFFVAL),
        build_huffman_lut(&AC_CHROMA_BITS, &AC_CHROMA_HUFFVAL),
    )
}

/// The codes of the four standard tables fit in 16 bits and use every listed symbol.
proof fn lemma_standard_tables_fit()
    ensures
        build_lut(DC_LUMA_BITS@, DC_LUMA_HUFFVAL@, 16).ok,
        build_lut(DC_CHROMA_BITS@, DC_CHROMA_HUFFVAL@, 16).ok,
        build_lut(AC_LUMA_BITS@, AC_LUMA_HUFFVAL@, 16).ok,
        build_lut(AC_CHROMA_BITS@, AC_CHROMA_HUFFVAL@, 16).ok,
        lut_ok(build_lut(DC_LUMA_BITS@, DC_LUMA_HUFFVAL@, 16).lut),
        lut_ok(build_lut(DC_CHROMA_BITS@, DC_CHROMA_HUFFVAL@, 16).lut),
        lut_ok(build_lut(AC_LUMA_BITS@, AC_LUMA_HUFFVAL@, 16).lut),
        lut_ok(build_lut(AC_CHROMA_BITS@, AC_CHROMA_HUFFVAL@, 16).lut),
{
    lemma_fits_dl();
    lemma_fits_dc();
    lemma_fits_al();
    lemma_fits_ac();
    lemma_table_fits(DC_LUMA_BITS@, DC_LUMA_HUFFVAL@);
    lemma_table_fits(DC_CHROMA_BITS@, DC_CHROMA_HUFFVAL@);
    lemma_table_fits(AC_LUMA_BITS@, AC_LUMA_HUFFVAL@);
    lemma_table_fits(AC_CHROMA_BITS@, AC_CHROMA_HUFFVAL@);
}

/// The counts of the DC luminance table give codes that fit in 16 bits, 12 in all.
proof fn lemma_fits_dl()
    ensures
        fits_from(DC_LUMA_BITS@, 0, 0, 0, 12),
{
    let e = DC_LUMA_BITS@;
    assert(e =~= seq![0u8, 1, 5, 1, 1, 1, 1, 1, 1, 0, 0, 0, 0, 0, 0, 0]);
    assert(fits_from(e, 16, 65280, 12, 12));
    assert(fits_from(e, 15, 65408, 12, 12));
    assert(fits_from(e, 14, 32704, 12, 12));
    assert(fits_from(e, 13, 16352, 12, 12));
    assert(fits_from(e, 12, 8176, 12, 12));
    assert(fits_from(e, 11, 4088, 12, 12));
    assert(fits_from(e, 10, 2044, 12, 12));
    assert(fits_from(e, 9, 1022, 12, 12));
    assert(fits_from(e, 8, 510, 11, 12));
    assert(fits_from(e, 7, 254, 10, 12));
    assert(fits_from(e, 6, 126, 9, 12));
    assert(fits_from(e, 5, 62, 8, 12));
    assert(fits_from(e, 4, 30, 7, 12));
    assert(fits_from(e, 3, 14, 6, 12));
    assert(fits_from(e, 2, 2, 1, 12));
    assert(fits_from(e, 1, 0, 0, 12));
    assert(fits_from(e, 0, 0, 0, 12));
}

/// The counts of the DC chrominance table give codes that fit in 16 bits, 12 in all.
proof fn lemma_fits_dc()
    ensures
        fits_from(DC_CHROMA_BITS@, 0, 0, 0, 12),
{
    let e = DC_CHROMA_BITS@;
    assert(e =~= seq![0u8, 3, 1, 1, 1, 1, 1, 1, 1, 1, 1, 0, 0, 0, 0, 0]);
    assert(fits_from(e, 16, 65472, 12, 12));
    assert(fits_from(e, 15, 65504, 12, 12));
    assert(fits_from(e, 14, 32752, 12, 12));
    assert(fits_from(e, 13, 16376, 12, 12));
    assert(fits_from(e, 12, 8188, 12, 12));
    assert(fits_from(e, 11, 4094, 12, 12));
    assert(fits_from(e, 10, 2046, 11, 12));
    assert(fits_from(e, 9, 1022, 10, 12));
    assert(fits_from(e, 8, 510, 9, 12));
    assert(fits_from(e, 7, 254, 8, 12));
    assert(fits_from(e, 6, 126, 7, 12));
    assert(fits_from(e, 5, 62, 6, 12));
    assert(fits_from(e, 4, 30, 5, 12));
    assert(fits_from(e, 3, 14, 4, 12));
    assert(fits_from(e, 2, 6, 3, 12));
    assert(fits_from(e, 1, 0, 0, 12));
    assert(fits_from(e, 0, 0, 0, 12));
}

/// The counts of the AC luminance table give codes that fit in 16 bits, 162 in all.
proof fn lemma_fits_al()
    ensures
        fits_from(AC_LUMA_BITS@, 0, 0, 0, 162),
{
    let e = AC_LUMA_BITS@;
    assert(e =~= seq![0u8, 2, 1, 3, 3, 2, 4, 3, 5, 5, 4, 4, 0, 0, 1, 0x7d]);
    assert(fits_from(e, 16, 65534, 162, 162));
    assert(fits_from(e, 15, 65410, 37, 162));
    assert(fits_from(e, 14, 32704, 36, 162));
    assert(fits_from(e, 13, 16352, 36, 162));
    assert(fits_from(e, 12, 8176, 36, 162));
    assert(fits_from(e, 11, 4084, 32, 162));
    assert(fits_from(e, 10, 2038, 28, 162));
    assert(fits_from(e, 9, 1014, 23, 162));
    assert(fits_from(e, 8, 502, 18, 162));
    assert(fits_from(e, 7, 248, 15, 162));
    assert(fits_from(e, 6, 120, 11, 162));
    assert(fits_from(e, 5, 58, 9, 162));
    assert(fits_from(e, 4, 26, 6, 162));
    assert(fits_from(e, 3, 10, 3, 162));
    assert(fits_from(e, 2, 4, 2, 162));
    assert(fits_from(e, 1, 0, 0, 162));
    assert(fits_from(e, 0, 0, 0, 162));
}

/// The counts of the AC chrominance table give codes that fit in 16 bits, 162 in all.
proof fn lemma_fits_ac()
    ensures
        fits_from(AC_CHROMA_BITS@, 0, 0, 0, 162),
{
    let e = AC_CHROMA_BITS@;
    assert(e =~= seq![0u8, 2, 1, 2, 4, 4, 3, 4, 7, 5, 4, 4, 0, 1, 2, 0x77]);
    assert(fits_from(e, 16, 65534, 162, 162));
    assert(fits_from(e, 15, 65416, 43, 162));
    assert(fits_from(e, 14, 32706, 41, 162));
    assert(fits_from(e, 13, 16352, 40, 162));
    assert(fits_from(e, 12, 8176, 40, 162));
    assert(fits_from(e, 11, 4084, 36, 162));
    assert(fits_from(e, 10, 2038, 32, 162));
    assert(fits_from(e, 9, 1014, 27, 162));
    assert(fits_from(e, 8, 500, 20, 162));
    assert(fits_from(e, 7, 246, 16, 162));
    assert(fits_from(e, 6, 120, 13, 162));
    assert(fits_from(e, 5, 56, 9, 162));
    assert(fits_from(e, 4, 24, 5, 162));
    assert(fits_from(e, 3, 10, 3, 162));
    assert(fits_from(e, 2, 4, 2, 162));
    assert(fits_from(e, 1, 0, 0, 162));
    assert(fits_from(e, 0, 0, 0, 162));
}

/// From length `n` on, with next code `code` and `k` codes so far, every code fits in 16
/// bits and `total` codes are assigned in all.
spec fn fits_from(bits: Seq<u8>, n: nat, code: int, k: int, total: int) -> bool
    decreases 16 - n,
{
    if n >= 16 {
        k == total
    } else {
        (bits[n as int] == 0 || code + bits[n as int] <= 65535)
            && fits_from(bits, n + 1, ((code + bits[n as int]) * 2) % 0x1_0000, k + bits[n as int], total)
    }
}

/// [`fits_from`] from the state after `n` lengths gives [`codes_fit`] and the code count
/// over all 16 lengths.
proof fn lemma_fits_from(bits: Seq<u8>, n: nat, total: int)
    requires
        n <= 16,
        codes_fit(bits, n),
        fits_from(bits, n, next_code(bits, n), code_count(bits, n), total),
    ensures
        codes_fit(bits, 16),
        code_count(bits, 16) == total,
    decreases 16 - n,
{
    if n < 16 {
        assert(codes_fit(bits, n + 1));
        assert(next_code(bits, n + 1) == ((next_code(bits, n) + bits[n as int]) * 2) % 0x1_0000);
        assert(code_count(bits, n + 1) == code_count(bits, n) + bits[n as int]);
        lemma_fits_from(bits, n + 1, total);
    }
}

/// A table whose codes fit in 16 bits and whose symbols number the codes builds without
/// overflow, with lengths of at most 16.
proof fn lemma_table_fits(bits: Seq<u8>, huffval: Seq<u8>)
    requires
        bits.len() == 16,
        fits_from(bits, 0, 0, 0, huffval.len() as int),
    ensures
        build_lut(bits, huffval, 16).ok,
        lut_ok(build_lut(bits, huffval, 16).lut),
{
    lemma_fits_from(bits, 0, huffval.len() as int);
    lemma_build_counts(bits, huffval, 16);
}

/// A successful assignment of `m` codes was successful for fewer.
proof fn lemma_assign_ok_prefix(st: LutState, huffval: Seq<u8>, li: int, j: nat, m: nat)
    requires
        j <= m,
        assign_codes(st, huffval, li, m).ok,
    ensures
        assign_codes(st, huffval, li, j).ok,
    decreases m,
{
    if j < m {
        lemma_assign_ok_prefix(st, huffval, li, j, (m - 1) as nat);
    }
}

/// A successful assignment over `m` lengths was successful over fewer.
proof fn lemma_build_ok_prefix(bits: Seq<u8>, huffval: Seq<u8>, n: nat, m: nat)
    requires
        n <= m,
        build_lut(bits, huffval, m).ok,
    ensures
        build_lut(bits, huffval, n).ok,
    decreases m,
{
    if n < m {
        let prev = build_lut(bits, huffval, (m - 1) as nat);
        lemma_assign_ok_prefix(prev, huffval, m - 1, 0, bits[m - 1] as nat);
        lemma_build_ok_prefix(bits, huffval, n, (m - 1) as nat);
    }
}

/// Number of significant bits of `v`.
pub open spec fn bit_length(v: nat) -> nat
    decreases v,
{
    if v == 0 { 0 } else { 1 + bit_length(v / 2) }
}

/// `v` is below two to the power of its bit length.
proof fn lemma_bit_length(v: nat)
    ensures
        v < pow2(bit_length(v)),
        v > 0 ==> pow2((bit_length(v) - 1) as nat) <= v,
    decreases v,
{
    lemma2_to64();
    if v > 0 {
        lemma_bit_length(v / 2);
        vstd::arithmetic::power2::lemma_pow2_unfold(bit_length(v));
        if v / 2 > 0 {
            vstd::arithmetic::power2::lemma_pow2_unfold((bit_length(v) - 1) as nat);
        }
    }
}

/// Magnitude category and extra bits of a coefficient (ITU-T T.81 Table F.1): the bit
/// length of `|val|`, and `val` (negative values as `val - 1 + 2^length`), kept to 16 bits.
pub open spec fn spec_coeff_bits(val: i32) -> (u8, u16) {
    let a = if val < 0 { -val } else { val as int };
    let n = bit_length(a as nat);
    if val == 0 {
        (0, 0)
    } else if val < 0 {
        (n as u8, ((val - 1 + pow2(n)) % 0x1_0000) as u16)
    } else {
        (n as u8, (val % 0x1_0000) as u16)
    }
}

/// Encodes a coefficient as its magnitude category and extra bits.
pub fn encode_coeff_bits(val: i32) -> (r: (u8, u16))
    requires
        val > -0x4000_0000,
    ensures
        r == spec_coeff_bits(val),
        r.0 <= 31,
{
    if val == 0 {
        return (0, 0);
    }
    let abs_v: u32 = if val < 0 { (0 - (val as i64)) as u32 } else { val as u32 };
    let mut a: u32 = abs_v;
    let mut num_bits: u8 = 0;
    proof {
        lemma_bit_length(abs_v as nat);
        lemma2_to64();
        let bl = bit_length(abs_v as nat);
        if bl > 32 {
            let e = (bl - 1) as nat;
            if e > 32 {
                vstd::arithmetic::power2::lemma_pow2_strictly_increases(32, e);
            }
        }
    }
    while a > 0
        invariant
            num_bits + bit_length(a as nat) == bit_length(abs_v as nat),
            num_bits <= 32,
            bit_length(abs_v as nat) <= 32,
        decreases a,
    {
        a = a / 2;
        num_bits = num_bits + 1;
    }
    proof {
        lemma2_to64();
        lemma_bit_length(abs_v as nat);
    }
    if val < 0 {
        assert(num_bits <= 30) by {
            assert(abs_v < 0x4000_0000);
            if num_bits > 30 {
                let e = (num_bits - 1) as nat;
                if e > 30 {
                    vstd::arithmetic::power2::lemma_pow2_strictly_increases(30, e);
                }
            }
        }
        proof {
            if num_bits < 30 {
                vstd::arithmetic::power2::lemma_pow2_strictly_increases(num_bits as nat, 30);
            }
            vstd::bits::lemma_u32_shl_is_mul(1u32, num_bits as u32);
        }
        let p = (1u32 << (num_bits as u32)) as i64;
        let v = (val as i64) - 1 + p;
        (num_bits, (v % 0x1_0000) as u16)
    } else {
        (num_bits, ((val as i64) % 0x1_0000) as u16)
    }
}

/// The bits of a Huffman code `(code, length)`.
pub open spec fn code_bits(e: (u16, u8)) -> Seq<bool> {
    msb_bits(e.0 as int % (pow2(e.1 as nat) as int), e.1 as nat)
}

/// The extra bits of a coefficient category `(length, bits)`.
pub open spec fn value_bits(c: (u8, u16)) -> Seq<bool> {
    msb_bits(c.1 as int % (pow2(c.0 as nat) as int), c.0 as nat)
}

/// The zigzag order as a sequence.
pub open spec fn zigzag() -> Seq<usize> {
    ZIGZAG@
}

/// AC coding of the block from zigzag position `k`, with `run` zeros pending: zeros extend
/// the run; a non-zero coefficient is coded after its run; pending zeros at the end give
/// an end-of-block code (symbol 0).
pub open spec fn ac_bits(q: Seq<i32>, ac: Seq<(u16, u8)>, k: int, run: int) -> Seq<bool>
    decreases 64 - k, run, 1int,
{
    if k >= 64 || k < 0 || run < 0 {
        if run > 0 { code_bits(ac[0]) } else { Seq::empty() }
    } else if q[zigzag()[k] as int] == 0 {
        ac_bits(q, ac, k + 1, run + 1)
    } else {
        ac_symbol_bits(q, ac, k, run)
    }
}

/// The code of the non-zero coefficient at zigzag position `k` after `run` zeros: a
/// zero-run code (symbol `0xF0`) per 16 zeros, then the symbol `(run << 4) | category` (a
/// byte; a category of 16 or more overlaps the run bits), then the extra bits, then the rest
/// of the block.
pub open spec fn ac_symbol_bits(q: Seq<i32>, ac: Seq<(u16, u8)>, k: int, run: int) -> Seq<bool>
    decreases 64 - k, run, 0int,
{
    if k >= 64 || k < 0 || run < 0 {
        Seq::empty()
    } else if run >= 16 {
        code_bits(ac[0xF0]) + ac_symbol_bits(q, ac, k, run - 16)
    } else {
        let c = spec_coeff_bits(q[zigzag()[k] as int]);
        code_bits(ac[(((run as u8) << 4u8) | c.0) as int]) + value_bits(c) + ac_bits(q, ac, k + 1, 0)
    }
}

/// The DC coding of a block: the code of the category of the difference from the previous
/// DC value, then its extra bits.
pub open spec fn dc_bits(q: Seq<i32>, prev_dc: i32, dc: Seq<(u16, u8)>) -> Seq<bool> {
    let c = spec_coeff_bits((q[0] - prev_dc) as i32);
    code_bits(dc[c.0 as int]) + value_bits(c)
}

/// Whether every code of a lookup table has at most 16 bits.
pub open spec fn lut_ok(lut: Seq<(u16, u8)>) -> bool {
    lut.len() == 256 && forall|i: int| 0 <= i < 256 ==> (#[trigger] lut[i]).1 <= 16
}

/// Whether every coefficient fits in 24 bits with its sign, so that every DC difference has
/// a category of at most 24 bits and every write fits the 32-bit accumulator.
pub open spec fn block_ok(q: Seq<i32>) -> bool {
    q.len() == 64 && forall|i: int| 0 <= i < 64 ==> -8388607 <= #[trigger] q[i] <= 8388607
}

/// Zeros to the end of the block leave only the end-of-block code, if any zero is pending.
proof fn lemma_ac_zero_tail(q: Seq<i32>, ac: Seq<(u16, u8)>, k: int, run: int)
    requires
        1 <= k <= 64,
        run >= 0,
        forall|j: int| k <= j < 64 ==> q[#[trigger] zigzag()[j] as int] == 0,
    ensures
        ac_bits(q, ac, k, run) == (if run + 64 - k > 0 { code_bits(ac[0]) } else { Seq::<bool>::empty() }),
    decreases 64 - k,
{
    if k < 64 {
        assert(q[zigzag()[k] as int] == 0);
        lemma_ac_zero_tail(q, ac, k + 1, run + 1);
    }
}

/// Zeros before a non-zero coefficient add to its run.
proof fn lemma_ac_zero_run(q: Seq<i32>, ac: Seq<(u16, u8)>, k: int, m: int, run: int)
    requires
        1 <= k <= m < 64,
        run >= 0,
        forall|j: int| k <= j < m ==> q[#[trigger] zigzag()[j] as int] == 0,
        q[zigzag()[m] as int] != 0,
    ensures
        ac_bits(q, ac, k, run) == ac_symbol_bits(q, ac, m, run + m - k),
    decreases m - k,
{
    if k < m {
        assert(q[zigzag()[k] as int] == 0);
        lemma_ac_zero_run(q, ac, k + 1, m, run + 1);
    }
}

/// AC coding in zigzag order with run lengths: a block whose AC coefficients are all zero is
/// coded as the end-of-block symbol 0 alone; otherwise the first non-zero coefficient in
/// zigzag order, at position `m`, is coded as symbol `16 * (m - 1) + category` (its run of
/// `m - 1` zeros in the high nibble, when below 16 and the category is below 16), then its
/// extra bits, then the rest of the block from position `m + 1`.
pub proof fn lemma_ac_run_length(q: Seq<i32>, ac: Seq<(u16, u8)>, m: int)
    requires
        q.len() == 64,
        1 <= m <= 64,
        forall|j: int| 1 <= j < m ==> q[#[trigger] zigzag()[j] as int] == 0,
    ensures
        m == 64 ==> ac_bits(q, ac, 1, 0) == code_bits(ac[0]),
        m < 64 && q[zigzag()[m] as int] != 0 && m - 1 < 16 && spec_coeff_bits(q[zigzag()[m] as int]).0 < 16 ==> ({
            let c = spec_coeff_bits(q[zigzag()[m] as int]);
            ac_bits(q, ac, 1, 0) == code_bits(ac[16 * (m - 1) + c.0]) + value_bits(c) + ac_bits(q, ac, m + 1, 0)
        }),
{
    if m == 64 {
        lemma_ac_zero_tail(q, ac, 1, 0);
    } else if q[zigzag()[m] as int] != 0 && m - 1 < 16 && spec_coeff_bits(q[zigzag()[m] as int]).0 < 16 {
        lemma_ac_zero_run(q, ac, 1, m, 0);
        let c = spec_coeff_bits(q[zigzag()[m] as int]);
        let r = (m - 1) as u8;
        let cat = c.0;
        assert(((r << 4u8) | cat) == 16 * r + cat) by (bit_vector)
            requires
                r < 16,
                cat < 16,
        ;
    }
}

/// The zigzag order lists positions of an 8 by 8 block.
proof fn lemma_zigzag_bounds()
    ensures
        forall|i: int| 0 <= i < 64 ==> #[trigger] zigzag()[i] < 64,
{
    assert(zigzag() =~= seq![
        0usize, 1, 8, 16, 9, 2, 3, 10, 17, 24, 32, 25, 18, 11, 4, 5,
        12, 19, 26, 33, 40, 48, 41, 34, 27, 20, 13, 6, 7, 14, 21, 28,
        35, 42, 49, 56, 57, 50, 43, 36, 29, 22, 15, 23, 30, 37, 44, 51,
        58, 59, 52, 45, 38, 31, 39, 46, 53, 60, 61, 54, 47, 55, 62, 63]);
}

/// Huffman-codes one quantized 8 by 8 block (natural order): the DC difference from
/// `prev_dc` (which becomes this block's DC value), then the AC coefficients in zigzag order.
pub fn encode_block(
    quant: &[i32; 64],
    prev_dc: &mut i32,
    dc_lut: &[(u16, u8); 256],
    ac_lut: &[(u16, u8); 256],
    writer: &mut JpegBitWriter,
)
    requires
        old(writer).wf(),
        block_ok(quant@),
        -8388607 <= *old(prev_dc) <= 8388607,
        lut_ok(dc_lut@),
        lut_ok(ac_lut@),
    ensures
        final(writer).wf(),
        *final(prev_dc) == quant@[0],
        final(writer).stream() == old(writer).stream() + dc_bits(quant@, *old(prev_dc), dc_lut@)
            + ac_bits(quant@, ac_lut@, 1, 0),
{
    proof {
        lemma_zigzag_bounds();
    }
    let dc_val = quant[0];
    let diff = dc_val - *prev_dc;
    *prev_dc = dc_val;
    let (dc_len, dc_code) = encode_coeff_bits(diff);
    proof {
        lemma_coeff_len_small(diff);
    }
    let (huff_code, huff_len) = dc_lut[dc_len as usize];
    writer.write_bits(huff_code, huff_len);
    writer.write_bits(dc_code, dc_len);
    let ghost target = old(writer).stream() + dc_bits(quant@, *old(prev_dc), dc_lut@) + ac_bits(quant@, ac_lut@, 1, 0);
    assert(writer.stream() + ac_bits(quant@, ac_lut@, 1, 0) =~= target);
    let mut run: u8 = 0;
    let mut k: usize = 1;
    while k < 64
        invariant
            1 <= k <= 64,
            run < k,
            writer.wf(),
            block_ok(quant@),
            lut_ok(ac_lut@),
            forall|i: int| 0 <= i < 64 ==> #[trigger] zigzag()[i] < 64,
            writer.stream() + ac_bits(quant@, ac_lut@, k as int, run as int) == target,
        decreases 64 - k,
    {
        let val = quant[ZIGZAG[k]];
        if val == 0 {
            run = run + 1;
        } else {
            while run >= 16
                invariant
                    k < 64,
                    run < 64,
                    writer.wf(),
                    lut_ok(ac_lut@),
                    quant@[zigzag()[k as int] as int] == val,
                    val != 0,
                    writer.stream() + ac_symbol_bits(quant@, ac_lut@, k as int, run as int) == target,
                decreases run,
            {
                let (code, len) = ac_lut[0xF0];
                let ghost before = writer.stream();
                writer.write_bits(code, len);
                assert(writer.stream() + ac_symbol_bits(quant@, ac_lut@, k as int, run - 16) =~= before
                    + ac_symbol_bits(quant@, ac_lut@, k as int, run as int));
                run = run - 16;
            }
            let (coeff_len, coeff_code) = encode_coeff_bits(val);
            proof {
                lemma_coeff_len_small(val);
            }
            let symbol = (run << 4u8) | coeff_len;
            let (code, len) = ac_lut[symbol as usize];
            let ghost before = writer.stream();
            writer.write_bits(code, len);
            writer.write_bits(coeff_code, coeff_len);
            assert(writer.stream() + ac_bits(quant@, ac_lut@, k + 1, 0) =~= before
                + ac_symbol_bits(quant@, ac_lut@, k as int, run as int));
            run = 0;
        }
        k = k + 1;
    }
    if run > 0 {
        let (code, len) = ac_lut[0];
        let ghost before = writer.stream();
        writer.write_bits(code, len);
        assert(writer.stream() =~= before + ac_bits(quant@, ac_lut@, 64, run as int));
    } else {
        assert(writer.stream() =~= writer.stream() + ac_bits(quant@, ac_lut@, 64, 0));
    }
}

/// Coefficients below 2^24 in magnitude have categories of at most 24 (23 below 2^23).
proof fn lemma_coeff_len_small(v: i32)
    requires
        -16777215 <= v <= 16777215,
    ensures
        spec_coeff_bits(v).0 <= 24,
        -8388607 <= v <= 8388607 ==> spec_coeff_bits(v).0 <= 23,
{
    let a = if v < 0 { -v } else { v as int };
    lemma_bit_length(a as nat);
    lemma2_to64();
    let bl = bit_length(a as nat);
    if bl > 24 {
        let e = (bl - 1) as nat;
        if e > 24 {
            vstd::arithmetic::power2::lemma_pow2_strictly_increases(24, e);
        }
    }
    if a <= 8388607 && bl > 23 {
        let e = (bl - 1) as nat;
        if e > 23 {
            vstd::arithmetic::power2::lemma_pow2_strictly_increases(23, e);
        }
    }
}

/// Byte stuffing: in the stuffed bytes, every `0xFF` is followed by a zero byte, so no
/// marker can appear inside entropy-coded data.
pub proof fn lemma_stuffed_ff_then_zero(raw: Seq<u8>)
    ensures
        forall|i: int| 0 <= i < stuff(raw).len() && #[trigger] stuff(raw)[i] == 0xFF
            ==> i + 1 < stuff(raw).len() && stuff(raw)[i + 1] == 0,
    decreases raw.len(),
{
    if raw.len() > 0 {
        let prefix = stuff(raw.drop_last());
        lemma_stuffed_ff_then_zero(raw.drop_last());
        let tail = if raw.last() == 0xFF { seq![0xFFu8, 0x00u8] } else { seq![raw.last()] };
        assert(stuff(raw) == prefix + tail);
        assert forall|i: int| 0 <= i < stuff(raw).len() && #[trigger] stuff(raw)[i] == 0xFF
            implies i + 1 < stuff(raw).len() && stuff(raw)[i + 1] == 0 by {
            if i < prefix.len() {
                assert(prefix[i] == 0xFF);
            }
        }
    }
}

} // verus!
