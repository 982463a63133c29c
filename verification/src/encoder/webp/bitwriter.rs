//! Bit writer for lossless WebP (VP8L): bits are packed least significant first.

use crate::bits::{
    bytes_lsb_bits, lemma_lsb_bytes_append, lemma_lsb_concat, lemma_lsb_split, lemma_lsb_value, lemma_zero_bits, lsb_bits,
    lsb_bytes, lsb_value,
};
use vstd::arithmetic::power2::{lemma2_to64, lemma_pow2_adds, lemma_pow2_pos, pow2};
use vstd::prelude::*;

verus! {

/// Bit writer packing values least significant bit first.
#[derive(Debug)]
pub struct Vp8lBitWriter {
    /// Completed bytes.
    pub buffer: Vec<u8>,
    /// Pending bits, least significant first.
    pub bit_accum: u64,
    /// Number of pending bits.
    pub bits_in_accum: u8,
}

/// Adding a byte adds its eight bits.
proof fn lemma_push_byte(s: Seq<u8>, b: u8)
    ensures
        bytes_lsb_bits(s.push(b)) == bytes_lsb_bits(s) + lsb_bits(b as int, 8),
{
    assert(s.push(b).drop_last() =~= s);
}

/// A byte sequence has eight bits per byte.
pub proof fn lemma_bytes_len(s: Seq<u8>)
    ensures
        bytes_lsb_bits(s).len() == 8 * s.len(),
    decreases s.len(),
{
    if s.len() > 0 {
        lemma_bytes_len(s.drop_last());
        lemma_lsb_len(s.last() as int, 8);
    }
}

/// The bytes of a byte sequence's bits, least significant first, are that sequence.
pub proof fn lemma_lsb_bytes_of_bits(s: Seq<u8>)
    ensures
        lsb_bytes(bytes_lsb_bits(s)) == s,
    decreases s.len(),
{
    if s.len() > 0 {
        let front = s.drop_last();
        let last = s.last();
        lemma_lsb_bytes_of_bits(front);
        lemma_bytes_len(front);
        lemma_lsb_len(last as int, 8);
        lemma2_to64();
        lemma_lsb_value(last as int, 8);
        let tail = lsb_bits(last as int, 8);
        lemma_lsb_bytes_append(bytes_lsb_bits(front), tail);
        assert(tail.take(8) =~= tail);
        assert(tail.skip(8) =~= Seq::<bool>::empty());
        assert(lsb_bytes(tail.skip(8)) =~= Seq::<u8>::empty());
        assert(lsb_value(tail.take(8)) == last as int);
        assert(lsb_bytes(tail) == seq![lsb_value(tail.take(8)) as u8] + lsb_bytes(tail.skip(8)));
        assert(lsb_bytes(tail) =~= seq![last]);
        assert(s =~= front + seq![last]);
    }
}

/// `k` bits are `k` long.
pub proof fn lemma_lsb_len(v: int, k: nat)
    ensures
        lsb_bits(v, k).len() == k,
    decreases k,
{
    if k > 0 {
        lemma_lsb_len(v / 2, (k - 1) as nat);
    }
}

impl Vp8lBitWriter {
    /// The bits written but not yet completed into a byte.
    pub open spec fn pending(&self) -> Seq<bool> {
        lsb_bits(self.bit_accum as int, self.bits_in_accum as nat)
    }

    /// Number of pending bits.
    pub open spec fn pending_len(&self) -> nat {
        self.bits_in_accum as nat
    }

    /// Whether fewer than eight bits are pending and the accumulator holds nothing else.
    pub open spec fn wf(&self) -> bool {
        &&& self.bits_in_accum < 8
        &&& self.bit_accum < pow2(self.bits_in_accum as nat)
    }

    /// All bits written so far, in order.
    pub open spec fn stream(&self) -> Seq<bool> {
        bytes_lsb_bits(self.buffer@) + self.pending()
    }

    /// The stream has eight bits per completed byte plus fewer than eight pending bits.
    pub proof fn lemma_stream_len(&self)
        requires
            self.wf(),
        ensures
            self.pending().len() == self.pending_len(),
            self.pending_len() < 8,
            self.stream().len() == 8 * self.buffer@.len() + self.pending_len(),
    {
        lemma_bytes_len(self.buffer@);
        lemma_lsb_len(self.bit_accum as int, self.bits_in_accum as nat);
    }

    /// Creates an empty writer.
    pub fn new() -> (w: Self)
        ensures
            w.wf(),
            w.buffer@.len() == 0,
            w.pending_len() == 0,
            w.stream() == Seq::<bool>::empty(),
    {
        let w = Vp8lBitWriter { buffer: Vec::new(), bit_accum: 0, bits_in_accum: 0 };
        proof {
            lemma2_to64();
            assert(w.stream() =~= Seq::<bool>::empty());
        }
        w
    }

    /// Writes the low `num_bits` bits of `val` (which must fit in them), least significant
    /// first.
    pub fn write_bits(&mut self, val: u32, num_bits: u8)
        requires
            old(self).wf(),
            num_bits <= 32,
            val < pow2(num_bits as nat),
        ensures
            final(self).wf(),
            final(self).stream() == old(self).stream() + lsb_bits(val as int, num_bits as nat),
    {
        if num_bits == 0 {
            assert(self.stream() =~= old(self).stream() + lsb_bits(val as int, 0));
            return;
        }
        let n = self.bits_in_accum;
        let acc = self.bit_accum;
        let v = val as u64;
        proof {
            lemma2_to64();
            lemma_pow2_pos(n as nat);
            vstd::arithmetic::power2::lemma_pow2_strictly_increases(n as nat, 8);
            assert(v * pow2(n as nat) <= u64::MAX) by (nonlinear_arith)
                requires
                    v < 0x1_0000_0000,
                    pow2(n as nat) < 256,
            ;
            vstd::bits::lemma_u64_shl_is_mul(v, n as u64);
            vstd::bits::lemma_u64_shl_is_mul(1u64, n as u64);
            lemma_pow2_adds(n as nat, num_bits as nat);
        }
        let shifted = v << (n as u64);
        assert(acc < (1u64 << (n as u64)) ==> (acc | shifted) == acc + shifted) by (bit_vector)
            requires
                shifted == v << (n as u64),
                n < 8,
                v < 0x1_0000_0000,
        ;
        let mut a: u64 = acc | shifted;
        let mut c: u8 = n + num_bits;
        proof {
            lemma_lsb_concat(acc as int, v as int, n as nat, num_bits as nat);
            assert(a < pow2(c as nat)) by (nonlinear_arith)
                requires
                    a == acc + v * pow2(n as nat),
                    acc < pow2(n as nat),
                    v + 1 <= pow2(num_bits as nat),
                    pow2(c as nat) == pow2(n as nat) * pow2(num_bits as nat),
            ;
        }
        let ghost target = old(self).stream() + lsb_bits(val as int, num_bits as nat);
        assert(bytes_lsb_bits(self.buffer@) + lsb_bits(a as int, c as nat) =~= target);
        while c >= 8
            invariant
                c <= 40,
                a < pow2(c as nat),
                bytes_lsb_bits(self.buffer@) + lsb_bits(a as int, c as nat) == target,
            decreases c,
        {
            let byte = (a & 0xFF) as u8;
            proof {
                lemma2_to64();
                assert(a & 0xFF == a % 256) by (bit_vector);
                assert(a >> 8u64 == a / 256) by (bit_vector);
                lemma_lsb_split(a as int, 8, (c - 8) as nat);
                lemma_push_byte(self.buffer@, byte);
                lemma_pow2_adds(8, (c - 8) as nat);
                assert(a / 256 < pow2((c - 8) as nat)) by (nonlinear_arith)
                    requires
                        a < pow2(c as nat),
                        pow2(c as nat) == 256 * pow2((c - 8) as nat),
                ;
            }
            self.buffer.push(byte);
            a = a >> 8u64;
            c = c - 8;
        }
        self.bit_accum = a;
        self.bits_in_accum = c;
    }

    /// Completes the pending bits into a byte, padding with zero bits.
    pub fn flush(&mut self)
        requires
            old(self).wf(),
        ensures
            final(self).wf(),
            final(self).pending_len() == 0,
            old(self).pending_len() == 0 ==> final(self).buffer@ == old(self).buffer@,
            old(self).pending_len() > 0 ==> final(self).buffer@ == old(self).buffer@.push(old(self).bit_accum as u8),
            final(self).stream() == bytes_lsb_bits(final(self).buffer@),
            final(self).stream() == old(self).stream() + lsb_bits(0, if old(self).pending_len() == 0 { 0 } else { (8 - old(self).pending_len()) as nat }),
    {
        if self.bits_in_accum > 0 {
            let a = self.bit_accum;
            let c = self.bits_in_accum;
            let byte = (a & 0xFF) as u8;
            proof {
                lemma2_to64();
                lemma_pow2_pos(c as nat);
                vstd::arithmetic::power2::lemma_pow2_strictly_increases(c as nat, 8);
                assert(a & 0xFF == a % 256) by (bit_vector);
                assert(a < 256 ==> (a & 0xFF) as u8 == a as u8) by (bit_vector);
                lemma_lsb_split(a as int, c as nat, (8 - c) as nat);
                vstd::arithmetic::div_mod::lemma_small_mod(a as nat, pow2(c as nat));
                vstd::arithmetic::div_mod::lemma_basic_div(a as int, pow2(c as nat) as int);
                lemma_push_byte(self.buffer@, byte);
            }
            self.buffer.push(byte);
            self.bit_accum = 0;
            self.bits_in_accum = 0;
            proof {
                lemma2_to64();
                assert(self.stream() =~= old(self).stream() + lsb_bits(0, (8 - c) as nat));
            }
        } else {
            proof {
                lemma_zero_bits(0);
                assert(self.stream() =~= old(self).stream() + lsb_bits(0, 0));
            }
        }
        proof {
            lemma2_to64();
            assert(self.stream() =~= bytes_lsb_bits(self.buffer@));
        }
    }
}

/// Packing: the buffer is the whole bytes of the stream so far, eight bits per byte filled
/// from the least significant bit, and fewer than eight bits are pending.
pub proof fn lemma_vp8l_packing(w: Vp8lBitWriter)
    requires
        w.wf(),
    ensures
        bytes_lsb_bits(w.buffer@) == w.stream().take(8 * (w.stream().len() as int / 8)),
        w.buffer@ == lsb_bytes(w.stream().take(8 * (w.stream().len() as int / 8))),
        w.stream().len() - 8 * (w.stream().len() as int / 8) == w.pending_len(),
{
    w.lemma_stream_len();
    assert(w.stream().take(8 * (w.stream().len() as int / 8)) =~= bytes_lsb_bits(w.buffer@));
    lemma_lsb_bytes_of_bits(w.buffer@);
}

} // verus!
