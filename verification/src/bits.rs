//! Bit sequences of integers and bytes, least or most significant bit first.

use vstd::arithmetic::div_mod::{lemma_fundamental_div_mod, lemma_fundamental_div_mod_converse};
use vstd::arithmetic::power2::{lemma_pow2_pos, lemma_pow2_unfold, pow2};
use vstd::prelude::*;

verus! {

/// The low `k` bits of `v`, least significant first.
pub open spec fn lsb_bits(v: int, k: nat) -> Seq<bool>
    decreases k,
{
    if k == 0 {
        Seq::empty()
    } else {
        seq![v % 2 == 1] + lsb_bits(v / 2, (k - 1) as nat)
    }
}

/// The low `k` bits of `v`, most significant first.
pub open spec fn msb_bits(v: int, k: nat) -> Seq<bool>
    decreases k,
{
    if k == 0 {
        Seq::empty()
    } else {
        msb_bits(v / 2, (k - 1) as nat) + seq![v % 2 == 1]
    }
}

/// The bits of the bytes of `s` in order, each byte least significant bit first.
pub open spec fn bytes_lsb_bits(s: Seq<u8>) -> Seq<bool>
    decreases s.len(),
{
    if s.len() == 0 {
        Seq::empty()
    } else {
        bytes_lsb_bits(s.drop_last()) + lsb_bits(s.last() as int, 8)
    }
}

/// The bits of the bytes of `s` in order, each byte most significant bit first.
pub open spec fn bytes_msb_bits(s: Seq<u8>) -> Seq<bool>
    decreases s.len(),
{
    if s.len() == 0 {
        Seq::empty()
    } else {
        bytes_msb_bits(s.drop_last()) + msb_bits(s.last() as int, 8)
    }
}

/// Halving `lo + hi * 2^n` (for `n > 0`) halves `lo` and keeps its low bit.
proof fn lemma_halve(lo: int, hi: int, n: nat)
    requires
        n > 0,
        0 <= lo < pow2(n),
        hi >= 0,
    ensures
        (lo + hi * pow2(n)) / 2 == lo / 2 + hi * pow2((n - 1) as nat),
        (lo + hi * pow2(n)) % 2 == lo % 2,
        0 <= lo / 2 < pow2((n - 1) as nat),
        (hi * pow2(n) + lo) == lo + hi * pow2(n),
{
    lemma_pow2_unfold(n);
    lemma_pow2_pos((n - 1) as nat);
    let p = pow2((n - 1) as nat) as int;
    lemma_fundamental_div_mod(lo, 2);
    let q = lo / 2;
    let r = lo % 2;
    assert(hi * pow2(n) == 2 * (hi * p)) by (nonlinear_arith)
        requires
            pow2(n) == 2 * p,
    ;
    let x = lo + hi * pow2(n);
    assert(x == 2 * (q + hi * p) + r);
    lemma_fundamental_div_mod_converse(x, 2, q + hi * p, r);
}

/// The low bits of `lo + hi * 2^n` are those of `lo` (below `2^n`) followed by those of `hi`.
pub proof fn lemma_lsb_concat(lo: int, hi: int, n: nat, k: nat)
    requires
        0 <= lo < pow2(n),
        hi >= 0,
    ensures
        lsb_bits(lo + hi * pow2(n), n + k) == lsb_bits(lo, n) + lsb_bits(hi, k),
    decreases n,
{
    if n == 0 {
        vstd::arithmetic::power2::lemma2_to64();
        assert(lo == 0);
        assert(lsb_bits(lo, 0) + lsb_bits(hi, k) =~= lsb_bits(hi, k));
    } else {
        lemma_halve(lo, hi, n);
        lemma_lsb_concat(lo / 2, hi, (n - 1) as nat, k);
        let x = lo + hi * pow2(n);
        assert(lsb_bits(x, n + k) == seq![x % 2 == 1] + lsb_bits(x / 2, (n + k - 1) as nat));
        assert(((n - 1) as nat + k) == (n + k - 1) as nat);
        assert(lsb_bits(x, n + k) =~= lsb_bits(lo, n) + lsb_bits(hi, k));
    }
}

/// The low bits of `hi * 2^n + lo` (with `lo` below `2^n`), most significant first, are those
/// of `hi` followed by those of `lo`.
pub proof fn lemma_msb_concat(hi: int, lo: int, k: nat, n: nat)
    requires
        0 <= lo < pow2(n),
        hi >= 0,
    ensures
        msb_bits(hi * pow2(n) + lo, k + n) == msb_bits(hi, k) + msb_bits(lo, n),
    decreases n,
{
    if n == 0 {
        vstd::arithmetic::power2::lemma2_to64();
        assert(lo == 0);
        assert(msb_bits(hi, k) + msb_bits(lo, 0) =~= msb_bits(hi, k));
    } else {
        lemma_halve(lo, hi, n);
        lemma_msb_concat(hi, lo / 2, k, (n - 1) as nat);
        let x = hi * pow2(n) + lo;
        assert(msb_bits(x, k + n) == msb_bits(x / 2, (k + n - 1) as nat) + seq![x % 2 == 1]);
        assert((k + (n - 1) as nat) == (k + n - 1) as nat);
        assert(hi * pow2((n - 1) as nat) + lo / 2 == lo / 2 + hi * pow2((n - 1) as nat));
        assert(msb_bits(x, k + n) =~= msb_bits(hi, k) + msb_bits(lo, n));
    }
}

/// The bits of `x` split at `a`: those of `x % 2^a`, then those of `x / 2^a`.
pub proof fn lemma_lsb_split(x: int, a: nat, b: nat)
    requires
        x >= 0,
    ensures
        lsb_bits(x, a + b) == lsb_bits(x % (pow2(a) as int), a) + lsb_bits(x / (pow2(a) as int), b),
{
    lemma_pow2_pos(a);
    lemma_fundamental_div_mod(x, pow2(a) as int);
    assert(x == x % (pow2(a) as int) + (x / (pow2(a) as int)) * (pow2(a) as int)) by (nonlinear_arith)
        requires
            x == (pow2(a) as int) * (x / (pow2(a) as int)) + x % (pow2(a) as int),
    ;
    lemma_lsb_concat(x % (pow2(a) as int), x / (pow2(a) as int), a, b);
}

/// The bits of `x` split at `a` from the top: those of `x / 2^b`, then those of `x % 2^b`.
pub proof fn lemma_msb_split(x: int, a: nat, b: nat)
    requires
        x >= 0,
    ensures
        msb_bits(x, a + b) == msb_bits(x / (pow2(b) as int), a) + msb_bits(x % (pow2(b) as int), b),
{
    lemma_pow2_pos(b);
    lemma_fundamental_div_mod(x, pow2(b) as int);
    assert(x == (x / (pow2(b) as int)) * (pow2(b) as int) + x % (pow2(b) as int)) by (nonlinear_arith)
        requires
            x == (pow2(b) as int) * (x / (pow2(b) as int)) + x % (pow2(b) as int),
    ;
    lemma_msb_concat(x / (pow2(b) as int), x % (pow2(b) as int), a, b);
}

/// Zero has only zero bits.
pub proof fn lemma_zero_bits(k: nat)
    ensures
        lsb_bits(0, k) == Seq::new(k, |i: int| false),
        msb_bits(0, k) == Seq::new(k, |i: int| false),
    decreases k,
{
    if k > 0 {
        lemma_zero_bits((k - 1) as nat);
        assert(lsb_bits(0, k) =~= Seq::new(k, |i: int| false));
        assert(msb_bits(0, k) =~= Seq::new(k, |i: int| false));
    }
}

/// `k` bits, most significant first, are `k` long.
pub proof fn lemma_msb_len(v: int, k: nat)
    ensures
        msb_bits(v, k).len() == k,
    decreases k,
{
    if k > 0 {
        lemma_msb_len(v / 2, (k - 1) as nat);
    }
}

/// A byte sequence has eight bits per byte, most significant first.
pub proof fn lemma_bytes_msb_len(s: Seq<u8>)
    ensures
        bytes_msb_bits(s).len() == 8 * s.len(),
    decreases s.len(),
{
    if s.len() > 0 {
        lemma_bytes_msb_len(s.drop_last());
        lemma_msb_len(s.last() as int, 8);
    }
}


/// The value of bits read least significant first.
pub open spec fn lsb_value(b: Seq<bool>) -> int
    decreases b.len(),
{
    if b.len() == 0 {
        0
    } else {
        (if b[0] { 1int } else { 0int }) + 2 * lsb_value(b.drop_first())
    }
}

/// The value of bits read most significant first.
pub open spec fn msb_value(b: Seq<bool>) -> int
    decreases b.len(),
{
    if b.len() == 0 {
        0
    } else {
        2 * msb_value(b.drop_last()) + (if b.last() { 1int } else { 0int })
    }
}

/// Bits packed into bytes eight at a time, each byte filled from its least significant bit;
/// a last part shorter than a byte is left out.
pub open spec fn lsb_bytes(b: Seq<bool>) -> Seq<u8>
    decreases b.len(),
{
    if b.len() < 8 {
        Seq::empty()
    } else {
        seq![lsb_value(b.take(8)) as u8] + lsb_bytes(b.skip(8))
    }
}

/// Bits packed into bytes eight at a time, each byte filled from its most significant bit;
/// a last part shorter than a byte is left out.
pub open spec fn msb_bytes(b: Seq<bool>) -> Seq<u8>
    decreases b.len(),
{
    if b.len() < 8 {
        Seq::empty()
    } else {
        seq![msb_value(b.take(8)) as u8] + msb_bytes(b.skip(8))
    }
}

/// Reading back the `k` low bits of `v` (below `2^k`), least significant first, gives `v`.
pub proof fn lemma_lsb_value(v: int, k: nat)
    requires
        0 <= v < pow2(k),
    ensures
        lsb_value(lsb_bits(v, k)) == v,
    decreases k,
{
    if k == 0 {
        vstd::arithmetic::power2::lemma2_to64();
    } else {
        lemma_pow2_unfold(k);
        lemma_lsb_value(v / 2, (k - 1) as nat);
        let b = lsb_bits(v, k);
        assert(b.drop_first() =~= lsb_bits(v / 2, (k - 1) as nat));
    }
}

/// Reading back the `k` low bits of `v` (below `2^k`), most significant first, gives `v`.
pub proof fn lemma_msb_value(v: int, k: nat)
    requires
        0 <= v < pow2(k),
    ensures
        msb_value(msb_bits(v, k)) == v,
    decreases k,
{
    if k == 0 {
        vstd::arithmetic::power2::lemma2_to64();
    } else {
        lemma_pow2_unfold(k);
        lemma_msb_value(v / 2, (k - 1) as nat);
        lemma_msb_len(v / 2, (k - 1) as nat);
        let b = msb_bits(v, k);
        assert(b.drop_last() =~= msb_bits(v / 2, (k - 1) as nat));
    }
}

/// Packing whole bytes of bits, then more bits, packs each part on its own.
pub proof fn lemma_lsb_bytes_append(x: Seq<bool>, y: Seq<bool>)
    requires
        x.len() % 8 == 0,
    ensures
        lsb_bytes(x + y) == lsb_bytes(x) + lsb_bytes(y),
    decreases x.len(),
{
    if x.len() == 0 {
        assert(x + y =~= y);
        assert(lsb_bytes(x) + lsb_bytes(y) =~= lsb_bytes(y));
    } else {
        assert((x + y).take(8) =~= x.take(8));
        assert((x + y).skip(8) =~= x.skip(8) + y);
        lemma_lsb_bytes_append(x.skip(8), y);
        assert(lsb_bytes(x + y) =~= lsb_bytes(x) + lsb_bytes(y));
    }
}

/// Packing whole bytes of bits, then more bits, packs each part on its own.
pub proof fn lemma_msb_bytes_append(x: Seq<bool>, y: Seq<bool>)
    requires
        x.len() % 8 == 0,
    ensures
        msb_bytes(x + y) == msb_bytes(x) + msb_bytes(y),
    decreases x.len(),
{
    if x.len() == 0 {
        assert(x + y =~= y);
        assert(msb_bytes(x) + msb_bytes(y) =~= msb_bytes(y));
    } else {
        assert((x + y).take(8) =~= x.take(8));
        assert((x + y).skip(8) =~= x.skip(8) + y);
        lemma_msb_bytes_append(x.skip(8), y);
        assert(msb_bytes(x + y) =~= msb_bytes(x) + msb_bytes(y));
    }
}

/// The bytes of a byte sequence's bits, most significant first, are that sequence.
pub proof fn lemma_msb_bytes_of_bits(s: Seq<u8>)
    ensures
        msb_bytes(bytes_msb_bits(s)) == s,
    decreases s.len(),
{
    if s.len() > 0 {
        let front = s.drop_last();
        let last = s.last();
        lemma_msb_bytes_of_bits(front);
        lemma_bytes_msb_len(front);
        lemma_msb_len(last as int, 8);
        vstd::arithmetic::power2::lemma2_to64();
        lemma_msb_value(last as int, 8);
        let tail = msb_bits(last as int, 8);
        lemma_msb_bytes_append(bytes_msb_bits(front), tail);
        assert(tail.take(8) =~= tail);
        assert(tail.skip(8) =~= Seq::<bool>::empty());
        assert(msb_bytes(tail.skip(8)) =~= Seq::<u8>::empty());
        assert(msb_value(tail.take(8)) == last as int);
        assert(msb_bytes(tail) == seq![msb_value(tail.take(8)) as u8] + msb_bytes(tail.skip(8)));
        assert(msb_bytes(tail) =~= seq![last]);
        assert(s =~= front + seq![last]);
    }
}

} // verus!
