//! Decoding of lossless WebP (VP8L) bitstreams, as a specification.
//!
//! The decoder covers VP8L images without transforms, colour cache, meta prefix codes or
//! backward references, whose prefix codes are simple (one or two symbols) or given by code
//! lengths (at least two used symbols, literal lengths only, all symbols listed). On any
//! other stream it gives `None`; on the streams it accepts it gives what a VP8L decoder
//! gives.

use crate::bits::{bytes_lsb_bits, lsb_bits, msb_bits};
use vstd::arithmetic::power2::{lemma_pow2_unfold, pow2};
use vstd::prelude::*;

verus! {

/// The value of the first `n` bits of `s` (least significant first) and the bits after them.
pub open spec fn take_lsb(s: Seq<bool>, n: nat) -> Option<(int, Seq<bool>)>
    decreases n,
{
    if n == 0 {
        Some((0, s))
    } else if s.len() == 0 {
        None
    } else {
        match take_lsb(s.drop_first(), (n - 1) as nat) {
            Some((v, r)) => Some(((if s[0] { 1int } else { 0int }) + 2 * v, r)),
            None => None,
        }
    }
}

/// The symbols of length `l` among the first `m` entries of `lengths`, in order.
pub open spec fn syms_upto(lengths: Seq<int>, l: int, m: nat) -> Seq<int>
    decreases m,
{
    if m == 0 || m > lengths.len() {
        Seq::empty()
    } else {
        syms_upto(lengths, l, (m - 1) as nat) + (if lengths[m - 1] == l { seq![m - 1] } else { Seq::empty() })
    }
}

/// The symbols of code length `l`, in order.
pub open spec fn syms_of_len(lengths: Seq<int>, l: int) -> Seq<int> {
    syms_upto(lengths, l, lengths.len())
}

/// Number of symbols with a non-zero code length among the first `m`.
pub open spec fn used_upto(lengths: Seq<int>, m: nat) -> int
    decreases m,
{
    if m == 0 || m > lengths.len() {
        0
    } else {
        used_upto(lengths, (m - 1) as nat) + (if lengths[m - 1] != 0 { 1int } else { 0int })
    }
}

/// The first canonical code of length `l`.
pub open spec fn first_code(lengths: Seq<int>, l: int) -> int
    decreases l,
{
    if l <= 1 { 0 } else { (first_code(lengths, l - 1) + syms_of_len(lengths, l - 1).len()) * 2 }
}

/// Canonical prefix decoding: having read the code bits `code` (`l - 1` of them, most
/// significant first), read one more and look the code up among those of length `l`.
pub open spec fn take_canonical(lengths: Seq<int>, s: Seq<bool>, l: int, code: int) -> Option<(int, Seq<bool>)>
    decreases 16 - l,
{
    if l < 1 || l > 15 || s.len() == 0 {
        None
    } else {
        let c = code * 2 + (if s[0] { 1int } else { 0int });
        let idx = c - first_code(lengths, l);
        if 0 <= idx < syms_of_len(lengths, l).len() {
            Some((syms_of_len(lengths, l)[idx], s.drop_first()))
        } else {
            take_canonical(lengths, s.drop_first(), l + 1, c)
        }
    }
}

/// A prefix code: a single symbol (read with no bits), two symbols (one bit), or canonical
/// code lengths.
pub enum PrefixCode {
    /// One symbol.
    Single(int),
    /// Two symbols, for bit 0 and bit 1.
    Pair(int, int),
    /// Canonical code lengths per symbol.
    Lengths(Seq<int>),
}

/// Reads one symbol.
pub open spec fn take_symbol(code: PrefixCode, s: Seq<bool>) -> Option<(int, Seq<bool>)> {
    match code {
        PrefixCode::Single(a) => Some((a, s)),
        PrefixCode::Pair(a, b) => match take_lsb(s, 1) {
            Some((v, r)) => Some((if v == 0 { a } else { b }, r)),
            None => None,
        },
        PrefixCode::Lengths(lengths) => if used_upto(lengths, lengths.len()) >= 2 {
            take_canonical(lengths, s, 1, 0)
        } else {
            None
        },
    }
}

/// The order in which code length code lengths are stored.
pub open spec fn code_length_order() -> Seq<int> {
    seq![17int, 18, 0, 1, 2, 3, 4, 5, 16, 6, 7, 8, 9, 10, 11, 12, 13, 14, 15]
}

/// Position of each code length symbol in [`code_length_order`].
pub open spec fn code_length_position() -> Seq<int> {
    seq![2int, 3, 4, 5, 6, 7, 9, 10, 11, 12, 13, 14, 15, 16, 17, 18, 8, 0, 1]
}

/// The code lengths of the code length code, from the values stored in order.
pub open spec fn code_length_lengths(vals: Seq<int>) -> Seq<int> {
    Seq::new(19, |sym: int| {
        let p = code_length_position()[sym];
        if p < vals.len() { vals[p] } else { 0 }
    })
}

/// Reads `n` values of 3 bits.
pub open spec fn take_triples(s: Seq<bool>, n: nat) -> Option<(Seq<int>, Seq<bool>)>
    decreases n,
{
    if n == 0 {
        Some((Seq::empty(), s))
    } else {
        match take_lsb(s, 3) {
            Some((v, r)) => match take_triples(r, (n - 1) as nat) {
                Some((vs, r2)) => Some((seq![v] + vs, r2)),
                None => None,
            },
            None => None,
        }
    }
}

/// Reads `n` code lengths with the code length code `clens` (literal lengths 0 to 15 only).
pub open spec fn take_lengths(clens: Seq<int>, s: Seq<bool>, n: nat) -> Option<(Seq<int>, Seq<bool>)>
    decreases n,
{
    if n == 0 {
        Some((Seq::empty(), s))
    } else {
        match take_symbol(PrefixCode::Lengths(clens), s) {
            Some((len, r)) => if len > 15 {
                None
            } else {
                match take_lengths(clens, r, (n - 1) as nat) {
                    Some((ls, r2)) => Some((seq![len] + ls, r2)),
                    None => None,
                }
            },
            None => None,
        }
    }
}

/// Reads a prefix code for an alphabet of `size` symbols.
pub open spec fn take_code(s: Seq<bool>, size: nat) -> Option<(PrefixCode, Seq<bool>)> {
    match take_lsb(s, 1) {
        None => None,
        Some((simple, r)) => if simple == 1 {
            match take_lsb(r, 1) {
                None => None,
                Some((extra, r1)) => match take_lsb(r1, 1) {
                    None => None,
                    Some((first8, r2)) => match take_lsb(r2, if first8 == 1 { 8 } else { 1 }) {
                        None => None,
                        Some((s0, r3)) => if extra == 0 {
                            Some((PrefixCode::Single(s0), r3))
                        } else {
                            match take_lsb(r3, 8) {
                                None => None,
                                Some((s1, r4)) => Some((PrefixCode::Pair(s0, s1), r4)),
                            }
                        },
                    },
                },
            }
        } else {
            match take_lsb(r, 4) {
                None => None,
                Some((k, r1)) => match take_triples(r1, (k + 4) as nat) {
                    None => None,
                    Some((vals, r2)) => match take_lsb(r2, 1) {
                        None => None,
                        Some((max_flag, r3)) => if max_flag != 0 {
                            None
                        } else {
                            match take_lengths(code_length_lengths(vals), r3, size) {
                                None => None,
                                Some((lengths, r4)) => Some((PrefixCode::Lengths(lengths), r4)),
                            }
                        },
                    },
                },
            }
        },
    }
}

/// The five prefix codes of a group: green (with length prefixes), red, blue, alpha and
/// distance.
pub struct CodeGroup {
    /// Green and length prefix code.
    pub green: PrefixCode,
    /// Red code.
    pub red: PrefixCode,
    /// Blue code.
    pub blue: PrefixCode,
    /// Alpha code.
    pub alpha: PrefixCode,
}

/// Reads one pixel as `(red, green, blue, alpha)`; a green symbol of 256 or more (a backward
/// reference) is not accepted.
pub open spec fn take_pixel(g: CodeGroup, s: Seq<bool>) -> Option<((u8, u8, u8, u8), Seq<bool>)> {
    match take_symbol(g.green, s) {
        None => None,
        Some((gv, r1)) => if !(0 <= gv < 256) {
            None
        } else {
            match take_symbol(g.red, r1) {
                None => None,
                Some((rv, r2)) => match take_symbol(g.blue, r2) {
                    None => None,
                    Some((bv, r3)) => match take_symbol(g.alpha, r3) {
                        None => None,
                        Some((av, r4)) => if 0 <= rv < 256 && 0 <= bv < 256 && 0 <= av < 256 {
                            Some(((rv as u8, gv as u8, bv as u8, av as u8), r4))
                        } else {
                            None
                        },
                    },
                },
            }
        },
    }
}

/// Reads `n` pixels.
pub open spec fn take_pixels(g: CodeGroup, s: Seq<bool>, n: nat) -> Option<(Seq<(u8, u8, u8, u8)>, Seq<bool>)>
    decreases n,
{
    if n == 0 {
        Some((Seq::empty(), s))
    } else {
        match take_pixel(g, s) {
            None => None,
            Some((p, r)) => match take_pixels(g, r, (n - 1) as nat) {
                None => None,
                Some((ps, r2)) => Some((seq![p] + ps, r2)),
            },
        }
    }
}

/// Reads the five prefix codes of the image.
pub open spec fn take_codes(s: Seq<bool>) -> Option<(CodeGroup, Seq<bool>)> {
    match take_code(s, 280) {
        None => None,
        Some((green, r1)) => match take_code(r1, 256) {
            None => None,
            Some((red, r2)) => match take_code(r2, 256) {
                None => None,
                Some((blue, r3)) => match take_code(r3, 256) {
                    None => None,
                    Some((alpha, r4)) => match take_code(r4, 40) {
                        None => None,
                        Some((_dist, r5)) => Some((CodeGroup { green, red, blue, alpha }, r5)),
                    },
                },
            },
        },
    }
}

/// Decodes a VP8L bitstream to its width, height and `(red, green, blue, alpha)` pixels in
/// row-major order.
pub open spec fn vp8l_decode(s: Seq<bool>) -> Option<(int, int, Seq<(u8, u8, u8, u8)>)> {
    match take_lsb(s, 8) {
        Some((sig, r0)) => if sig != 0x2F {
            None
        } else {
            match take_lsb(r0, 14) {
                Some((w1, r1)) => match take_lsb(r1, 14) {
                    Some((h1, r2)) => match take_lsb(r2, 1) {
                        Some((_alpha_hint, r3)) => match take_lsb(r3, 3) {
                            Some((version, r4)) => if version != 0 {
                                None
                            } else {
                                match take_lsb(r4, 3) {
                                    Some((flags, r5)) => if flags != 0 {
                                        None
                                    } else {
                                        match take_codes(r5) {
                                            Some((g, r6)) => match take_pixels(g, r6, ((w1 + 1) * (h1 + 1)) as nat) {
                                                Some((px, _r7)) => Some((w1 + 1, h1 + 1, px)),
                                                None => None,
                                            },
                                            None => None,
                                        }
                                    },
                                    None => None,
                                }
                            },
                            None => None,
                        },
                        None => None,
                    },
                    None => None,
                },
                None => None,
            }
        },
        None => None,
    }
}

/// The little-endian 32-bit value at `i`.
pub open spec fn le32_at(f: Seq<u8>, i: int) -> int {
    f[i] as int + 256 * f[i + 1] as int + 65536 * f[i + 2] as int + 16777216 * f[i + 3] as int
}

/// Decodes a WebP file holding one `VP8L` chunk (`RIFF`, size, `WEBP`, `VP8L`, chunk length,
/// chunk data, pad byte after data of odd length). The RIFF size must lie within the file and
/// cover `WEBP` and the chunk with its padding.
pub open spec fn webp_decode(f: Seq<u8>) -> Option<(int, int, Seq<(u8, u8, u8, u8)>)> {
    if f.len() < 20 || f.subrange(0, 4) != seq![82u8, 73, 70, 70] || f.subrange(8, 12) != seq![87u8, 69, 66, 80]
        || f.subrange(12, 16) != seq![86u8, 80, 56, 76] {
        None
    } else {
        let riff_size = le32_at(f, 4);
        let len = le32_at(f, 16);
        if riff_size + 8 > f.len() || 12 + len + len % 2 > riff_size {
            None
        } else {
            vp8l_decode(bytes_lsb_bits(f.subrange(20, 20 + len)))
        }
    }
}

/// Reading the `n` bits of `v` gives `v` and the bits after them.
pub proof fn lemma_take_lsb(v: int, n: nat, t: Seq<bool>)
    requires
        0 <= v < pow2(n),
    ensures
        take_lsb(lsb_bits(v, n) + t, n) == Some((v, t)),
    decreases n,
{
    if n > 0 {
        lemma_pow2_unfold(n);
        lemma_take_lsb(v / 2, (n - 1) as nat, t);
        let s = lsb_bits(v, n) + t;
        assert(s.drop_first() =~= lsb_bits(v / 2, (n - 1) as nat) + t);
        assert(s[0] == (v % 2 == 1));
    } else {
        vstd::arithmetic::power2::lemma2_to64();
        assert(lsb_bits(v, 0) + t =~= t);
    }
}

/// Code lengths that give 8-bit codes to symbols 0 to 255 and none to the rest.
pub open spec fn byte_lengths(n: nat) -> Seq<int> {
    Seq::new(n, |i: int| if i < 256 { 8int } else { 0int })
}

/// The symbols and counts of [`byte_lengths`].
proof fn lemma_byte_lengths_syms(n: nat, l: int, m: nat)
    requires
        256 <= n,
        m <= n,
    ensures
        syms_upto(byte_lengths(n), l, m) == (if l == 8 {
            Seq::new(if m < 256 { m } else { 256 }, |i: int| i)
        } else if l == 0 {
            Seq::new(if m < 256 { 0 } else { (m - 256) as nat }, |i: int| i + 256)
        } else {
            Seq::<int>::empty()
        }),
        used_upto(byte_lengths(n), m) == (if m < 256 { m as int } else { 256 }),
    decreases m,
{
    if m > 0 {
        lemma_byte_lengths_syms(n, l, (m - 1) as nat);
        let prev = syms_upto(byte_lengths(n), l, (m - 1) as nat);
        assert(syms_upto(byte_lengths(n), l, m) =~= (if l == 8 {
            Seq::new(if m < 256 { m } else { 256 }, |i: int| i)
        } else if l == 0 {
            Seq::new(if m < 256 { 0 } else { (m - 256) as nat }, |i: int| i + 256)
        } else {
            Seq::<int>::empty()
        }));
    }
}

/// [`byte_lengths`] has 256 used symbols, codes of length 8 starting at 0, and symbol `i`
/// at index `i` among them.
pub proof fn lemma_byte_lengths(n: nat)
    requires
        256 <= n,
    ensures
        used_upto(byte_lengths(n), byte_lengths(n).len()) == 256,
        forall|l: int| 1 <= l < 8 ==> (#[trigger] syms_of_len(byte_lengths(n), l)).len() == 0,
        syms_of_len(byte_lengths(n), 8) == Seq::new(256, |i: int| i),
        forall|l: int| 1 <= l <= 8 ==> #[trigger] first_code(byte_lengths(n), l) == 0,
{
    lemma_byte_lengths_syms(n, 8, n);
    assert forall|l: int| 1 <= l < 8 implies (#[trigger] syms_of_len(byte_lengths(n), l)).len() == 0 by {
        lemma_byte_lengths_syms(n, l, n);
    }
    assert forall|l: int| 1 <= l <= 8 implies #[trigger] first_code(byte_lengths(n), l) == 0 by {
        lemma_first_code_zero(n, l);
    }
}

/// The first codes of lengths 1 to 8 of [`byte_lengths`] are 0.
proof fn lemma_first_code_zero(n: nat, l: int)
    requires
        256 <= n,
        1 <= l <= 8,
    ensures
        first_code(byte_lengths(n), l) == 0,
    decreases l,
{
    if l > 1 {
        lemma_first_code_zero(n, l - 1);
        lemma_byte_lengths_syms(n, l - 1, n);
    }
}

/// The eight bits of a byte, most significant first.
pub proof fn lemma_msb8(v: int)
    requires
        0 <= v < 256,
    ensures
        msb_bits(v, 8) == seq![v / 128 % 2 == 1, v / 64 % 2 == 1, v / 32 % 2 == 1, v / 16 % 2 == 1,
            v / 8 % 2 == 1, v / 4 % 2 == 1, v / 2 % 2 == 1, v % 2 == 1],
{
    reveal_with_fuel(msb_bits, 9);
    assert(v / 2 / 2 == v / 4);
    assert(v / 2 / 2 / 2 == v / 8);
    assert(v / 2 / 2 / 2 / 2 == v / 16);
    assert(v / 2 / 2 / 2 / 2 / 2 == v / 32);
    assert(v / 2 / 2 / 2 / 2 / 2 / 2 == v / 64);
    assert(v / 2 / 2 / 2 / 2 / 2 / 2 / 2 == v / 128);
    assert(msb_bits(v, 8) =~= seq![v / 128 % 2 == 1, v / 64 % 2 == 1, v / 32 % 2 == 1, v / 16 % 2 == 1,
        v / 8 % 2 == 1, v / 4 % 2 == 1, v / 2 % 2 == 1, v % 2 == 1]);
}

/// With [`byte_lengths`], the 8-bit code of a byte, most significant bit first, reads as that
/// byte.
#[verifier::spinoff_prover]
#[verifier::rlimit(40)]
pub proof fn lemma_take_byte_symbol(n: nat, v: int, t: Seq<bool>)
    requires
        256 <= n,
        0 <= v < 256,
    ensures
        take_symbol(PrefixCode::Lengths(byte_lengths(n)), msb_bits(v, 8) + t) == Some((v, t)),
{
    let lens = byte_lengths(n);
    lemma_byte_lengths(n);
    lemma_msb8(v);
    let s = msb_bits(v, 8) + t;
    assert(s.skip(8) =~= t);
    assert(s.skip(0) =~= s);
    assert forall|k: int| 0 <= k < 8 implies #[trigger] s.skip(k).drop_first() == s.skip(k + 1) by {
        assert(s.skip(k).drop_first() =~= s.skip(k + 1));
    }
    assert(s.skip(7)[0] == (v % 2 == 1));
    assert(syms_of_len(lens, 8)[v] == v);
    assert(take_canonical(lens, s.skip(7), 8, v / 2) == Some((v, t)));
    assert(take_canonical(lens, s.skip(6), 7, v / 4) == take_canonical(lens, s.skip(7), 8, v / 2));
    assert(take_canonical(lens, s.skip(5), 6, v / 8) == take_canonical(lens, s.skip(6), 7, v / 4));
    assert(take_canonical(lens, s.skip(4), 5, v / 16) == take_canonical(lens, s.skip(5), 6, v / 8));
    assert(take_canonical(lens, s.skip(3), 4, v / 32) == take_canonical(lens, s.skip(4), 5, v / 16));
    assert(take_canonical(lens, s.skip(2), 3, v / 64) == take_canonical(lens, s.skip(3), 4, v / 32));
    assert(take_canonical(lens, s.skip(1), 2, v / 128) == take_canonical(lens, s.skip(2), 3, v / 64));
    assert(take_canonical(lens, s, 1, 0) == take_canonical(lens, s.skip(1), 2, v / 128));
}

/// The 3-bit values `vals`, in order.
pub open spec fn triple_bits(vals: Seq<int>) -> Seq<bool>
    decreases vals.len(),
{
    if vals.len() == 0 { Seq::empty() } else { lsb_bits(vals[0], 3) + triple_bits(vals.drop_first()) }
}

/// Reading 3-bit values back.
proof fn lemma_take_triples(vals: Seq<int>, t: Seq<bool>)
    requires
        forall|i: int| 0 <= i < vals.len() ==> 0 <= #[trigger] vals[i] < 8,
    ensures
        take_triples(triple_bits(vals) + t, vals.len()) == Some((vals, t)),
    decreases vals.len(),
{
    if vals.len() > 0 {
        let rest = vals.drop_first();
        lemma_take_triples(rest, t);
        vstd::arithmetic::power2::lemma2_to64();
        lemma_take_lsb(vals[0], 3, triple_bits(rest) + t);
        assert(triple_bits(vals) + t =~= lsb_bits(vals[0], 3) + (triple_bits(rest) + t));
        assert(seq![vals[0]] + rest =~= vals);
    } else {
        assert(triple_bits(vals) + t =~= t);
        assert(vals =~= Seq::<int>::empty());
    }
}

/// The stored code length code lengths of a byte code: 1 for code length symbols 0 and 8, in
/// the stored order (12 values).
pub open spec fn byte_code_stored() -> Seq<int> {
    seq![0int, 0, 1, 0, 0, 0, 0, 0, 0, 0, 0, 1]
}

/// The code length code that gives one-bit codes to lengths 0 (bit 0) and 8 (bit 1).
pub open spec fn zero_eight_lengths() -> Seq<int> {
    Seq::new(19, |i: int| if i == 0 || i == 8 { 1int } else { 0int })
}

/// Symbols and counts of [`zero_eight_lengths`].
proof fn lemma_zero_eight_syms(m: nat)
    requires
        m <= 19,
    ensures
        syms_upto(zero_eight_lengths(), 1, m) == (if m == 0 {
            Seq::<int>::empty()
        } else if m <= 8 {
            seq![0int]
        } else {
            seq![0int, 8]
        }),
        used_upto(zero_eight_lengths(), m) == (if m == 0 { 0int } else if m <= 8 { 1int } else { 2int }),
    decreases m,
{
    if m > 0 {
        lemma_zero_eight_syms((m - 1) as nat);
        assert(syms_upto(zero_eight_lengths(), 1, m) =~= (if m == 0 {
            Seq::<int>::empty()
        } else if m <= 8 {
            seq![0int]
        } else {
            seq![0int, 8]
        }));
    }
}

/// With [`zero_eight_lengths`], one bit reads as length 8 (bit 1) or 0 (bit 0).
proof fn lemma_take_length_bit(b: bool, t: Seq<bool>)
    ensures
        take_symbol(PrefixCode::Lengths(zero_eight_lengths()), seq![b] + t)
            == Some((if b { 8int } else { 0int }, t)),
{
    lemma_zero_eight_syms(19);
    let s = seq![b] + t;
    assert(s.drop_first() =~= t);
    assert(first_code(zero_eight_lengths(), 1) == 0);
}

/// Reading code lengths of 8 (bit 1) and 0 (bit 0) back.
proof fn lemma_take_lengths(bs: Seq<bool>, t: Seq<bool>)
    ensures
        take_lengths(zero_eight_lengths(), bs + t, bs.len())
            == Some((Seq::new(bs.len(), |i: int| if bs[i] { 8int } else { 0int }), t)),
    decreases bs.len(),
{
    if bs.len() > 0 {
        let rest = bs.drop_first();
        lemma_take_lengths(rest, t);
        assert(bs + t =~= seq![bs[0]] + (rest + t));
        lemma_take_length_bit(bs[0], rest + t);
        assert(seq![if bs[0] { 8int } else { 0int }] + Seq::new(rest.len(), |i: int| if rest[i] { 8int } else { 0int })
            =~= Seq::new(bs.len(), |i: int| if bs[i] { 8int } else { 0int }));
    } else {
        assert(bs + t =~= t);
        assert(Seq::new(bs.len(), |i: int| if bs[i] { 8int } else { 0int }) =~= Seq::<int>::empty());
    }
}

/// The bits of a prefix code given by code lengths that gives 8-bit codes to symbols 0 to
/// 255 of an alphabet of `size` symbols: not simple, 12 code length code lengths, all
/// symbols listed, then one bit per symbol (1 for length 8, 0 for length 0).
pub open spec fn byte_code_bits(size: nat) -> Seq<bool> {
    lsb_bits(0, 1) + lsb_bits(8, 4) + triple_bits(byte_code_stored()) + lsb_bits(0, 1)
        + Seq::new(size, |i: int| i < 256)
}

/// The bits of a simple prefix code with the single symbol 0.
pub open spec fn zero_code_bits() -> Seq<bool> {
    lsb_bits(1, 1) + lsb_bits(0, 1) + lsb_bits(0, 1) + lsb_bits(0, 1)
}

/// [`byte_code_bits`] reads as [`byte_lengths`].
pub proof fn lemma_take_byte_code(size: nat, t: Seq<bool>)
    requires
        256 <= size,
    ensures
        take_code(byte_code_bits(size) + t, size) == Some((PrefixCode::Lengths(byte_lengths(size)), t)),
{
    vstd::arithmetic::power2::lemma2_to64();
    let bs = Seq::new(size, |i: int| i < 256);
    let tail = lsb_bits(0, 1) + (bs + t);
    let tr = triple_bits(byte_code_stored()) + tail;
    assert(byte_code_bits(size) + t =~= lsb_bits(0, 1) + (lsb_bits(8, 4) + tr));
    lemma_take_lsb(0, 1, lsb_bits(8, 4) + tr);
    lemma_take_lsb(8, 4, tr);
    assert forall|i: int| 0 <= i < byte_code_stored().len() implies 0 <= #[trigger] byte_code_stored()[i] < 8 by {}
    lemma_take_triples(byte_code_stored(), tail);
    assert(code_length_lengths(byte_code_stored()) =~= zero_eight_lengths());
    lemma_take_lsb(0, 1, bs + t);
    lemma_take_lengths(bs, t);
    assert(Seq::new(bs.len(), |i: int| if bs[i] { 8int } else { 0int }) =~= byte_lengths(size));
}

/// [`zero_code_bits`] reads as the single symbol 0.
pub proof fn lemma_take_zero_code(size: nat, t: Seq<bool>)
    ensures
        take_code(zero_code_bits() + t, size) == Some((PrefixCode::Single(0), t)),
{
    vstd::arithmetic::power2::lemma2_to64();
    assert(zero_code_bits() + t =~= lsb_bits(1, 1) + (lsb_bits(0, 1) + (lsb_bits(0, 1) + (lsb_bits(0, 1) + t))));
    lemma_take_lsb(1, 1, lsb_bits(0, 1) + (lsb_bits(0, 1) + (lsb_bits(0, 1) + t)));
    lemma_take_lsb(0, 1, lsb_bits(0, 1) + (lsb_bits(0, 1) + t));
    lemma_take_lsb(0, 1, lsb_bits(0, 1) + t);
    lemma_take_lsb(0, 1, t);
}

/// The codes of a pixel `(red, green, blue, alpha)` with [`byte_group`]: green, red, blue,
/// alpha, each as 8 bits most significant first.
pub open spec fn pixel_bits(p: (u8, u8, u8, u8)) -> Seq<bool> {
    msb_bits(p.1 as int, 8) + msb_bits(p.0 as int, 8) + msb_bits(p.2 as int, 8) + msb_bits(p.3 as int, 8)
}

/// The codes of the pixels `ps`, in order.
pub open spec fn pixels_bits(ps: Seq<(u8, u8, u8, u8)>) -> Seq<bool>
    decreases ps.len(),
{
    if ps.len() == 0 { Seq::empty() } else { pixel_bits(ps[0]) + pixels_bits(ps.drop_first()) }
}

/// Appending a pixel appends its codes.
pub proof fn lemma_pixels_bits_push(ps: Seq<(u8, u8, u8, u8)>, p: (u8, u8, u8, u8))
    ensures
        pixels_bits(ps.push(p)) == pixels_bits(ps) + pixel_bits(p),
    decreases ps.len(),
{
    if ps.len() == 0 {
        let q = ps.push(p);
        assert(q.drop_first() =~= Seq::<(u8, u8, u8, u8)>::empty());
        assert(pixels_bits(q.drop_first()) == Seq::<bool>::empty());
        assert(q[0] == p);
        assert(pixels_bits(ps) == Seq::<bool>::empty());
        assert(pixels_bits(q) =~= pixels_bits(ps) + pixel_bits(p));
    } else {
        lemma_pixels_bits_push(ps.drop_first(), p);
        assert(ps.push(p).drop_first() =~= ps.drop_first().push(p));
        assert(pixels_bits(ps.push(p)) =~= pixels_bits(ps) + pixel_bits(p));
    }
}

/// The code group of byte codes: 8-bit codes for every byte value of each channel.
pub open spec fn byte_group() -> CodeGroup {
    CodeGroup {
        green: PrefixCode::Lengths(byte_lengths(280)),
        red: PrefixCode::Lengths(byte_lengths(256)),
        blue: PrefixCode::Lengths(byte_lengths(256)),
        alpha: PrefixCode::Lengths(byte_lengths(256)),
    }
}

/// The five prefix codes written for [`byte_group`], the distance code being the single
/// symbol 0.
pub open spec fn codes_bits() -> Seq<bool> {
    byte_code_bits(280) + byte_code_bits(256) + byte_code_bits(256) + byte_code_bits(256) + zero_code_bits()
}

/// One pixel reads back.
proof fn lemma_take_pixel(p: (u8, u8, u8, u8), t: Seq<bool>)
    ensures
        take_pixel(byte_group(), pixel_bits(p) + t) == Some((p, t)),
{
    let ta = msb_bits(p.3 as int, 8) + t;
    let tb = msb_bits(p.2 as int, 8) + ta;
    let tr = msb_bits(p.0 as int, 8) + tb;
    assert(pixel_bits(p) + t =~= msb_bits(p.1 as int, 8) + tr);
    lemma_take_byte_symbol(280, p.1 as int, tr);
    lemma_take_byte_symbol(256, p.0 as int, tb);
    lemma_take_byte_symbol(256, p.2 as int, ta);
    lemma_take_byte_symbol(256, p.3 as int, t);
}

/// Pixels read back.
pub proof fn lemma_take_pixels(ps: Seq<(u8, u8, u8, u8)>, t: Seq<bool>)
    ensures
        take_pixels(byte_group(), pixels_bits(ps) + t, ps.len()) == Some((ps, t)),
    decreases ps.len(),
{
    if ps.len() == 0 {
        assert(pixels_bits(ps) + t =~= t);
        assert(ps =~= Seq::<(u8, u8, u8, u8)>::empty());
    } else {
        let rest = ps.drop_first();
        lemma_take_pixels(rest, t);
        assert(pixels_bits(ps) + t =~= pixel_bits(ps[0]) + (pixels_bits(rest) + t));
        lemma_take_pixel(ps[0], pixels_bits(rest) + t);
        assert(seq![ps[0]] + rest =~= ps);
    }
}

/// The prefix codes read back as [`byte_group`].
pub proof fn lemma_take_codes(t: Seq<bool>)
    ensures
        take_codes(codes_bits() + t) == Some((byte_group(), t)),
{
    let t4 = zero_code_bits() + t;
    let t3 = byte_code_bits(256) + t4;
    let t2 = byte_code_bits(256) + t3;
    let t1 = byte_code_bits(256) + t2;
    assert(codes_bits() + t =~= byte_code_bits(280) + t1);
    lemma_take_byte_code(280, t1);
    lemma_take_byte_code(256, t2);
    lemma_take_byte_code(256, t3);
    lemma_take_byte_code(256, t4);
    lemma_take_zero_code(40, t);
}

/// The bits of a VP8L image of `w` by `h` pixels `ps` as the encoder writes it: signature,
/// size, alpha hint, version 0, no transform, no colour cache, no meta prefix codes, the
/// byte codes, then the pixels.
pub open spec fn vp8l_stream(w: int, h: int, alpha: bool, ps: Seq<(u8, u8, u8, u8)>) -> Seq<bool> {
    lsb_bits(0x2F, 8) + lsb_bits(w - 1, 14) + lsb_bits(h - 1, 14) + lsb_bits(if alpha { 1 } else { 0 }, 1)
        + lsb_bits(0, 3) + lsb_bits(0, 3) + codes_bits() + pixels_bits(ps)
}

/// Round trip: the stream that the encoder writes for `w` by `h` pixels decodes, whatever
/// padding follows it, to those dimensions and pixels.
#[verifier::spinoff_prover]
#[verifier::rlimit(60)]
pub proof fn lemma_vp8l_round_trip(w: int, h: int, alpha: bool, ps: Seq<(u8, u8, u8, u8)>, pad: Seq<bool>)
    requires
        1 <= w <= 16384,
        1 <= h <= 16384,
        ps.len() == w * h,
    ensures
        vp8l_decode(vp8l_stream(w, h, alpha, ps) + pad) == Some((w, h, ps)),
{
    vstd::arithmetic::power2::lemma2_to64();
    vstd::arithmetic::power2::lemma_pow2_strictly_increases(8, 14);
    let a: int = if alpha { 1 } else { 0 };
    let t7 = pixels_bits(ps) + pad;
    let t6 = codes_bits() + t7;
    let t5 = lsb_bits(0, 3) + t6;
    let t4 = lsb_bits(0, 3) + t5;
    let t3 = lsb_bits(a, 1) + t4;
    let t2 = lsb_bits(h - 1, 14) + t3;
    let t1 = lsb_bits(w - 1, 14) + t2;
    assert(vp8l_stream(w, h, alpha, ps) + pad =~= lsb_bits(0x2F, 8) + t1);
    lemma_take_lsb(0x2F, 8, t1);
    lemma_take_lsb(w - 1, 14, t2);
    lemma_take_lsb(h - 1, 14, t3);
    lemma_take_lsb(a, 1, t4);
    lemma_take_lsb(0, 3, t5);
    lemma_take_lsb(0, 3, t6);
    lemma_take_codes(t7);
    lemma_take_pixels(ps, pad);
    assert(((w - 1 + 1) * (h - 1 + 1)) as nat == ps.len());
    assert(take_lsb(t4, 3) == Some((0int, t5)));
    assert(take_lsb(t5, 3) == Some((0int, t6)));
    assert(take_codes(t6) == Some((byte_group(), t7)));
    assert(take_pixels(byte_group(), t7, ps.len()) == Some((ps, pad)));
}

} // verus!
