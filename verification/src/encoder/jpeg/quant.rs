//! Quantization tables (ITU-T T.81 Annex K), quality scaling and the zigzag order.

use vstd::prelude::*;

verus! {

/// Standard luminance quantization table (natural order).
pub const STD_LUMA_QTABLE: [u8; 64] = [
    16, 11, 10, 16, 24, 40, 51, 61,
    12, 12, 14, 19, 26, 58, 60, 55,
    14, 13, 16, 24, 40, 57, 69, 56,
    14, 17, 22, 29, 51, 87, 80, 62,
    18, 22, 37, 56, 68, 109, 103, 77,
    24, 35, 55, 64, 81, 104, 113, 92,
    49, 64, 78, 87, 103, 121, 120, 101,
    72, 92, 95, 98, 112, 100, 103, 99,
];

/// Standard chrominance quantization table (natural order).
pub const STD_CHROMA_QTABLE: [u8; 64] = [
    17, 18, 24, 47, 99, 99, 99, 99,
    18, 21, 26, 66, 99, 99, 99, 99,
    24, 26, 56, 99, 99, 99, 99, 99,
    47, 66, 99, 99, 99, 99, 99, 99,
    99, 99, 99, 99, 99, 99, 99, 99,
    99, 99, 99, 99, 99, 99, 99, 99,
    99, 99, 99, 99, 99, 99, 99, 99,
    99, 99, 99, 99, 99, 99, 99, 99,
];

/// Natural (row-major) index of each coefficient in zigzag order.
pub const ZIGZAG: [usize; 64] = [
    0, 1, 8, 16, 9, 2, 3, 10,
    17, 24, 32, 25, 18, 11, 4, 5,
    12, 19, 26, 33, 40, 48, 41, 34,
    27, 20, 13, 6, 7, 14, 21, 28,
    35, 42, 49, 56, 57, 50, 43, 36,
    29, 22, 15, 23, 30, 37, 44, 51,
    58, 59, 52, 45, 38, 31, 39, 46,
    53, 60, 61, 54, 47, 55, 62, 63,
];

/// Quality clamped to 1..=100.
pub open spec fn clamp_quality(q: u8) -> int {
    if q < 1 { 1 } else if q > 100 { 100 } else { q as int }
}

/// The IJG scale factor in percent for a clamped quality: `5000 / q` below 50, else
/// `200 - 2q`.
pub open spec fn quality_scale(q: int) -> int {
    if q < 50 { 5000int / q } else { 200 - 2 * q }
}

/// One scaled table entry: `(t * scale + 50) / 100`, clamped to 1..=255.
pub open spec fn scaled_entry(t: u8, scale: int) -> u8 {
    let v = (t * scale + 50) / 100;
    if v < 1 { 1 } else if v > 255 { 255 } else { v as u8 }
}

/// Scales a quantization table for a JPEG quality (1 to 100; other values are clamped).
pub fn scale_quant_table(table: &[u8; 64], quality: u8) -> (out: [u8; 64])
    ensures
        forall|i: int| 0 <= i < 64 ==> #[trigger] out@[i] == scaled_entry(table@[i], quality_scale(clamp_quality(quality))),
{
    let q: u32 = if quality < 1 { 1 } else if quality > 100 { 100 } else { quality as u32 };
    let scale: u32 = if q < 50 { 5000 / q } else { 200 - 2 * q };
    assert(scale <= 5000);
    let mut out: [u8; 64] = *table;
    let mut i: usize = 0;
    while i < 64
        invariant
            i <= 64,
            scale <= 5000,
            scale == quality_scale(clamp_quality(quality)),
            forall|j: int| 0 <= j < i ==> #[trigger] out@[j] == scaled_entry(table@[j], scale as int),
        decreases 64 - i,
    {
        let t = table[i] as u32;
        assert(t * scale <= 255 * 5000) by (nonlinear_arith)
            requires
                t <= 255,
                scale <= 5000,
        ;
        let v = (t * scale + 50) / 100;
        let e: u8 = if v < 1 { 1 } else if v > 255 { 255 } else { v as u8 };
        out[i] = e;
        i = i + 1;
    }
    out
}

/// A lower quality never quantizes more finely: for qualities `q1 <= q2`, every scaled
/// table entry for `q1` is at least the one for `q2`.
pub proof fn lemma_quality_monotone(t: u8, q1: u8, q2: u8)
    requires
        q1 <= q2,
    ensures
        scaled_entry(t, quality_scale(clamp_quality(q1))) >= scaled_entry(t, quality_scale(clamp_quality(q2))),
{
    let c1 = clamp_quality(q1);
    let c2 = clamp_quality(q2);
    let s1 = quality_scale(c1);
    let s2 = quality_scale(c2);
    assert(1 <= c1 <= c2 <= 100);
    if c2 < 50 {
        vstd::arithmetic::div_mod::lemma_div_is_ordered_by_denominator(5000, c1, c2);
    } else if c1 < 50 {
        vstd::arithmetic::div_mod::lemma_div_is_ordered_by_denominator(5000, c1, 49);
        assert(5000int / 49 == 102);
    }
    assert(s1 >= s2 >= 0);
    assert(t * s1 >= t * s2) by (nonlinear_arith)
        requires
            s1 >= s2,
            t >= 0,
    ;
    vstd::arithmetic::div_mod::lemma_div_is_ordered(t * s2 + 50, t * s1 + 50, 100);
}


/// Reference qualities of the IJG scaling: quality 50 keeps every entry of the base table
/// (raising a zero to 1), quality 100 makes every entry 1, and quality 25 doubles every entry
/// (capped at 255, at least 1). Qualities beyond 1..=100 act as the nearest of them.
pub proof fn lemma_quality_reference_points(t: u8, q: u8)
    ensures
        scaled_entry(t, quality_scale(clamp_quality(50))) == (if t == 0 { 1 } else { t }),
        scaled_entry(t, quality_scale(clamp_quality(100))) == 1,
        scaled_entry(t, quality_scale(clamp_quality(25))) == (if t == 0 { 1 } else if 2 * t > 255 { 255 } else { 2 * t }),
        q > 100 ==> scaled_entry(t, quality_scale(clamp_quality(q))) == scaled_entry(t, quality_scale(clamp_quality(100))),
        q == 0 ==> scaled_entry(t, quality_scale(clamp_quality(q))) == scaled_entry(t, quality_scale(clamp_quality(1))),
{
    assert(quality_scale(50) == 100);
    assert(quality_scale(100) == 0);
    assert(quality_scale(25) == 200);
    assert((t * 100 + 50) / 100 == t) by (nonlinear_arith)
        requires
            t >= 0,
    ;
    assert((t * 0 + 50) / 100 == 0) by (nonlinear_arith);
    assert((t * 200 + 50) / 100 == 2 * t) by (nonlinear_arith)
        requires
            t >= 0,
    ;
}

} // verus!
