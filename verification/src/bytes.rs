//! Big-endian integer reads from byte slices.

use vstd::prelude::*;

verus! {

/// Big-endian value of the two bytes at `i`.
pub open spec fn be16_at(s: Seq<u8>, i: int) -> int {
    s[i] * 256 + s[i + 1]
}

/// Big-endian value of the four bytes at `i`.
pub open spec fn be32_at(s: Seq<u8>, i: int) -> int {
    be16_at(s, i) * 65536 + be16_at(s, i + 2)
}

/// Big-endian value of the eight bytes at `i`.
pub open spec fn be64_at(s: Seq<u8>, i: int) -> int {
    be32_at(s, i) * 4294967296 + be32_at(s, i + 4)
}

/// Reads a big-endian `u16` at `pos`.
pub fn read_be16(data: &[u8], pos: usize) -> (v: u16)
    requires
        pos + 2 <= data@.len(),
    ensures
        v == be16_at(data@, pos as int),
{
    (data[pos] as u16) * 256 + data[pos + 1] as u16
}

/// Reads a big-endian `u32` at `pos`.
pub fn read_be32(data: &[u8], pos: usize) -> (v: u32)
    requires
        pos + 4 <= data@.len(),
    ensures
        v == be32_at(data@, pos as int),
{
    let _n = data.len();
    let hi = read_be16(data, pos);
    let lo = read_be16(data, pos + 2);
    (hi as u32) * 65536 + lo as u32
}

/// Reads a big-endian `u64` at `pos`.
pub fn read_be64(data: &[u8], pos: usize) -> (v: u64)
    requires
        pos + 8 <= data@.len(),
    ensures
        v == be64_at(data@, pos as int),
{
    let _n = data.len();
    let hi = read_be32(data, pos);
    let lo = read_be32(data, pos + 4);
    (hi as u64) * 4294967296 + lo as u64
}

} // verus!

verus! {

/// Big-endian values stay within the range of their width.
pub proof fn lemma_be_bounds(s: Seq<u8>, i: int)
    ensures
        0 <= be16_at(s, i) < 0x1_0000,
        0 <= be32_at(s, i) < 0x1_0000_0000,
        0 <= be64_at(s, i) < 0x1_0000_0000_0000_0000,
{
    let a = be16_at(s, i);
    let b = be16_at(s, i + 2);
    let c = be16_at(s, i + 4);
    let d = be16_at(s, i + 6);
    assert(0 <= a < 0x1_0000 && 0 <= b < 0x1_0000 && 0 <= c < 0x1_0000 && 0 <= d < 0x1_0000);
    assert(0 <= a * 65536 + b < 0x1_0000_0000) by (nonlinear_arith)
        requires
            0 <= a < 0x1_0000,
            0 <= b < 0x1_0000,
    ;
    assert(0 <= c * 65536 + d < 0x1_0000_0000) by (nonlinear_arith)
        requires
            0 <= c < 0x1_0000,
            0 <= d < 0x1_0000,
    ;
    let hi = be32_at(s, i);
    let lo = be32_at(s, i + 4);
    assert(0 <= hi * 4294967296 + lo < 0x1_0000_0000_0000_0000) by (nonlinear_arith)
        requires
            0 <= hi < 0x1_0000_0000,
            0 <= lo < 0x1_0000_0000,
    ;
}

} // verus!

verus! {

/// Bit masks and shifts of a byte as arithmetic.
pub proof fn lemma_byte_bits(x: u8)
    ensures
        x & 1 == x % 2,
        x & 3 == x % 4,
        x & 0x0f == x % 16,
        x & 0x3f == x % 64,
        x & 0x7f == x % 128,
        (x & 0x80 != 0) == (x >= 128),
        x >> 4u8 == x / 16,
{
    assert(x & 1 == x % 2) by (bit_vector);
    assert(x & 3 == x % 4) by (bit_vector);
    assert(x & 0x0f == x % 16) by (bit_vector);
    assert(x & 0x3f == x % 64) by (bit_vector);
    assert(x & 0x7f == x % 128) by (bit_vector);
    assert((x & 0x80 != 0) == (x >= 128)) by (bit_vector);
    assert(x >> 4u8 == x / 16) by (bit_vector);
}

} // verus!

verus! {

/// Bit masks of 16- and 32-bit values as arithmetic.
pub proof fn lemma_wide_bits(x: u16, y: u32)
    ensures
        (x & 0x8000 != 0) == (x >= 0x8000),
        x & 0x7fff == x % 0x8000,
        y & 1 == y % 2,
{
    assert((x & 0x8000 != 0) == (x >= 0x8000)) by (bit_vector);
    assert(x & 0x7fff == x % 0x8000) by (bit_vector);
    assert(y & 1 == y % 2) by (bit_vector);
}

} // verus!
