//! JPEG marker segments written before the entropy-coded data (SOI, APP0, DQT, SOF0, DHT, SOS).

use vstd::prelude::*;
use crate::encoder::jpeg::huffman::{
    AC_CHROMA_BITS, AC_CHROMA_HUFFVAL, AC_LUMA_BITS, AC_LUMA_HUFFVAL, DC_CHROMA_BITS,
    DC_CHROMA_HUFFVAL, DC_LUMA_BITS, DC_LUMA_HUFFVAL,
};
use crate::encoder::jpeg::quant::ZIGZAG;

verus! {

/// Start-of-image marker.
pub open spec fn soi() -> Seq<u8> {
    seq![0xFFu8, 0xD8]
}

/// JFIF APP0 segment: version 1.1, no density units, 1:1 aspect, no thumbnail.
pub open spec fn app0() -> Seq<u8> {
    seq![0xFFu8, 0xE0, 0x00, 0x10, 0x4A, 0x46, 0x49, 0x46, 0x00, 0x01, 0x01, 0x00, 0x00, 0x01, 0x00,
        0x01, 0x00, 0x00]
}

/// A quantization table in zigzag order.
pub open spec fn zigzag_table(q: Seq<u8>) -> Seq<u8> {
    Seq::new(64, |i: int| q[ZIGZAG@[i] as int])
}

/// DQT segment with the luminance table (0) and the chrominance table (1).
pub open spec fn dqt(q_luma: Seq<u8>, q_chroma: Seq<u8>) -> Seq<u8> {
    seq![0xFFu8, 0xDB, 0x00, 0x84, 0x00] + zigzag_table(q_luma) + seq![0x01u8] + zigzag_table(q_chroma)
}

/// The low byte of `v`.
pub open spec fn lo(v: int) -> u8 {
    (v % 256) as u8
}

/// The second byte of `v`, counting from the low end.
pub open spec fn hi(v: int) -> u8 {
    (v / 256 % 256) as u8
}

/// SOF0 segment: 8-bit samples, the height and width (16 bits each, truncated), three
/// components with 1x1 sampling; Y uses table 0, Cb and Cr table 1.
pub open spec fn sof0(width: int, height: int) -> Seq<u8> {
    seq![0xFFu8, 0xC0, 0x00, 0x11, 0x08, hi(height), lo(height), hi(width), lo(width), 3, 1, 0x11,
        0, 2, 0x11, 1, 3, 0x11, 1]
}

/// One DHT segment: marker, length (3 + 16 + number of symbols), class and id, the counts
/// per length and the symbols.
pub open spec fn dht(class_id: u8, bits: Seq<u8>, huffval: Seq<u8>) -> Seq<u8> {
    let len: int = 3 + 16 + huffval.len() as int;
    seq![0xFFu8, 0xC4, hi(len), lo(len), class_id] + bits + huffval
}

/// The four standard Huffman tables: DC luminance (0x00), AC luminance (0x10), DC
/// chrominance (0x01), AC chrominance (0x11).
pub open spec fn dht_all() -> Seq<u8> {
    dht(0x00, DC_LUMA_BITS@, DC_LUMA_HUFFVAL@) + dht(0x10, AC_LUMA_BITS@, AC_LUMA_HUFFVAL@)
        + dht(0x01, DC_CHROMA_BITS@, DC_CHROMA_HUFFVAL@) + dht(0x11, AC_CHROMA_BITS@, AC_CHROMA_HUFFVAL@)
}

/// SOS segment: three components (Y with tables 0/0, Cb and Cr with 1/1), full spectral
/// range, no approximation.
pub open spec fn sos() -> Seq<u8> {
    seq![0xFFu8, 0xDA, 0x00, 0x0C, 3, 1, 0x00, 2, 0x11, 3, 0x11, 0, 63, 0]
}

/// Everything written before the entropy-coded data.
pub open spec fn spec_headers(width: int, height: int, q_luma: Seq<u8>, q_chroma: Seq<u8>) -> Seq<u8> {
    soi() + app0() + dqt(q_luma, q_chroma) + sof0(width, height) + dht_all() + sos()
}

/// Appends a slice of bytes.
fn push_bytes(out: &mut Vec<u8>, bytes: &[u8])
    ensures
        final(out)@ == old(out)@ + bytes@,
{
    let mut i: usize = 0;
    while i < bytes.len()
        invariant
            i <= bytes@.len(),
            out@ == old(out)@ + bytes@.subrange(0, i as int),
        decreases bytes@.len() - i,
    {
        out.push(bytes[i]);
        i = i + 1;
        assert(out@ =~= old(out)@ + bytes@.subrange(0, i as int));
    }
    assert(bytes@.subrange(0, i as int) =~= bytes@);
}

/// Appends a quantization table in zigzag order.
fn push_zigzag(out: &mut Vec<u8>, q: &[u8; 64])
    ensures
        final(out)@ == old(out)@ + zigzag_table(q@),
{
    let mut i: usize = 0;
    while i < 64
        invariant
            i <= 64,
            out@ == old(out)@ + zigzag_table(q@).subrange(0, i as int),
        decreases 64 - i,
    {
        assert(ZIGZAG@[i as int] < 64) by {
            assert(ZIGZAG@ =~= seq![
                0usize, 1, 8, 16, 9, 2, 3, 10, 17, 24, 32, 25, 18, 11, 4, 5,
                12, 19, 26, 33, 40, 48, 41, 34, 27, 20, 13, 6, 7, 14, 21, 28,
                35, 42, 49, 56, 57, 50, 43, 36, 29, 22, 15, 23, 30, 37, 44, 51,
                58, 59, 52, 45, 38, 31, 39, 46, 53, 60, 61, 54, 47, 55, 62, 63]);
        }
        out.push(q[ZIGZAG[i]]);
        i = i + 1;
        assert(out@ =~= old(out)@ + zigzag_table(q@).subrange(0, i as int));
    }
    assert(zigzag_table(q@).subrange(0, 64) =~= zigzag_table(q@));
}

/// Appends one DHT segment.
fn push_dht(out: &mut Vec<u8>, class_id: u8, bits: &[u8; 16], huffval: &[u8])
    requires
        huffval@.len() <= 256,
    ensures
        final(out)@ == old(out)@ + dht(class_id, bits@, huffval@),
{
    let len: usize = 3 + 16 + huffval.len();
    push_bytes(out, &[0xFF, 0xC4, (len / 256 % 256) as u8, (len % 256) as u8, class_id]);
    push_bytes(out, bits);
    push_bytes(out, huffval);
    assert(final(out)@ =~= old(out)@ + dht(class_id, bits@, huffval@));
}

/// Writes the JPEG marker segments that precede the entropy-coded data of a baseline,
/// three-component image of the given size with the given quantization tables (natural
/// order).
pub fn write_headers(out: &mut Vec<u8>, width: usize, height: usize, q_luma: &[u8; 64], q_chroma: &[u8; 64])
    ensures
        final(out)@ == old(out)@ + spec_headers(width as int, height as int, q_luma@, q_chroma@),
{
    push_bytes(out, &[0xFF, 0xD8]);
    push_bytes(out, &[
        0xFF, 0xE0, 0x00, 0x10, 0x4A, 0x46, 0x49, 0x46, 0x00, 0x01, 0x01, 0x00, 0x00, 0x01, 0x00,
        0x01, 0x00, 0x00,
    ]);
    let ghost after_app0 = out@;
    push_bytes(out, &[0xFF, 0xDB, 0x00, 0x84, 0x00]);
    push_zigzag(out, q_luma);
    out.push(0x01);
    push_zigzag(out, q_chroma);
    assert(out@ =~= after_app0 + dqt(q_luma@, q_chroma@));
    push_bytes(out, &[
        0xFF, 0xC0, 0x00, 0x11, 0x08,
        (height / 256 % 256) as u8, (height % 256) as u8,
        (width / 256 % 256) as u8, (width % 256) as u8,
        3, 1, 0x11, 0, 2, 0x11, 1, 3, 0x11, 1,
    ]);
    let ghost after_sof = out@;
    push_dht(out, 0x00, &DC_LUMA_BITS, &DC_LUMA_HUFFVAL);
    push_dht(out, 0x10, &AC_LUMA_BITS, &AC_LUMA_HUFFVAL);
    push_dht(out, 0x01, &DC_CHROMA_BITS, &DC_CHROMA_HUFFVAL);
    push_dht(out, 0x11, &AC_CHROMA_BITS, &AC_CHROMA_HUFFVAL);
    assert(out@ =~= after_sof + dht_all());
    push_bytes(out, &[0xFF, 0xDA, 0x00, 0x0C, 3, 1, 0x00, 2, 0x11, 3, 0x11, 0, 63, 0]);
    assert(final(out)@ =~= old(out)@ + spec_headers(width as int, height as int, q_luma@, q_chroma@));
}

} // verus!
