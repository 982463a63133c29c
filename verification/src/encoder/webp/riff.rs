//! RIFF container framing of WebP files.

use crate::text::append_bytes;
use vstd::prelude::*;

verus! {

/// Little-endian bytes of a 32-bit value.
pub open spec fn le32_bytes(v: int) -> Seq<u8> {
    seq![(v % 256) as u8, (v / 256 % 256) as u8, (v / 65536 % 256) as u8, (v / 16777216 % 256) as u8]
}

/// Appends the little-endian bytes of `v`.
fn push_le32(out: &mut Vec<u8>, v: u32)
    ensures
        final(out)@ == old(out)@ + le32_bytes(v as int),
{
    out.push((v % 256) as u8);
    out.push((v / 256 % 256) as u8);
    out.push((v / 65536 % 256) as u8);
    out.push((v / 16777216) as u8);
    assert(final(out)@ =~= old(out)@ + le32_bytes(v as int));
}

/// The ASCII bytes of `RIFF`.
pub open spec fn riff_tag() -> Seq<u8> {
    seq![82u8, 73u8, 70u8, 70u8]
}

/// The ASCII bytes of `WEBP`.
pub open spec fn webp_tag() -> Seq<u8> {
    seq![87u8, 69u8, 66u8, 80u8]
}

/// The ASCII bytes of `VP8L`.
pub open spec fn vp8l_tag() -> Seq<u8> {
    seq![86u8, 80u8, 56u8, 76u8]
}

/// A WebP file holding one `VP8L` chunk: `RIFF`, the RIFF size (12 plus the chunk length,
/// rounded up to even), `WEBP`, `VP8L`, the chunk length (modulo 2^32), the data, and a
/// zero pad byte after data of odd length.
pub open spec fn spec_riff_webp(data: Seq<u8>) -> Seq<u8> {
    let len = (data.len() as u32) as int;
    riff_tag() + le32_bytes(12 + len + len % 2) + webp_tag() + vp8l_tag() + le32_bytes(len) + data
        + (if len % 2 == 1 { seq![0u8] } else { Seq::empty() })
}

/// Wraps a VP8L bitstream in a RIFF/WEBP container.
pub fn wrap_riff_webp(vp8l_data: &[u8]) -> (out: Vec<u8>)
    requires
        (vp8l_data@.len() as u32) as int + 12 + (vp8l_data@.len() as u32) as int % 2 <= u32::MAX,
    ensures
        out@ == spec_riff_webp(vp8l_data@),
{
    let mut out: Vec<u8> = Vec::new();
    let len = vp8l_data.len() as u32;
    let riff_len = 4 + 8 + len + len % 2;
    let riff: [u8; 4] = [82, 73, 70, 70];
    let webp: [u8; 4] = [87, 69, 66, 80];
    let vp8l: [u8; 4] = [86, 80, 56, 76];
    append_bytes(&mut out, riff.as_slice());
    push_le32(&mut out, riff_len);
    append_bytes(&mut out, webp.as_slice());
    append_bytes(&mut out, vp8l.as_slice());
    push_le32(&mut out, len);
    append_bytes(&mut out, vp8l_data);
    if len % 2 != 0 {
        out.push(0x00);
    }
    assert(out@ =~= spec_riff_webp(vp8l_data@));
    out
}

/// RIFF framing: a WebP file has even length, its RIFF size field holds the length after
/// the first 8 bytes, and its `VP8L` chunk holds the chunk length followed by the data.
pub proof fn lemma_riff_framing(data: Seq<u8>)
    requires
        data.len() + 12 + data.len() % 2 <= u32::MAX,
    ensures
        spec_riff_webp(data).len() % 2 == 0,
        spec_riff_webp(data).subrange(0, 4) == riff_tag(),
        spec_riff_webp(data).subrange(4, 8) == le32_bytes(spec_riff_webp(data).len() - 8),
        spec_riff_webp(data).subrange(8, 12) == webp_tag(),
        spec_riff_webp(data).subrange(12, 16) == vp8l_tag(),
        spec_riff_webp(data).subrange(16, 20) == le32_bytes(data.len() as int),
        spec_riff_webp(data).subrange(20, 20 + data.len() as int) == data,
{
    let len = data.len() as int;
    assert((data.len() as u32) as int == len);
    let out = spec_riff_webp(data);
    let size = 12 + len + len % 2;
    let pad = if len % 2 == 1 { seq![0u8] } else { Seq::<u8>::empty() };
    let head = riff_tag() + le32_bytes(size) + webp_tag() + vp8l_tag() + le32_bytes(len);
    assert(head.len() == 20);
    assert(out == head + data + pad);
    assert(out.len() - 8 == size);
    assert(out.subrange(0, 20) =~= head);
    assert(head.subrange(0, 4) =~= riff_tag());
    assert(head.subrange(4, 8) =~= le32_bytes(size));
    assert(head.subrange(8, 12) =~= webp_tag());
    assert(head.subrange(12, 16) =~= vp8l_tag());
    assert(head.subrange(16, 20) =~= le32_bytes(len));
    assert(out.subrange(20, 20 + len) =~= data);
}

} // verus!
