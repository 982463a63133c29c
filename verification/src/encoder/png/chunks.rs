//! PNG chunk framing.

use crate::encoder::png::deflate::{be32_bytes, crc32, push_be32, spec_crc32};
use crate::text::append_bytes;
use vstd::prelude::*;

verus! {

/// A PNG chunk: the data length (modulo 2^32, big-endian), the type, the data, and the
/// CRC-32 of type and data.
pub open spec fn spec_chunk(chunk_type: Seq<u8>, data: Seq<u8>) -> Seq<u8> {
    be32_bytes((data.len() as u32) as int) + chunk_type + data + be32_bytes(spec_crc32(chunk_type + data) as int)
}

/// Appends a PNG chunk with its length, type, data and CRC-32.
pub fn write_chunk(dest: &mut Vec<u8>, chunk_type: &[u8; 4], data: &[u8])
    ensures
        final(dest)@ == old(dest)@ + spec_chunk(chunk_type@, data@),
{
    let len = data.len() as u32;
    push_be32(dest, len);
    append_bytes(dest, chunk_type.as_slice());
    append_bytes(dest, data);
    let mut crc_payload: Vec<u8> = Vec::new();
    append_bytes(&mut crc_payload, chunk_type.as_slice());
    append_bytes(&mut crc_payload, data);
    let crc = crc32(crc_payload.as_slice());
    push_be32(dest, crc);
    assert(crc_payload@ =~= chunk_type@ + data@);
    assert(final(dest)@ =~= old(dest)@ + spec_chunk(chunk_type@, data@));
}

/// The `IHDR` chunk type.
pub open spec fn ihdr_type() -> Seq<u8> {
    seq![73u8, 72u8, 68u8, 82u8]
}

/// The 13 bytes of an `IHDR` payload: width, height, bit depth 8, the colour type, and zero
/// compression, filter and interlace methods.
pub open spec fn spec_ihdr_data(width: u32, height: u32, color_type: u8) -> Seq<u8> {
    be32_bytes(width as int) + be32_bytes(height as int) + seq![8u8, color_type, 0u8, 0u8, 0u8]
}

/// Appends the `IHDR` image header chunk.
pub fn write_ihdr(dest: &mut Vec<u8>, width: u32, height: u32, color_type: u8)
    ensures
        final(dest)@ == old(dest)@ + spec_chunk(ihdr_type(), spec_ihdr_data(width, height, color_type)),
{
    let mut ihdr_data: Vec<u8> = Vec::new();
    push_be32(&mut ihdr_data, width);
    push_be32(&mut ihdr_data, height);
    ihdr_data.push(8);
    ihdr_data.push(color_type);
    ihdr_data.push(0);
    ihdr_data.push(0);
    ihdr_data.push(0);
    assert(ihdr_data@ =~= spec_ihdr_data(width, height, color_type));
    let t: [u8; 4] = [73, 72, 68, 82];
    assert(t@ =~= ihdr_type());
    write_chunk(dest, &t, ihdr_data.as_slice());
}

} // verus!
