//! Checksums (CRC-32, Adler-32) and the zlib container with stored deflate blocks
//! (RFC 1950 and 1951).

use crate::text::append_bytes;
use vstd::prelude::*;

verus! {

/// One bit step of the reflected CRC-32 (polynomial `0xEDB88320`).
pub open spec fn crc_step(c: u32) -> u32 {
    if c % 2 == 1 { (c >> 1u32) ^ 0xEDB8_8320u32 } else { c >> 1u32 }
}

/// `n` bit steps.
pub open spec fn crc_steps(c: u32, n: nat) -> u32
    decreases n,
{
    if n == 0 { c } else { crc_step(crc_steps(c, (n - 1) as nat)) }
}

/// The CRC register after `data`, starting from all ones.
pub open spec fn crc_register(data: Seq<u8>) -> u32
    decreases data.len(),
{
    if data.len() == 0 {
        0xFFFF_FFFFu32
    } else {
        crc_steps(crc_register(data.drop_last()) ^ (data.last() as u32), 8)
    }
}

/// The IEEE 802.3 CRC-32 of `data`: the final register, inverted.
pub open spec fn spec_crc32(data: Seq<u8>) -> u32 {
    !crc_register(data)
}

/// One step of the register.
fn crc_step_exec(c: u32) -> (r: u32)
    ensures
        r == crc_step(c),
{
    let mask: u32 = if c & 1 == 1 { 0xFFFF_FFFF } else { 0 };
    let r = (c >> 1u32) ^ (0xEDB8_8320u32 & mask);
    assert((c & 1 == 1) == (c % 2 == 1)) by (bit_vector);
    assert(0xEDB8_8320u32 & 0xFFFF_FFFFu32 == 0xEDB8_8320u32 && 0xEDB8_8320u32 & 0u32 == 0u32 && (c >> 1u32) ^ 0u32 == c >> 1u32) by (bit_vector);
    r
}

/// Computes the IEEE 802.3 CRC-32 of `data`.
pub fn crc32(data: &[u8]) -> (crc: u32)
    ensures
        crc == spec_crc32(data@),
{
    let n = data.len();
    let mut crc: u32 = 0xFFFF_FFFF;
    let mut i: usize = 0;
    while i < n
        invariant
            n == data@.len(),
            i <= n,
            crc == crc_register(data@.take(i as int)),
        decreases n - i,
    {
        assert(data@.take(i + 1).drop_last() =~= data@.take(i as int));
        let start = crc ^ (data[i] as u32);
        let mut c = start;
        let mut k: u32 = 0;
        while k < 8
            invariant
                k <= 8,
                c == crc_steps(start, k as nat),
            decreases 8 - k,
        {
            c = crc_step_exec(c);
            k = k + 1;
        }
        crc = c;
        i = i + 1;
    }
    assert(data@.take(n as int) =~= data@);
    !crc
}

/// The Adler-32 sums `(s1, s2)` after `data`, starting from `(1, 0)`, both modulo 65521.
pub open spec fn adler_sums(data: Seq<u8>) -> (int, int)
    decreases data.len(),
{
    if data.len() == 0 {
        (1, 0)
    } else {
        let prev = adler_sums(data.drop_last());
        let s1 = (prev.0 + data.last()) % 65521;
        (s1, (prev.1 + s1) % 65521)
    }
}

/// The Adler-32 checksum of `data`: `s2 * 65536 + s1`.
pub open spec fn spec_adler32(data: Seq<u8>) -> int {
    adler_sums(data).1 * 65536 + adler_sums(data).0
}

/// Computes the Adler-32 checksum of `data` (RFC 1950).
pub fn adler32(data: &[u8]) -> (a: u32)
    ensures
        a == spec_adler32(data@),
{
    let n = data.len();
    let mut s1: u32 = 1;
    let mut s2: u32 = 0;
    let mut i: usize = 0;
    while i < n
        invariant
            n == data@.len(),
            i <= n,
            (s1 as int, s2 as int) == adler_sums(data@.take(i as int)),
            s1 < 65521,
            s2 < 65521,
        decreases n - i,
    {
        assert(data@.take(i + 1).drop_last() =~= data@.take(i as int));
        s1 = (s1 + data[i] as u32) % 65521;
        s2 = (s2 + s1) % 65521;
        i = i + 1;
    }
    assert(data@.take(n as int) =~= data@);
    assert((s2 << 16u32) | s1 == s2 * 65536 + s1) by (bit_vector)
        requires
            s1 < 65536,
            s2 < 65536,
    ;
    (s2 << 16u32) | s1
}

/// Big-endian bytes of a 32-bit value.
pub open spec fn be32_bytes(v: int) -> Seq<u8> {
    seq![(v / 16777216 % 256) as u8, (v / 65536 % 256) as u8, (v / 256 % 256) as u8, (v % 256) as u8]
}

/// Appends the big-endian bytes of `v`.
pub fn push_be32(out: &mut Vec<u8>, v: u32)
    ensures
        final(out)@ == old(out)@ + be32_bytes(v as int),
{
    out.push((v / 16777216) as u8);
    out.push((v / 65536 % 256) as u8);
    out.push((v / 256 % 256) as u8);
    out.push((v % 256) as u8);
    assert(final(out)@ =~= old(out)@ + be32_bytes(v as int));
}

/// Maximum payload of one stored deflate block.
pub open spec fn block_size() -> int {
    65535
}

/// Stored deflate blocks holding `data` from `from` on: each block has a header byte (1 for
/// the last block, else 0), its length and the length's complement (little-endian), then up
/// to 65535 bytes.
pub open spec fn stored_blocks(data: Seq<u8>, from: int) -> Seq<u8>
    decreases data.len() - from,
{
    if from < 0 || from >= data.len() {
        Seq::empty()
    } else {
        let len = if data.len() - from > block_size() { block_size() } else { data.len() - from };
        let last = from + len >= data.len();
        seq![if last { 1u8 } else { 0u8 }, (len % 256) as u8, (len / 256) as u8,
            ((65535 - len) % 256) as u8, ((65535 - len) / 256) as u8]
            + data.subrange(from, from + len) + stored_blocks(data, from + len)
    }
}

/// The zlib stream of `data`: header `78 01`, stored deflate blocks (a single empty final
/// block for empty data), then the big-endian Adler-32 of `data`.
pub open spec fn spec_deflate_zlib(data: Seq<u8>) -> Seq<u8> {
    seq![0x78u8, 0x01u8] + (if data.len() == 0 {
        seq![0x01u8, 0x00u8, 0x00u8, 0xFFu8, 0xFFu8]
    } else {
        stored_blocks(data, 0)
    }) + be32_bytes(spec_adler32(data))
}

/// Wraps data in a zlib container of stored (uncompressed) deflate blocks.
pub fn deflate_zlib(uncompressed: &[u8]) -> (zlib: Vec<u8>)
    ensures
        zlib@ == spec_deflate_zlib(uncompressed@),
{
    let n = uncompressed.len();
    let mut zlib: Vec<u8> = Vec::new();
    zlib.push(0x78);
    zlib.push(0x01);
    let ghost head = zlib@;
    if n == 0 {
        zlib.push(0x01);
        zlib.push(0x00);
        zlib.push(0x00);
        zlib.push(0xFF);
        zlib.push(0xFF);
    } else {
        let mut from: usize = 0;
        while from < n
            invariant
                n == uncompressed@.len(),
                from <= n,
                head == seq![0x78u8, 0x01u8],
                stored_blocks(uncompressed@, 0) == zlib@.skip(2) + stored_blocks(uncompressed@, from as int),
                zlib@.take(2) == head,
                zlib@.len() >= 2,
            decreases n - from,
        {
            let len: usize = if n - from > 65535 { 65535 } else { n - from };
            let last = from + len >= n;
            let ghost before = zlib@;
            zlib.push(if last { 1 } else { 0 });
            zlib.push((len % 256) as u8);
            zlib.push((len / 256) as u8);
            zlib.push(((65535 - len) % 256) as u8);
            zlib.push(((65535 - len) / 256) as u8);
            append_bytes(&mut zlib, &uncompressed[from..from + len]);
            proof {
                assert(zlib@.take(2) =~= head);
                assert(zlib@.skip(2) =~= before.skip(2) + (seq![if last { 1u8 } else { 0u8 }, (len % 256) as u8, (len / 256) as u8,
                    ((65535 - len) % 256) as u8, ((65535 - len) / 256) as u8] + uncompressed@.subrange(from as int, from + len)));
            }
            from = from + len;
        }
        proof {
            assert(zlib@ =~= head + zlib@.skip(2));
        }
    }
    let adler = adler32(uncompressed);
    push_be32(&mut zlib, adler);
    assert(zlib@ =~= spec_deflate_zlib(uncompressed@));
    zlib
}

/// The data held by a run of stored deflate blocks that ends with its final block: each
/// block is a header byte (1 final, 0 not), a little-endian length and its complement, then
/// that many bytes. `None` for anything else.
pub open spec fn inflate_stored(s: Seq<u8>) -> Option<Seq<u8>>
    decreases s.len(),
{
    if s.len() < 5 {
        None
    } else {
        let len = s[1] as int + 256 * s[2] as int;
        let nlen = s[3] as int + 256 * s[4] as int;
        if nlen != 65535 - len || s.len() < 5 + len {
            None
        } else {
            let payload = s.subrange(5, 5 + len);
            let rest = s.subrange(5 + len, s.len() as int);
            if s[0] == 1 {
                if rest.len() == 0 { Some(payload) } else { None }
            } else if s[0] == 0 {
                match inflate_stored(rest) {
                    Some(p) => Some(payload + p),
                    None => None,
                }
            } else {
                None
            }
        }
    }
}

/// The data of a zlib stream made of stored blocks: header `78 01`, the blocks, and a
/// big-endian Adler-32 that must match the data. `None` for anything else.
pub open spec fn inflate_zlib(z: Seq<u8>) -> Option<Seq<u8>> {
    if z.len() < 6 || z[0] != 0x78 || z[1] != 0x01 {
        None
    } else {
        match inflate_stored(z.subrange(2, z.len() - 4)) {
            Some(d) => if z.subrange(z.len() - 4, z.len() as int) == be32_bytes(spec_adler32(d)) {
                Some(d)
            } else {
                None
            },
            None => None,
        }
    }
}

/// The stored blocks of `data` from `from` on hold exactly the rest of `data`.
proof fn lemma_inflate_blocks(data: Seq<u8>, from: int)
    requires
        0 <= from < data.len(),
    ensures
        inflate_stored(stored_blocks(data, from)) == Some(data.subrange(from, data.len() as int)),
    decreases data.len() - from,
{
    let len = if data.len() - from > block_size() { block_size() } else { data.len() - from };
    let last = from + len >= data.len();
    let s = stored_blocks(data, from);
    let hdr = seq![if last { 1u8 } else { 0u8 }, (len % 256) as u8, (len / 256) as u8,
        ((65535 - len) % 256) as u8, ((65535 - len) / 256) as u8];
    let payload = data.subrange(from, from + len);
    let rest = stored_blocks(data, from + len);
    assert(s == hdr + payload + rest);
    assert(s[1] as int + 256 * s[2] as int == len);
    assert(s[3] as int + 256 * s[4] as int == 65535 - len);
    assert(s.subrange(5, 5 + len) =~= payload);
    assert(s.subrange(5 + len, s.len() as int) =~= rest);
    if last {
        assert(rest.len() == 0);
        assert(payload =~= data.subrange(from, data.len() as int));
    } else {
        lemma_inflate_blocks(data, from + len);
        assert(payload + data.subrange(from + len, data.len() as int) =~= data.subrange(from, data.len() as int));
    }
}

/// Round trip: the zlib stream that `deflate_zlib` writes for any data decodes back to that
/// data, and its checksum matches.
pub proof fn lemma_zlib_round_trip(data: Seq<u8>)
    ensures
        inflate_zlib(spec_deflate_zlib(data)) == Some(data),
{
    let z = spec_deflate_zlib(data);
    let body = if data.len() == 0 {
        seq![0x01u8, 0x00u8, 0x00u8, 0xFFu8, 0xFFu8]
    } else {
        stored_blocks(data, 0)
    };
    let tail = be32_bytes(spec_adler32(data));
    assert(z == seq![0x78u8, 0x01u8] + body + tail);
    assert(z.subrange(2, z.len() - 4) =~= body);
    assert(z.subrange(z.len() - 4, z.len() as int) =~= tail);
    if data.len() == 0 {
        assert(body.subrange(5, 5) =~= data);
        assert(body.subrange(5, body.len() as int).len() == 0);
    } else {
        lemma_inflate_blocks(data, 0);
        assert(data.subrange(0, data.len() as int) =~= data);
        assert(body.len() >= 5);
    }
}

} // verus!
