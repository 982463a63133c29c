//! ISOBMFF box headers: standard 8-byte, extended 16-byte, and full-box version/flags.

use crate::boxes::fourcc;
use crate::boxes::fourcc::{read_fourcc, FourCC};
use crate::bytes;
use crate::bytes::{read_be32, read_be64};
use crate::error;
use crate::error::{ErrorKind, HeicError, HeicResult};
use vstd::prelude::*;

verus! {

/// Generic ISOBMFF box header (8-byte standard or 16-byte extended).
#[derive(Debug, Clone, Copy, PartialEq, Eq)]
pub struct BoxHeader {
    /// The four-character code of this box.
    pub box_type: FourCC,
    /// Total box size in bytes including the header.
    pub size: u64,
    /// Header size in bytes (8 for 32-bit sizes, 16 for 64-bit sizes).
    pub header_size: usize,
}

/// The header at the start of `s`: a 32-bit size and a type; size 1 announces a 64-bit
/// size after the type, size 0 means "to the end of the input".
pub open spec fn spec_box_header(s: Seq<u8>) -> Result<BoxHeader, ErrorKind> {
    if s.len() < 8 {
        Err(ErrorKind::MalformedInput)
    } else {
        let size_raw = bytes::be32_at(s, 0);
        let box_type = fourcc::fourcc_at(s, 4);
        if size_raw == 1 {
            if s.len() < 16 {
                Err(ErrorKind::MalformedInput)
            } else if bytes::be64_at(s, 8) < 16 {
                Err(ErrorKind::InvalidContainer)
            } else {
                Ok(BoxHeader { box_type, size: bytes::be64_at(s, 8) as u64, header_size: 16 })
            }
        } else if size_raw == 0 {
            Ok(BoxHeader { box_type, size: s.len() as u64, header_size: 8 })
        } else if size_raw < 8 {
            Err(ErrorKind::InvalidContainer)
        } else {
            Ok(BoxHeader { box_type, size: size_raw as u64, header_size: 8 })
        }
    }
}

/// The payload `input[from..size]` of a box whose total size is `size`: fails when the size
/// does not fit the address space, when the input is shorter than the box, or when the box
/// is too small to hold its own header.
pub open spec fn spec_payload_range(input_len: int, size: int, from: int) -> Result<(int, int), ErrorKind> {
    if size > usize::MAX {
        Err(ErrorKind::LimitExceeded)
    } else if input_len < size {
        Err(ErrorKind::MalformedInput)
    } else if from > size {
        Err(ErrorKind::MalformedInput)
    } else {
        Ok((from, size))
    }
}

/// Payload bytes selected by [`spec_payload_range`].
pub open spec fn spec_payload(input: Seq<u8>, size: int, from: int) -> Result<Seq<u8>, ErrorKind> {
    match spec_payload_range(input.len() as int, size, from) {
        Ok((a, b)) => Ok(input.subrange(a, b)),
        Err(k) => Err(k),
    }
}

/// Whether a borrowed payload result matches [`spec_payload`].
pub open spec fn agrees_bytes(r: HeicResult<&[u8]>, s: Result<Seq<u8>, ErrorKind>) -> bool {
    match r {
        Ok(p) => s == Ok::<Seq<u8>, ErrorKind>(p@),
        Err(e) => s == Err::<Seq<u8>, ErrorKind>(e.kind()),
    }
}

/// Slices `input[from..size]` as described by [`spec_payload`].
fn payload_slice<'a>(input: &'a [u8], size: u64, from: usize) -> (r: HeicResult<&'a [u8]>)
    ensures
        agrees_bytes(r, spec_payload(input@, size as int, from as int)),
{
    if size > usize::MAX as u64 {
        return Err(HeicError::limit_exceeded("Box size exceeds addressable memory"));
    }
    let total_size = size as usize;
    if input.len() < total_size {
        return Err(HeicError::malformed("Box truncated"));
    }
    if from > total_size {
        return Err(HeicError::malformed("Box size smaller than its header"));
    }
    Ok(&input[from..total_size])
}

impl BoxHeader {
    /// Parses a box header from the beginning of a byte slice.
    pub fn parse(input: &[u8]) -> (r: HeicResult<Self>)
        ensures
            error::agrees(r, spec_box_header(input@)),
    {
        if input.len() < 8 {
            return Err(HeicError::malformed("Insufficient bytes for ISOBMFF box header"));
        }
        let size_raw = read_be32(input, 0);
        let box_type = read_fourcc(input, 4);
        if size_raw == 1 {
            if input.len() < 16 {
                return Err(
                    HeicError::malformed("Insufficient bytes for extended 64-bit box header"),
                );
            }
            let extended_size = read_be64(input, 8);
            if extended_size < 16 {
                return Err(HeicError::invalid_container("Invalid 64-bit box size"));
            }
            Ok(BoxHeader { box_type, size: extended_size, header_size: 16 })
        } else if size_raw == 0 {
            Ok(BoxHeader { box_type, size: input.len() as u64, header_size: 8 })
        } else if size_raw < 8 {
            Err(HeicError::invalid_container("Invalid box size smaller than its header"))
        } else {
            Ok(BoxHeader { box_type, size: size_raw as u64, header_size: 8 })
        }
    }

    /// Payload size in bytes excluding the header (saturating at zero).
    pub open spec fn spec_payload_size(&self) -> int {
        if self.size >= self.header_size { self.size - self.header_size } else { 0 }
    }

    /// Computes the payload size in bytes excluding the header.
    pub fn payload_size(&self) -> (n: u64)
        ensures
            n == self.spec_payload_size(),
    {
        let h = self.header_size as u64;
        if self.size >= h {
            self.size - h
        } else {
            0
        }
    }

    /// Extracts the payload of this box from `input`, the bytes starting at the box.
    pub fn payload<'a>(&self, input: &'a [u8]) -> (r: HeicResult<&'a [u8]>)
        ensures
            agrees_bytes(r, spec_payload(input@, self.size as int, self.header_size as int)),
    {
        payload_slice(input, self.size, self.header_size)
    }
}

/// Full box header: a box header followed by a version byte and 24 bits of flags.
#[derive(Debug, Clone, Copy, PartialEq, Eq)]
pub struct FullBoxHeader {
    /// Base box header.
    pub header: BoxHeader,
    /// Box version.
    pub version: u8,
    /// 24-bit flags.
    pub flags: u32,
    /// Total header length including the four version/flags bytes.
    pub total_header_size: usize,
}

/// The full box header at the start of `s`.
pub open spec fn spec_full_box_header(s: Seq<u8>) -> Result<FullBoxHeader, ErrorKind> {
    match spec_box_header(s) {
        Err(k) => Err(k),
        Ok(header) => {
            let start = header.header_size as int;
            if s.len() < start + 4 {
                Err(ErrorKind::MalformedInput)
            } else {
                Ok(FullBoxHeader {
                    header,
                    version: s[start],
                    flags: (s[start + 1] * 65536 + s[start + 2] * 256 + s[start + 3]) as u32,
                    total_header_size: (start + 4) as usize,
                })
            }
        },
    }
}

impl FullBoxHeader {
    /// Parses a full box header from the beginning of a byte slice.
    pub fn parse(input: &[u8]) -> (r: HeicResult<Self>)
        ensures
            error::agrees(r, spec_full_box_header(input@)),
    {
        let header = BoxHeader::parse(input)?;
        let start = header.header_size;
        if input.len() < start + 4 {
            return Err(HeicError::malformed("Insufficient bytes for full box header"));
        }
        let version = input[start];
        let flags = (input[start + 1] as u32) * 65536 + (input[start + 2] as u32) * 256
            + input[start + 3] as u32;
        Ok(FullBoxHeader { header, version, flags, total_header_size: start + 4 })
    }

    /// Extracts the payload after the version and flags from `input`, the bytes starting at
    /// the box.
    pub fn payload<'a>(&self, input: &'a [u8]) -> (r: HeicResult<&'a [u8]>)
        ensures
            agrees_bytes(
                r,
                spec_payload(input@, self.header.size as int, self.total_header_size as int),
            ),
    {
        payload_slice(input, self.header.size, self.total_header_size)
    }
}

} // verus!
