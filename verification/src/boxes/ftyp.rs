//! `ftyp` (file type box) parsing and brand compatibility.

use crate::boxes::fourcc;
use crate::boxes::fourcc::{brand_in, read_brand, FourCC};
use crate::boxes::header;
use crate::boxes::header::BoxHeader;
use crate::bytes;
use crate::bytes::read_be32;
use crate::error::{ErrorKind, HeicError, HeicResult};
use vstd::prelude::*;

verus! {

/// ISO-BMFF file type box (`ftyp`).
#[derive(Debug, Clone, PartialEq, Eq)]
pub struct FileTypeBox {
    /// The major brand (e.g. `heic`, `mif1`).
    pub major_brand: [u8; 4],
    /// Minor version.
    pub minor_version: u32,
    /// Compatible brands in declaration order.
    pub compatible_brands: Vec<[u8; 4]>,
}

/// Mathematical content of a [`FileTypeBox`].
pub struct FileTypeBoxView {
    /// The major brand.
    pub major_brand: [u8; 4],
    /// Minor version.
    pub minor_version: u32,
    /// Compatible brands in declaration order.
    pub compatible_brands: Seq<[u8; 4]>,
}

impl View for FileTypeBox {
    type V = FileTypeBoxView;

    open spec fn view(&self) -> FileTypeBoxView {
        FileTypeBoxView {
            major_brand: self.major_brand,
            minor_version: self.minor_version,
            compatible_brands: self.compatible_brands@,
        }
    }
}

/// The complete four-byte groups of `s` from offset `from` on, in order; a trailing partial
/// group is ignored.
pub open spec fn spec_brand_list(s: Seq<u8>, from: int) -> Seq<[u8; 4]>
    decreases s.len() - from,
{
    if from >= 0 && from + 4 <= s.len() {
        seq![fourcc::brand_at(s, from)] + spec_brand_list(s, from + 4)
    } else {
        Seq::empty()
    }
}

/// Collects [`spec_brand_list`] into a vector.
pub fn read_brand_list(s: &[u8], from: usize) -> (v: Vec<[u8; 4]>)
    ensures
        v@ == spec_brand_list(s@, from as int),
{
    let mut v: Vec<[u8; 4]> = Vec::new();
    let mut offset = from;
    let n = s.len();
    while offset <= n && n - offset >= 4
        invariant
            n == s@.len(),
            from <= offset,
            v@ + spec_brand_list(s@, offset as int) == spec_brand_list(s@, from as int),
        decreases n - offset,
    {
        let b = read_brand(s, offset);
        proof {
            assert(spec_brand_list(s@, offset as int) == seq![b] + spec_brand_list(
                s@,
                offset + 4,
            ));
            assert(v@.push(b) + spec_brand_list(s@, offset + 4) =~= v@ + (seq![b]
                + spec_brand_list(s@, offset + 4)));
        }
        v.push(b);
        offset = offset + 4;
    }
    assert(spec_brand_list(s@, offset as int) == Seq::<[u8; 4]>::empty());
    assert(v@ =~= v@ + Seq::<[u8; 4]>::empty());
    v
}

/// The `ftyp` box in `s` (bytes starting at the box): the type must be `ftyp`, the payload
/// must hold the major brand and minor version, and every following complete group of four
/// bytes is a compatible brand.
pub open spec fn spec_ftyp(s: Seq<u8>) -> Result<FileTypeBoxView, ErrorKind> {
    match header::spec_box_header(s) {
        Err(k) => Err(k),
        Ok(h) => if h.box_type != fourcc::spec_ftyp() {
            Err(ErrorKind::InvalidContainer)
        } else {
            match header::spec_payload(s, h.size as int, h.header_size as int) {
                Err(k) => Err(k),
                Ok(p) => if p.len() < 8 {
                    Err(ErrorKind::MalformedInput)
                } else {
                    Ok(
                        FileTypeBoxView {
                            major_brand: fourcc::brand_at(p, 0),
                            minor_version: bytes::be32_at(p, 4) as u32,
                            compatible_brands: spec_brand_list(p, 8),
                        },
                    )
                },
            }
        },
    }
}

impl FileTypeBox {
    /// Parses an `ftyp` box from its bytes (including the header).
    pub fn parse(input: &[u8]) -> (r: HeicResult<Self>)
        ensures
            crate::error::agrees_view(r, spec_ftyp(input@)),
    {
        let header = BoxHeader::parse(input)?;
        if !header.box_type.same(&FourCC::ftyp()) {
            return Err(HeicError::invalid_container("Expected 'ftyp' box"));
        }
        let payload = header.payload(input)?;
        if payload.len() < 8 {
            return Err(HeicError::malformed("Insufficient bytes for ftyp payload"));
        }
        let major_brand = read_brand(payload, 0);
        let minor_version = read_be32(payload, 4);
        let compatible_brands = read_brand_list(payload, 8);
        Ok(FileTypeBox { major_brand, minor_version, compatible_brands })
    }

    /// Whether the major brand or any compatible brand occurs in `supported_brands`.
    pub fn is_compatible(&self, supported_brands: &[[u8; 4]]) -> (r: bool)
        ensures
            r == (supported_brands@.contains(self.major_brand) || exists|i: int|
                0 <= i < self.compatible_brands@.len() && supported_brands@.contains(
                    #[trigger] self.compatible_brands@[i],
                )),
    {
        if brand_in(supported_brands, &self.major_brand) {
            return true;
        }
        let n = self.compatible_brands.len();
        let mut i: usize = 0;
        while i < n
            invariant
                n == self.compatible_brands@.len(),
                0 <= i <= n,
                !supported_brands@.contains(self.major_brand),
                forall|j: int|
                    0 <= j < i ==> !supported_brands@.contains(
                        #[trigger] self.compatible_brands@[j],
                    ),
            decreases n - i,
        {
            if brand_in(supported_brands, &self.compatible_brands[i]) {
                return true;
            }
            i = i + 1;
        }
        false
    }
}

} // verus!
