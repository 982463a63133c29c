//! Four-character box type identifiers.

use vstd::prelude::*;
use crate::text::{ascii_chars, lossy_string, utf8_lossy};

verus! {

/// Four-character box type identifier (FourCC).
#[derive(Debug, Clone, Copy, PartialEq, Eq, Hash)]
pub struct FourCC(pub [u8; 4]);

/// The FourCC made of the four bytes of `s` starting at `i`.
pub open spec fn fourcc_at(s: Seq<u8>, i: int) -> FourCC {
    FourCC([s[i], s[i + 1], s[i + 2], s[i + 3]])
}

/// Reads the FourCC stored at `pos`.
pub fn read_fourcc(data: &[u8], pos: usize) -> (f: FourCC)
    requires
        pos + 4 <= data@.len(),
    ensures
        f == fourcc_at(data@, pos as int),
{
    FourCC([data[pos], data[pos + 1], data[pos + 2], data[pos + 3]])
}

/// The four bytes of `s` starting at `i`.
pub open spec fn brand_at(s: Seq<u8>, i: int) -> [u8; 4] {
    [s[i], s[i + 1], s[i + 2], s[i + 3]]
}

/// Reads the four bytes at `pos` as a brand.
pub fn read_brand(data: &[u8], pos: usize) -> (b: [u8; 4])
    requires
        pos + 4 <= data@.len(),
    ensures
        b == brand_at(data@, pos as int),
{
    [data[pos], data[pos + 1], data[pos + 2], data[pos + 3]]
}

/// Compares two four-byte brands.
pub fn brand_eq(a: &[u8; 4], b: &[u8; 4]) -> (r: bool)
    ensures
        r == (*a == *b),
{
    let r = a[0] == b[0] && a[1] == b[1] && a[2] == b[2] && a[3] == b[3];
    proof {
        if r {
            assert(*a =~= *b);
        }
    }
    r
}

/// Whether `brand` occurs in `list`.
pub fn brand_in(list: &[[u8; 4]], brand: &[u8; 4]) -> (r: bool)
    ensures
        r == list@.contains(*brand),
{
    let n = list.len();
    let mut i: usize = 0;
    while i < n
        invariant
            n == list@.len(),
            0 <= i <= n,
            forall|j: int| 0 <= j < i ==> list@[j] != *brand,
        decreases n - i,
    {
        if brand_eq(&list[i], brand) {
            assert(list@[i as int] == *brand);
            return true;
        }
        i = i + 1;
    }
    false
}

impl FourCC {
    /// Creates a FourCC from four bytes.
    pub fn from_bytes(bytes: [u8; 4]) -> (f: Self)
        ensures
            f.0 == bytes,
    {
        FourCC(bytes)
    }

    /// The underlying four bytes.
    pub fn as_bytes(&self) -> (b: &[u8; 4])
        ensures
            *b == self.0,
    {
        &self.0
    }

    /// Whether both identifiers hold the same four bytes.
    pub fn same(&self, other: &FourCC) -> (r: bool)
        ensures
            r == (*self == *other),
    {
        let r = self.0[0] == other.0[0] && self.0[1] == other.0[1] && self.0[2] == other.0[2]
            && self.0[3] == other.0[3];
        proof {
            if r {
                assert(self.0 =~= other.0);
            }
        }
        r
    }

    /// The four bytes as text, decoded as UTF-8 with invalid sequences replaced.
    pub fn to_string(&self) -> (s: String)
        ensures
            s@ == utf8_lossy(self.0@),
            (forall|i: int| 0 <= i < 4 ==> #[trigger] self.0@[i] < 0x80) ==> s@ == ascii_chars(self.0@),
    {
        lossy_string(&self.0)
    }

    /// File type box `ftyp`.
    pub fn ftyp() -> (f: Self)
        ensures
            f == spec_ftyp(),
    {
        FourCC([0x66, 0x74, 0x79, 0x70])
    }

    /// Meta box `meta`.
    pub fn meta() -> (f: Self)
        ensures
            f == spec_meta(),
    {
        FourCC([0x6d, 0x65, 0x74, 0x61])
    }

    /// Handler reference box `hdlr`.
    pub fn hdlr() -> (f: Self)
        ensures
            f == spec_hdlr(),
    {
        FourCC([0x68, 0x64, 0x6c, 0x72])
    }

    /// Primary item box `pitm`.
    pub fn pitm() -> (f: Self)
        ensures
            f == spec_pitm(),
    {
        FourCC([0x70, 0x69, 0x74, 0x6d])
    }

    /// Item location box `iloc`.
    pub fn iloc() -> (f: Self)
        ensures
            f == spec_iloc(),
    {
        FourCC([0x69, 0x6c, 0x6f, 0x63])
    }

    /// Item information box `iinf`.
    pub fn iinf() -> (f: Self)
        ensures
            f == spec_iinf(),
    {
        FourCC([0x69, 0x69, 0x6e, 0x66])
    }

    /// Item info entry box `infe`.
    pub fn infe() -> (f: Self)
        ensures
            f == spec_infe(),
    {
        FourCC([0x69, 0x6e, 0x66, 0x65])
    }

    /// Item reference box `iref`.
    pub fn iref() -> (f: Self)
        ensures
            f == spec_iref(),
    {
        FourCC([0x69, 0x72, 0x65, 0x66])
    }

    /// Media data box `mdat`.
    pub fn mdat() -> (f: Self)
        ensures
            f == spec_mdat(),
    {
        FourCC([0x6d, 0x64, 0x61, 0x74])
    }

    /// Item data box `idat`.
    pub fn idat() -> (f: Self)
        ensures
            f == spec_idat(),
    {
        FourCC([0x69, 0x64, 0x61, 0x74])
    }

    /// Item properties box `iprp`.
    pub fn iprp() -> (f: Self)
        ensures
            f == spec_iprp(),
    {
        FourCC([0x69, 0x70, 0x72, 0x70])
    }

    /// Item property container box `ipco`.
    pub fn ipco() -> (f: Self)
        ensures
            f == spec_ipco(),
    {
        FourCC([0x69, 0x70, 0x63, 0x6f])
    }

    /// Item property association box `ipma`.
    pub fn ipma() -> (f: Self)
        ensures
            f == spec_ipma(),
    {
        FourCC([0x69, 0x70, 0x6d, 0x61])
    }

    /// Image spatial extents box `ispe`.
    pub fn ispe() -> (f: Self)
        ensures
            f == spec_ispe(),
    {
        FourCC([0x69, 0x73, 0x70, 0x65])
    }

    /// Image rotation box `irot`.
    pub fn irot() -> (f: Self)
        ensures
            f == spec_irot(),
    {
        FourCC([0x69, 0x72, 0x6f, 0x74])
    }

    /// Image mirror box `imir`.
    pub fn imir() -> (f: Self)
        ensures
            f == spec_imir(),
    {
        FourCC([0x69, 0x6d, 0x69, 0x72])
    }

    /// Colour information box `colr`.
    pub fn colr() -> (f: Self)
        ensures
            f == spec_colr(),
    {
        FourCC([0x63, 0x6f, 0x6c, 0x72])
    }

    /// Auxiliary type property `auxC`.
    pub fn auxc() -> (f: Self)
        ensures
            f == spec_auxc(),
    {
        FourCC([0x61, 0x75, 0x78, 0x43])
    }

    /// HEVC configuration box `hvcC`.
    pub fn hvcc() -> (f: Self)
        ensures
            f == spec_hvcc(),
    {
        FourCC([0x68, 0x76, 0x63, 0x43])
    }

    /// Pixel aspect ratio box `pasp`.
    pub fn pasp() -> (f: Self)
        ensures
            f == spec_pasp(),
    {
        FourCC([0x70, 0x61, 0x73, 0x70])
    }

    /// Clean aperture box `clap`.
    pub fn clap() -> (f: Self)
        ensures
            f == spec_clap(),
    {
        FourCC([0x63, 0x6c, 0x61, 0x70])
    }

    /// Picture handler type `pict`.
    pub fn pict() -> (f: Self)
        ensures
            f == spec_pict(),
    {
        FourCC([0x70, 0x69, 0x63, 0x74])
    }

    /// HEVC intra item type `hvc1`.
    pub fn hvc1() -> (f: Self)
        ensures
            f == spec_hvc1(),
    {
        FourCC([0x68, 0x76, 0x63, 0x31])
    }

    /// Image grid derived item type `grid`.
    pub fn grid() -> (f: Self)
        ensures
            f == spec_grid(),
    {
        FourCC([0x67, 0x72, 0x69, 0x64])
    }

    /// EXIF metadata item type `Exif`.
    pub fn exif() -> (f: Self)
        ensures
            f == spec_exif(),
    {
        FourCC([0x45, 0x78, 0x69, 0x66])
    }

    /// MIME metadata item type `mime`.
    pub fn mime() -> (f: Self)
        ensures
            f == spec_mime(),
    {
        FourCC([0x6d, 0x69, 0x6d, 0x65])
    }

    /// Derived image reference `dimg`.
    pub fn dimg() -> (f: Self)
        ensures
            f == spec_dimg(),
    {
        FourCC([0x64, 0x69, 0x6d, 0x67])
    }

    /// Auxiliary image reference `auxl`.
    pub fn auxl() -> (f: Self)
        ensures
            f == spec_auxl(),
    {
        FourCC([0x61, 0x75, 0x78, 0x6c])
    }

    /// Content description reference `cdsc`.
    pub fn cdsc() -> (f: Self)
        ensures
            f == spec_cdsc(),
    {
        FourCC([0x63, 0x64, 0x73, 0x63])
    }

    /// Thumbnail reference `thmb`.
    pub fn thmb() -> (f: Self)
        ensures
            f == spec_thmb(),
    {
        FourCC([0x74, 0x68, 0x6d, 0x62])
    }

    /// NCLX colour type `nclx`.
    pub fn nclx() -> (f: Self)
        ensures
            f == spec_nclx(),
    {
        FourCC([0x6e, 0x63, 0x6c, 0x78])
    }

    /// Restricted ICC colour type `rICC`.
    pub fn ricc() -> (f: Self)
        ensures
            f == spec_ricc(),
    {
        FourCC([0x72, 0x49, 0x43, 0x43])
    }

    /// Unrestricted ICC colour type `prof`.
    pub fn prof() -> (f: Self)
        ensures
            f == spec_prof(),
    {
        FourCC([0x70, 0x72, 0x6f, 0x66])
    }
}

/// File type box `ftyp`.
pub open spec fn spec_ftyp() -> FourCC {
    FourCC([0x66u8, 0x74u8, 0x79u8, 0x70u8])
}

/// Meta box `meta`.
pub open spec fn spec_meta() -> FourCC {
    FourCC([0x6du8, 0x65u8, 0x74u8, 0x61u8])
}

/// Handler reference box `hdlr`.
pub open spec fn spec_hdlr() -> FourCC {
    FourCC([0x68u8, 0x64u8, 0x6cu8, 0x72u8])
}

/// Primary item box `pitm`.
pub open spec fn spec_pitm() -> FourCC {
    FourCC([0x70u8, 0x69u8, 0x74u8, 0x6du8])
}

/// Item location box `iloc`.
pub open spec fn spec_iloc() -> FourCC {
    FourCC([0x69u8, 0x6cu8, 0x6fu8, 0x63u8])
}

/// Item information box `iinf`.
pub open spec fn spec_iinf() -> FourCC {
    FourCC([0x69u8, 0x69u8, 0x6eu8, 0x66u8])
}

/// Item info entry box `infe`.
pub open spec fn spec_infe() -> FourCC {
    FourCC([0x69u8, 0x6eu8, 0x66u8, 0x65u8])
}

/// Item reference box `iref`.
pub open spec fn spec_iref() -> FourCC {
    FourCC([0x69u8, 0x72u8, 0x65u8, 0x66u8])
}

/// Media data box `mdat`.
pub open spec fn spec_mdat() -> FourCC {
    FourCC([0x6du8, 0x64u8, 0x61u8, 0x74u8])
}

/// Item data box `idat`.
pub open spec fn spec_idat() -> FourCC {
    FourCC([0x69u8, 0x64u8, 0x61u8, 0x74u8])
}

/// Item properties box `iprp`.
pub open spec fn spec_iprp() -> FourCC {
    FourCC([0x69u8, 0x70u8, 0x72u8, 0x70u8])
}

/// Item property container box `ipco`.
pub open spec fn spec_ipco() -> FourCC {
    FourCC([0x69u8, 0x70u8, 0x63u8, 0x6fu8])
}

/// Item property association box `ipma`.
pub open spec fn spec_ipma() -> FourCC {
    FourCC([0x69u8, 0x70u8, 0x6du8, 0x61u8])
}

/// Image spatial extents box `ispe`.
pub open spec fn spec_ispe() -> FourCC {
    FourCC([0x69u8, 0x73u8, 0x70u8, 0x65u8])
}

/// Image rotation box `irot`.
pub open spec fn spec_irot() -> FourCC {
    FourCC([0x69u8, 0x72u8, 0x6fu8, 0x74u8])
}

/// Image mirror box `imir`.
pub open spec fn spec_imir() -> FourCC {
    FourCC([0x69u8, 0x6du8, 0x69u8, 0x72u8])
}

/// Colour information box `colr`.
pub open spec fn spec_colr() -> FourCC {
    FourCC([0x63u8, 0x6fu8, 0x6cu8, 0x72u8])
}

/// Auxiliary type property `auxC`.
pub open spec fn spec_auxc() -> FourCC {
    FourCC([0x61u8, 0x75u8, 0x78u8, 0x43u8])
}

/// HEVC configuration box `hvcC`.
pub open spec fn spec_hvcc() -> FourCC {
    FourCC([0x68u8, 0x76u8, 0x63u8, 0x43u8])
}

/// Pixel aspect ratio box `pasp`.
pub open spec fn spec_pasp() -> FourCC {
    FourCC([0x70u8, 0x61u8, 0x73u8, 0x70u8])
}

/// Clean aperture box `clap`.
pub open spec fn spec_clap() -> FourCC {
    FourCC([0x63u8, 0x6cu8, 0x61u8, 0x70u8])
}

/// Picture handler type `pict`.
pub open spec fn spec_pict() -> FourCC {
    FourCC([0x70u8, 0x69u8, 0x63u8, 0x74u8])
}

/// HEVC intra item type `hvc1`.
pub open spec fn spec_hvc1() -> FourCC {
    FourCC([0x68u8, 0x76u8, 0x63u8, 0x31u8])
}

/// Image grid derived item type `grid`.
pub open spec fn spec_grid() -> FourCC {
    FourCC([0x67u8, 0x72u8, 0x69u8, 0x64u8])
}

/// EXIF metadata item type `Exif`.
pub open spec fn spec_exif() -> FourCC {
    FourCC([0x45u8, 0x78u8, 0x69u8, 0x66u8])
}

/// MIME metadata item type `mime`.
pub open spec fn spec_mime() -> FourCC {
    FourCC([0x6du8, 0x69u8, 0x6du8, 0x65u8])
}

/// Derived image reference `dimg`.
pub open spec fn spec_dimg() -> FourCC {
    FourCC([0x64u8, 0x69u8, 0x6du8, 0x67u8])
}

/// Auxiliary image reference `auxl`.
pub open spec fn spec_auxl() -> FourCC {
    FourCC([0x61u8, 0x75u8, 0x78u8, 0x6cu8])
}

/// Content description reference `cdsc`.
pub open spec fn spec_cdsc() -> FourCC {
    FourCC([0x63u8, 0x64u8, 0x73u8, 0x63u8])
}

/// Thumbnail reference `thmb`.
pub open spec fn spec_thmb() -> FourCC {
    FourCC([0x74u8, 0x68u8, 0x6du8, 0x62u8])
}

/// NCLX colour type `nclx`.
pub open spec fn spec_nclx() -> FourCC {
    FourCC([0x6eu8, 0x63u8, 0x6cu8, 0x78u8])
}

/// Restricted ICC colour type `rICC`.
pub open spec fn spec_ricc() -> FourCC {
    FourCC([0x72u8, 0x49u8, 0x43u8, 0x43u8])
}

/// Unrestricted ICC colour type `prof`.
pub open spec fn spec_prof() -> FourCC {
    FourCC([0x70u8, 0x72u8, 0x6fu8, 0x66u8])
}

} // verus!
