//! Item property definitions (`ispe`, `irot`, `imir`, `colr`, `auxC`, `hvcC`) and `ipco` parsing.

use crate::boxes::fourcc;
use crate::boxes::fourcc::{read_fourcc, FourCC};
use crate::boxes::header;
use crate::boxes::header::{BoxHeader, FullBoxHeader};
use crate::boxes::iter;
use crate::boxes::iter::BoxIter;
use crate::bytes;
use crate::bytes::{read_be16, read_be32};
use crate::error::{ErrorKind, HeicError, HeicResult};
use crate::limits::Limits;
use crate::text;
use crate::text::{append_bytes, ends_with, eq_ignore_ascii_case, find_zero, lossy_string, str_eq};
use crate::types::{ColorSpace, ColorSpaceView, ImageDimensions};
use vstd::prelude::*;

verus! {

/// Image spatial extents (`ispe`).
#[derive(Debug, Clone, Copy, PartialEq, Eq, Structural)]
pub struct ImageSpatialExtents {
    /// Width in pixels.
    pub width: u32,
    /// Height in pixels.
    pub height: u32,
}

impl ImageSpatialExtents {
    /// Converts the extents to [`ImageDimensions`].
    pub fn to_dimensions(&self) -> (d: ImageDimensions)
        ensures
            d.width == self.width,
            d.height == self.height,
    {
        ImageDimensions::new(self.width, self.height)
    }
}

/// Image rotation (`irot`): `angle_ccw` counts quarter turns counter-clockwise.
#[derive(Debug, Clone, Copy, PartialEq, Eq, Structural)]
pub struct RotationProperty {
    /// Quarter turns counter-clockwise (only the low two bits are significant).
    pub angle_ccw: u8,
}

/// Clockwise angle in degrees of `q` counter-clockwise quarter turns.
pub open spec fn spec_angle_cw(q: u8) -> u16 {
    if q % 4 == 0 { 0 } else if q % 4 == 1 { 270 } else if q % 4 == 2 { 180 } else { 90 }
}

/// EXIF orientation of a pure rotation by `q` counter-clockwise quarter turns.
pub open spec fn spec_rotation_exif(q: u8) -> u8 {
    if q % 4 == 0 { 1 } else if q % 4 == 1 { 8 } else if q % 4 == 2 { 3 } else { 6 }
}

impl RotationProperty {
    /// Rotation angle in degrees clockwise (0, 90, 180 or 270).
    pub fn angle_cw(&self) -> (a: u16)
        ensures
            a == spec_angle_cw(self.angle_ccw),
    {
        let v = self.angle_ccw;
        let q = v & 3;
        proof {
            crate::bytes::lemma_byte_bits(v);
        }
        match q {
            0 => 0,
            1 => 270,
            2 => 180,
            _ => 90,
        }
    }

    /// EXIF orientation tag of this pure rotation (1, 8, 3 or 6).
    pub fn to_exif_orientation(&self) -> (o: u8)
        ensures
            o == spec_rotation_exif(self.angle_ccw),
    {
        let v = self.angle_ccw;
        let q = v & 3;
        proof {
            crate::bytes::lemma_byte_bits(v);
        }
        match q {
            0 => 1,
            1 => 8,
            2 => 3,
            _ => 6,
        }
    }
}

/// Image mirror (`imir`): axis 0 flips left-right, axis 1 flips top-bottom.
#[derive(Debug, Clone, Copy, PartialEq, Eq, Structural)]
pub struct MirrorProperty {
    /// Mirror axis.
    pub axis: u8,
}

/// Colour information (`colr`).
#[derive(Debug, Clone, PartialEq, Eq)]
pub enum ColorProperty {
    /// NCLX colour description.
    Nclx {
        /// Colour primaries index.
        colour_primaries: u16,
        /// Transfer characteristics index.
        transfer_characteristics: u16,
        /// Matrix coefficients index.
        matrix_coefficients: u16,
        /// Full range flag.
        full_range_flag: bool,
    },
    /// Embedded ICC profile (`rICC` or `prof`).
    IccProfile(Vec<u8>),
}

/// Mathematical content of a [`ColorProperty`].
pub enum ColorPropertyView {
    /// NCLX colour description.
    Nclx { colour_primaries: u16, transfer_characteristics: u16, matrix_coefficients: u16, full_range_flag: bool },
    /// Embedded ICC profile bytes.
    IccProfile(Seq<u8>),
}

impl View for ColorProperty {
    type V = ColorPropertyView;

    open spec fn view(&self) -> ColorPropertyView {
        match self {
            ColorProperty::Nclx { colour_primaries, transfer_characteristics, matrix_coefficients, full_range_flag } =>
                ColorPropertyView::Nclx {
                    colour_primaries: *colour_primaries,
                    transfer_characteristics: *transfer_characteristics,
                    matrix_coefficients: *matrix_coefficients,
                    full_range_flag: *full_range_flag,
                },
            ColorProperty::IccProfile(b) => ColorPropertyView::IccProfile(b@),
        }
    }
}

/// The colour space named by NCLX colour primaries: 1 is sRGB, 12 Display P3, 9 BT.2020,
/// anything else falls back to sRGB.
pub open spec fn spec_primaries_space(p: u16) -> ColorSpace {
    if p == 12 { ColorSpace::DisplayP3 } else if p == 9 { ColorSpace::Rec2020 } else { ColorSpace::Srgb }
}

/// The colour space that a colour description names: NCLX primaries by
/// [`spec_primaries_space`], an ICC profile as itself.
pub open spec fn spec_color_space(c: ColorPropertyView) -> ColorSpaceView {
    match c {
        ColorPropertyView::Nclx { colour_primaries, .. } => spec_primaries_space(colour_primaries)@,
        ColorPropertyView::IccProfile(b) => ColorSpaceView::IccProfile(b),
    }
}

impl ColorProperty {
    /// Converts the colour information to a [`ColorSpace`].
    pub fn to_color_space(&self) -> (c: ColorSpace)
        ensures
            c@ == spec_color_space(self@),
    {
        match self {
            ColorProperty::Nclx { colour_primaries, .. } => {
                if *colour_primaries == 12 {
                    ColorSpace::DisplayP3
                } else if *colour_primaries == 9 {
                    ColorSpace::Rec2020
                } else {
                    ColorSpace::Srgb
                }
            },
            ColorProperty::IccProfile(bytes) => ColorSpace::IccProfile(vstd::slice::slice_to_vec(bytes.as_slice())),
        }
    }
}

/// Auxiliary image type (`auxC`).
#[derive(Debug, Clone, PartialEq, Eq)]
pub struct AuxiliaryProperty {
    /// URN of the auxiliary stream (e.g. `urn:mpeg:hevc:2015:auxid:1` for alpha).
    pub aux_type: String,
    /// Sub-type configuration bytes.
    pub sub_type: Vec<u8>,
}

/// Mathematical content of an [`AuxiliaryProperty`].
pub struct AuxiliaryPropertyView {
    /// URN characters.
    pub aux_type: Seq<char>,
    /// Sub-type bytes.
    pub sub_type: Seq<u8>,
}

impl View for AuxiliaryProperty {
    type V = AuxiliaryPropertyView;

    open spec fn view(&self) -> AuxiliaryPropertyView {
        AuxiliaryPropertyView { aux_type: self.aux_type@, sub_type: self.sub_type@ }
    }
}

/// The alpha URN `urn:mpeg:hevc:2015:auxid:1`.
pub open spec fn spec_alpha_urn() -> Seq<char> {
    seq!['u', 'r', 'n', ':', 'm', 'p', 'e', 'g', ':', 'h', 'e', 'v', 'c', ':', '2', '0', '1', '5', ':', 'a', 'u', 'x', 'i', 'd', ':', '1']
}

/// The suffix `:auxid:1` shared by alpha URNs.
pub open spec fn spec_alpha_suffix() -> Seq<char> {
    seq![':', 'a', 'u', 'x', 'i', 'd', ':', '1']
}

/// The word `alpha`.
pub open spec fn spec_alpha_word() -> Seq<char> {
    seq!['a', 'l', 'p', 'h', 'a']
}

/// Whether an auxiliary type names an alpha plane: the MPEG alpha URN, any URN ending in
/// `:auxid:1`, or the word `alpha` in any ASCII case.
pub open spec fn spec_is_alpha_type(t: Seq<char>) -> bool {
    t == spec_alpha_urn() || text::spec_ends_with(t, spec_alpha_suffix())
        || text::spec_eq_ignore_ascii_case(t, spec_alpha_word())
}

impl AuxiliaryProperty {
    /// Whether this auxiliary property identifies an alpha transparency plane.
    pub fn is_alpha(&self) -> (b: bool)
        ensures
            b == spec_is_alpha_type(self.aux_type@),
    {
        let urn = "urn:mpeg:hevc:2015:auxid:1";
        let suffix = ":auxid:1";
        let word = "alpha";
        proof {
            reveal_strlit("urn:mpeg:hevc:2015:auxid:1");
            reveal_strlit(":auxid:1");
            reveal_strlit("alpha");
            assert(urn@ =~= spec_alpha_urn());
            assert(suffix@ =~= spec_alpha_suffix());
            assert(word@ =~= spec_alpha_word());
        }
        let t = self.aux_type.as_str();
        str_eq(t, urn) || ends_with(t, suffix) || eq_ignore_ascii_case(t, word)
    }
}

/// HEVC decoder configuration record (`hvcC`).
#[derive(Debug, Clone, PartialEq, Eq, Default)]
pub struct HevcConfigProperty {
    /// NAL unit length size in bytes (1, 2, 3 or 4).
    pub nalu_length_size: u8,
    /// Sequence parameter sets.
    pub sps: Vec<Vec<u8>>,
    /// Picture parameter sets.
    pub pps: Vec<Vec<u8>>,
    /// Video parameter sets.
    pub vps: Vec<Vec<u8>>,
}

/// Views of a list of byte vectors.
pub open spec fn units_view(v: Seq<Vec<u8>>) -> Seq<Seq<u8>> {
    v.map_values(|x: Vec<u8>| x@)
}

/// Mathematical content of a [`HevcConfigProperty`].
pub struct HevcConfigView {
    /// NAL unit length size in bytes.
    pub nalu_length_size: u8,
    /// Sequence parameter sets.
    pub sps: Seq<Seq<u8>>,
    /// Picture parameter sets.
    pub pps: Seq<Seq<u8>>,
    /// Video parameter sets.
    pub vps: Seq<Seq<u8>>,
}

impl View for HevcConfigProperty {
    type V = HevcConfigView;

    open spec fn view(&self) -> HevcConfigView {
        HevcConfigView {
            nalu_length_size: self.nalu_length_size,
            sps: units_view(self.sps@),
            pps: units_view(self.pps@),
            vps: units_view(self.vps@),
        }
    }
}

/// The Annex-B start code `00 00 00 01`.
pub open spec fn spec_start_code() -> Seq<u8> {
    seq![0u8, 0u8, 0u8, 1u8]
}

/// Each unit prefixed with the Annex-B start code, concatenated in order.
pub open spec fn spec_annex_b(units: Seq<Seq<u8>>) -> Seq<u8>
    decreases units.len(),
{
    if units.len() == 0 {
        Seq::empty()
    } else {
        spec_annex_b(units.drop_last()) + spec_start_code() + units.last()
    }
}

/// Appends every unit with its start code to `out`.
fn append_annex_b(out: &mut Vec<u8>, units: &Vec<Vec<u8>>)
    ensures
        final(out)@ == old(out)@ + spec_annex_b(units_view(units@)),
{
    let n = units.len();
    let mut i: usize = 0;
    while i < n
        invariant
            n == units@.len(),
            i <= n,
            out@ == old(out)@ + spec_annex_b(units_view(units@).take(i as int)),
        decreases n - i,
    {
        let ghost before = out@;
        let code: [u8; 4] = [0, 0, 0, 1];
        append_bytes(out, code.as_slice());
        append_bytes(out, units[i].as_slice());
        proof {
            let uv = units_view(units@);
            assert(uv.take(i + 1).drop_last() =~= uv.take(i as int));
            assert(code@ =~= spec_start_code());
            assert(out@ =~= old(out)@ + spec_annex_b(uv.take(i + 1)));
        }
        i = i + 1;
    }
    assert(units_view(units@).take(n as int) =~= units_view(units@));
}

impl HevcConfigProperty {
    /// All VPS, then SPS, then PPS units, each prefixed with the Annex-B start code.
    pub open spec fn spec_annex_b_header(&self) -> Seq<u8> {
        spec_annex_b(self@.vps) + spec_annex_b(self@.sps) + spec_annex_b(self@.pps)
    }

    /// Formats the parameter sets as Annex-B start-code prefixed bytes (VPS, SPS, then PPS).
    pub fn to_annex_b_header(&self) -> (out: Vec<u8>)
        ensures
            out@ == self.spec_annex_b_header(),
    {
        let mut out: Vec<u8> = Vec::new();
        append_annex_b(&mut out, &self.vps);
        append_annex_b(&mut out, &self.sps);
        append_annex_b(&mut out, &self.pps);
        assert(out@ =~= self.spec_annex_b_header());
        out
    }
}

/// Files a parameter set under its NAL unit type: 32 is a VPS, 33 an SPS, 34 a PPS; other
/// types are dropped.
pub open spec fn spec_file_unit(acc: HevcConfigView, nal_type: int, unit: Seq<u8>) -> HevcConfigView {
    if nal_type == 32 {
        HevcConfigView { vps: acc.vps.push(unit), ..acc }
    } else if nal_type == 33 {
        HevcConfigView { sps: acc.sps.push(unit), ..acc }
    } else if nal_type == 34 {
        HevcConfigView { pps: acc.pps.push(unit), ..acc }
    } else {
        acc
    }
}

/// Reads up to `count` length-prefixed units from `cursor`; a unit whose 16-bit length or
/// bytes run past the end stops the array. Returns the new cursor and the filed units.
pub open spec fn spec_hvcc_units(p: Seq<u8>, cursor: int, count: nat, nal_type: int, acc: HevcConfigView) -> (int, HevcConfigView)
    decreases count,
{
    if count == 0 {
        (cursor, acc)
    } else if p.len() < cursor + 2 {
        (cursor, acc)
    } else {
        let len = bytes::be16_at(p, cursor);
        let start = cursor + 2;
        if p.len() < start + len {
            (start, acc)
        } else {
            spec_hvcc_units(p, start + len, (count - 1) as nat, nal_type,
                spec_file_unit(acc, nal_type, p.subrange(start, start + len)))
        }
    }
}

/// Reads up to `count` arrays from `cursor`: each has a type byte (low six bits), a 16-bit
/// unit count and the units; an array header running past the end stops the parse.
pub open spec fn spec_hvcc_arrays(p: Seq<u8>, cursor: int, count: nat, acc: HevcConfigView) -> HevcConfigView
    decreases count,
{
    if count == 0 {
        acc
    } else if p.len() < cursor + 3 {
        acc
    } else {
        let (next, acc2) = spec_hvcc_units(p, cursor + 3, bytes::be16_at(p, cursor + 1) as nat, (p[cursor] % 64) as int, acc);
        spec_hvcc_arrays(p, next, (count - 1) as nat, acc2)
    }
}

/// The `hvcC` record in payload `p`: at least 23 bytes; byte 21 holds the NAL length size
/// minus one in its low two bits, byte 22 the number of parameter set arrays.
pub open spec fn spec_hvcc(p: Seq<u8>) -> Result<HevcConfigView, ErrorKind> {
    if p.len() < 23 {
        Err(ErrorKind::MalformedInput)
    } else {
        Ok(spec_hvcc_arrays(p, 23, p[22] as nat, HevcConfigView {
            nalu_length_size: (p[21] % 4 + 1) as u8,
            sps: Seq::empty(),
            pps: Seq::empty(),
            vps: Seq::empty(),
        }))
    }
}

/// Reads units at `cursor` does not move past the end of `p`.
proof fn lemma_hvcc_units_cursor(p: Seq<u8>, cursor: int, count: nat, nal_type: int, acc: HevcConfigView)
    requires
        0 <= cursor <= p.len(),
    ensures
        cursor <= spec_hvcc_units(p, cursor, count, nal_type, acc).0 <= p.len(),
    decreases count,
{
    if count > 0 && p.len() >= cursor + 2 {
        let len = bytes::be16_at(p, cursor);
        crate::bytes::lemma_be_bounds(p, cursor);
        if p.len() >= cursor + 2 + len {
            lemma_hvcc_units_cursor(p, cursor + 2 + len, (count - 1) as nat, nal_type,
                spec_file_unit(acc, nal_type, p.subrange(cursor + 2, cursor + 2 + len)));
        }
    }
}

/// Parses an `hvcC` payload; a payload shorter than 23 bytes is malformed.
pub fn parse_hvcc(payload: &[u8]) -> (r: HeicResult<HevcConfigProperty>)
    ensures
        crate::error::agrees_view(r, spec_hvcc(payload@)),
{
    let len = payload.len();
    if len < 23 {
        return Err(HeicError::malformed("Truncated hvcC payload"));
    }
    let b21 = payload[21];
    let length_size_minus_one = b21 & 3;
    proof {
        crate::bytes::lemma_byte_bits(b21);
    }
    let num_of_arrays = payload[22];
    let mut config = HevcConfigProperty {
        nalu_length_size: length_size_minus_one + 1,
        sps: Vec::new(),
        pps: Vec::new(),
        vps: Vec::new(),
    };
    let ghost target = spec_hvcc(payload@)->Ok_0;
    assert(units_view(config.sps@) =~= Seq::<Seq<u8>>::empty());
    assert(units_view(config.pps@) =~= Seq::<Seq<u8>>::empty());
    assert(units_view(config.vps@) =~= Seq::<Seq<u8>>::empty());
    let mut cursor: usize = 23;
    let mut a: u8 = 0;
    while a < num_of_arrays
        invariant
            len == payload@.len(),
            23 <= cursor <= len,
            a <= num_of_arrays,
            target == spec_hvcc_arrays(payload@, cursor as int, (num_of_arrays - a) as nat, config@),
        ensures
            target == config@,
        decreases num_of_arrays - a,
    {
        if len - cursor < 3 {
            break;
        }
        let b = payload[cursor];
        let nal_unit_type = b & 0x3f;
        proof {
            crate::bytes::lemma_byte_bits(b);
        }
        let num_nalus = read_be16(payload, cursor + 1);
        cursor = cursor + 3;
        let ghost units_target = spec_hvcc_units(payload@, cursor as int, num_nalus as nat, nal_unit_type as int, config@);
        proof {
            lemma_hvcc_units_cursor(payload@, cursor as int, num_nalus as nat, nal_unit_type as int, config@);
        }
        assert(target == spec_hvcc_arrays(payload@, units_target.0, (num_of_arrays - a - 1) as nat, units_target.1));
        let mut k: u16 = 0;
        while k < num_nalus
            invariant_except_break
                units_target == spec_hvcc_units(payload@, cursor as int, (num_nalus - k) as nat, nal_unit_type as int, config@),
            invariant
                len == payload@.len(),
                cursor <= len,
                k <= num_nalus,
            ensures
                units_target == (cursor as int, config@),
                cursor <= len,
            decreases num_nalus - k,
        {
            if len - cursor < 2 {
                break;
            }
            let nalu_len = read_be16(payload, cursor) as usize;
            cursor = cursor + 2;
            if len - cursor < nalu_len {
                break;
            }
            let nalu_bytes = vstd::slice::slice_to_vec(&payload[cursor..cursor + nalu_len]);
            let ghost before = config@;
            let ghost unit = nalu_bytes@;
            if nal_unit_type == 32 {
                let ghost old_v = config.vps@;
                config.vps.push(nalu_bytes);
                assert(units_view(config.vps@) =~= units_view(old_v).push(unit));
            } else if nal_unit_type == 33 {
                let ghost old_v = config.sps@;
                config.sps.push(nalu_bytes);
                assert(units_view(config.sps@) =~= units_view(old_v).push(unit));
            } else if nal_unit_type == 34 {
                let ghost old_v = config.pps@;
                config.pps.push(nalu_bytes);
                assert(units_view(config.pps@) =~= units_view(old_v).push(unit));
            }
            proof {
                assert(config@ == spec_file_unit(before, nal_unit_type as int,
                    payload@.subrange(cursor as int, cursor + nalu_len)));
            }
            cursor = cursor + nalu_len;
            k = k + 1;
        }
        a = a + 1;
    }
    Ok(config)
}


/// A parsed item property.
#[derive(Debug, Clone, PartialEq, Eq)]
pub enum ItemProperty {
    /// Image dimensions (`ispe`).
    SpatialExtents(ImageSpatialExtents),
    /// Image rotation (`irot`).
    Rotation(RotationProperty),
    /// Image mirror (`imir`).
    Mirror(MirrorProperty),
    /// Colour description or ICC profile (`colr`).
    Color(ColorProperty),
    /// Auxiliary channel declaration (`auxC`).
    Auxiliary(AuxiliaryProperty),
    /// HEVC decoder configuration (`hvcC`).
    HevcConfig(HevcConfigProperty),
    /// Any other property, by type.
    Other(FourCC),
}

/// Mathematical content of an [`ItemProperty`].
pub enum ItemPropertyView {
    /// Image dimensions.
    SpatialExtents(ImageSpatialExtents),
    /// Image rotation.
    Rotation(RotationProperty),
    /// Image mirror.
    Mirror(MirrorProperty),
    /// Colour description.
    Color(ColorPropertyView),
    /// Auxiliary channel declaration.
    Auxiliary(AuxiliaryPropertyView),
    /// HEVC decoder configuration.
    HevcConfig(HevcConfigView),
    /// Any other property, by type.
    Other(FourCC),
}

impl View for ItemProperty {
    type V = ItemPropertyView;

    open spec fn view(&self) -> ItemPropertyView {
        match self {
            ItemProperty::SpatialExtents(x) => ItemPropertyView::SpatialExtents(*x),
            ItemProperty::Rotation(x) => ItemPropertyView::Rotation(*x),
            ItemProperty::Mirror(x) => ItemPropertyView::Mirror(*x),
            ItemProperty::Color(x) => ItemPropertyView::Color(x@),
            ItemProperty::Auxiliary(x) => ItemPropertyView::Auxiliary(x@),
            ItemProperty::HevcConfig(x) => ItemPropertyView::HevcConfig(x@),
            ItemProperty::Other(t) => ItemPropertyView::Other(*t),
        }
    }
}

/// Views of a list of properties.
pub open spec fn props_view(v: Seq<ItemProperty>) -> Seq<ItemPropertyView> {
    v.map_values(|p: ItemProperty| p@)
}

/// The `colr` payload `pl`: a colour type, then an NCLX description (primaries, transfer and
/// matrix indices, full-range flag in the top bit of byte 10) or ICC profile bytes.
pub open spec fn spec_colr(pl: Seq<u8>) -> Result<ItemPropertyView, ErrorKind> {
    if pl.len() < 4 {
        Err(ErrorKind::MalformedInput)
    } else {
        let t = fourcc::fourcc_at(pl, 0);
        if t == fourcc::spec_nclx() {
            if pl.len() < 11 {
                Err(ErrorKind::MalformedInput)
            } else {
                Ok(ItemPropertyView::Color(ColorPropertyView::Nclx {
                    colour_primaries: bytes::be16_at(pl, 4) as u16,
                    transfer_characteristics: bytes::be16_at(pl, 6) as u16,
                    matrix_coefficients: bytes::be16_at(pl, 8) as u16,
                    full_range_flag: pl[10] >= 128,
                }))
            }
        } else if t == fourcc::spec_ricc() || t == fourcc::spec_prof() {
            Ok(ItemPropertyView::Color(ColorPropertyView::IccProfile(pl.subrange(4, pl.len() as int))))
        } else {
            Ok(ItemPropertyView::Other(fourcc::spec_colr()))
        }
    }
}

/// The `auxC` payload `pl`: a zero-terminated URN followed by sub-type bytes.
pub open spec fn spec_auxc(pl: Seq<u8>) -> ItemPropertyView {
    let end = text::spec_first_zero(pl, 0);
    let cursor = text::spec_after_string(pl, 0);
    ItemPropertyView::Auxiliary(AuxiliaryPropertyView {
        aux_type: text::utf8_lossy(pl.subrange(0, end)),
        sub_type: pl.subrange(cursor, pl.len() as int),
    })
}

/// The property in box `b` whose header is `h`; `ispe` and `auxC` are full boxes, the
/// others plain boxes, and unknown types are kept by type only.
#[verifier::opaque]
pub open spec fn spec_property(h: BoxHeader, b: Seq<u8>) -> Result<ItemPropertyView, ErrorKind> {
    let t = h.box_type;
    let plain = header::spec_payload(b, h.size as int, h.header_size as int);
    let full = match header::spec_full_box_header(b) {
        Err(k) => Err(k),
        Ok(f) => header::spec_payload(b, f.header.size as int, f.total_header_size as int),
    };
    if t == fourcc::spec_ispe() {
        match full {
            Err(k) => Err(k),
            Ok(pl) => if pl.len() < 8 {
                Err(ErrorKind::MalformedInput)
            } else {
                Ok(ItemPropertyView::SpatialExtents(ImageSpatialExtents {
                    width: bytes::be32_at(pl, 0) as u32,
                    height: bytes::be32_at(pl, 4) as u32,
                }))
            },
        }
    } else if t == fourcc::spec_irot() {
        match plain {
            Err(k) => Err(k),
            Ok(pl) => if pl.len() == 0 {
                Err(ErrorKind::MalformedInput)
            } else {
                Ok(ItemPropertyView::Rotation(RotationProperty { angle_ccw: pl[0] % 4 }))
            },
        }
    } else if t == fourcc::spec_imir() {
        match plain {
            Err(k) => Err(k),
            Ok(pl) => if pl.len() == 0 {
                Err(ErrorKind::MalformedInput)
            } else {
                Ok(ItemPropertyView::Mirror(MirrorProperty { axis: pl[0] % 2 }))
            },
        }
    } else if t == fourcc::spec_colr() {
        match plain {
            Err(k) => Err(k),
            Ok(pl) => spec_colr(pl),
        }
    } else if t == fourcc::spec_auxc() {
        match full {
            Err(k) => Err(k),
            Ok(pl) => Ok(spec_auxc(pl)),
        }
    } else if t == fourcc::spec_hvcc() {
        match plain {
            Err(k) => Err(k),
            Ok(pl) => match spec_hvcc(pl) {
                Err(k) => Err(k),
                Ok(c) => Ok(ItemPropertyView::HevcConfig(c)),
            },
        }
    } else {
        Ok(ItemPropertyView::Other(t))
    }
}

/// Parses the payload of a `colr` box.
fn parse_colr(pl: &[u8]) -> (r: HeicResult<ItemProperty>)
    ensures
        crate::error::agrees_view(r, spec_colr(pl@)),
{
    if pl.len() < 4 {
        return Err(HeicError::malformed("Truncated colr box"));
    }
    let colr_type = read_fourcc(pl, 0);
    if colr_type.same(&FourCC::nclx()) {
        if pl.len() < 11 {
            return Err(HeicError::malformed("Truncated nclx colr box"));
        }
        let flag_byte = pl[10];
        proof {
            crate::bytes::lemma_byte_bits(flag_byte);
        }
        Ok(ItemProperty::Color(ColorProperty::Nclx {
            colour_primaries: read_be16(pl, 4),
            transfer_characteristics: read_be16(pl, 6),
            matrix_coefficients: read_be16(pl, 8),
            full_range_flag: flag_byte & 0x80 != 0,
        }))
    } else if colr_type.same(&FourCC::ricc()) || colr_type.same(&FourCC::prof()) {
        Ok(ItemProperty::Color(ColorProperty::IccProfile(vstd::slice::slice_to_vec(&pl[4..pl.len()]))))
    } else {
        Ok(ItemProperty::Other(FourCC::colr()))
    }
}

/// Parses one property box (`prop_data` holds the whole box, `prop_header` its header).
pub fn parse_property(prop_header: &BoxHeader, prop_data: &[u8]) -> (r: HeicResult<ItemProperty>)
    ensures
        crate::error::agrees_view(r, spec_property(*prop_header, prop_data@)),
{
    reveal(spec_property);
    let t = prop_header.box_type;
    if t.same(&FourCC::ispe()) {
        let full = FullBoxHeader::parse(prop_data)?;
        let pl = full.payload(prop_data)?;
        if pl.len() < 8 {
            return Err(HeicError::malformed("Truncated ispe box"));
        }
        let width = read_be32(pl, 0);
        let height = read_be32(pl, 4);
        Ok(ItemProperty::SpatialExtents(ImageSpatialExtents { width, height }))
    } else if t.same(&FourCC::irot()) {
        let pl = prop_header.payload(prop_data)?;
        if pl.len() == 0 {
            return Err(HeicError::malformed("Truncated irot box"));
        }
        let v = pl[0];
        proof {
            crate::bytes::lemma_byte_bits(v);
        }
        Ok(ItemProperty::Rotation(RotationProperty { angle_ccw: v & 3 }))
    } else if t.same(&FourCC::imir()) {
        let pl = prop_header.payload(prop_data)?;
        if pl.len() == 0 {
            return Err(HeicError::malformed("Truncated imir box"));
        }
        let v = pl[0];
        proof {
            crate::bytes::lemma_byte_bits(v);
        }
        Ok(ItemProperty::Mirror(MirrorProperty { axis: v & 1 }))
    } else if t.same(&FourCC::colr()) {
        let pl = prop_header.payload(prop_data)?;
        parse_colr(pl)
    } else if t.same(&FourCC::auxc()) {
        let full = FullBoxHeader::parse(prop_data)?;
        let pl = full.payload(prop_data)?;
        let len = pl.len();
        let end = find_zero(pl, 0);
        let aux_type = lossy_string(&pl[0..end]);
        let cursor = if end < len { end + 1 } else { end };
        let sub_type = vstd::slice::slice_to_vec(&pl[cursor..len]);
        Ok(ItemProperty::Auxiliary(AuxiliaryProperty { aux_type, sub_type }))
    } else if t.same(&FourCC::hvcc()) {
        let pl = prop_header.payload(prop_data)?;
        let hvc = parse_hvcc(pl)?;
        Ok(ItemProperty::HevcConfig(hvc))
    } else {
        Ok(ItemProperty::Other(t))
    }
}

/// One child of an `ipco` payload appended to the properties read so far.
pub open spec fn spec_ipco_step() -> spec_fn(Seq<ItemPropertyView>, BoxHeader, Seq<u8>) -> Result<Seq<ItemPropertyView>, ErrorKind> {
    |acc: Seq<ItemPropertyView>, h: BoxHeader, b: Seq<u8>|
        match spec_property(h, b) {
            Err(k) => Err(k),
            Ok(p) => Ok(acc.push(p)),
        }
}

/// The `ipco` box in `s` (bytes starting at the box): its children are the properties in
/// order (the box type itself is not checked).
pub open spec fn spec_ipco(s: Seq<u8>) -> Result<Seq<ItemPropertyView>, ErrorKind> {
    match header::spec_box_header(s) {
        Err(k) => Err(k),
        Ok(h) => match header::spec_payload(s, h.size as int, h.header_size as int) {
            Err(k) => Err(k),
            Ok(p) => iter::spec_fold_boxes(p, Seq::empty(), spec_ipco_step()),
        },
    }
}

/// Parses the properties of an `ipco` box in declaration order.
pub fn parse_ipco(input: &[u8], _limits: &Limits) -> (r: HeicResult<Vec<ItemProperty>>)
    ensures
        match r {
            Ok(v) => spec_ipco(input@) == Ok::<Seq<ItemPropertyView>, ErrorKind>(props_view(v@)),
            Err(e) => spec_ipco(input@) == Err::<Seq<ItemPropertyView>, ErrorKind>(e.kind()),
        },
{
    let header = BoxHeader::parse(input)?;
    let payload = header.payload(input)?;
    let ghost step = spec_ipco_step();
    let mut properties: Vec<ItemProperty> = Vec::new();
    let mut it = BoxIter::new(payload);
    assert(payload@.skip(0) =~= payload@);
    assert(props_view(properties@) =~= Seq::<ItemPropertyView>::empty());
    loop
        invariant
            it.spec_data() == payload@,
            0 <= it.spec_offset() <= payload@.len(),
            payload@.len() == payload.len(),
            step == spec_ipco_step(),
            spec_ipco(input@) == iter::spec_fold_boxes(payload@, Seq::empty(), step),
            iter::spec_fold_boxes(payload@.skip(it.spec_offset()), props_view(properties@), step)
                == iter::spec_fold_boxes(payload@, Seq::empty(), step),
        ensures
            iter::spec_fold_boxes(payload@, Seq::empty(), step) == Ok::<Seq<ItemPropertyView>, ErrorKind>(props_view(properties@)),
        decreases payload@.len() - it.spec_offset(),
    {
        let ghost off = it.spec_offset();
        let ghost rem = payload@.skip(off);
        let next = it.next_box();
        match next {
            None => {
                assert(rem.len() == 0);
                break;
            },
            Some(res) => {
                if res.is_err() {
                    assert(iter::spec_fold_boxes(rem, props_view(properties@), step) is Err);
                }
                let (prop_header, prop_data) = res?;
                let ghost n = iter::spec_next_box(rem)->Ok_0.1;
                proof {
                    iter::lemma_next_box_progress(rem);
                }
                let prop = parse_property(&prop_header, prop_data)?;
                proof {
                    assert(rem.skip(n) =~= payload@.skip(off + n));
                    assert(props_view(properties@.push(prop)) =~= props_view(properties@).push(prop@));
                }
                properties.push(prop);
            },
        }
    }
    Ok(properties)
}

} // verus!
