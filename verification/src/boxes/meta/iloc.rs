//! `iloc` (item location box) parsing.

use crate::boxes::fourcc;
use crate::boxes::fourcc::FourCC;
use crate::boxes::header;
use crate::boxes::header::FullBoxHeader;
use crate::boxes::iref;
use crate::boxes::iref::read_id;
use crate::bytes;
use crate::bytes::{read_be16, read_be32, read_be64};
use crate::error::{ErrorKind, HeicError, HeicResult};
use crate::limits::Limits;
use std::collections::HashMap;
use vstd::prelude::*;

verus! {

broadcast use vstd::std_specs::hash::group_hash_axioms;

/// Extent of an item within the file or an `idat` payload.
#[derive(Debug, Clone, Copy, PartialEq, Eq)]
pub struct ItemExtent {
    /// Byte offset, relative to the base offset.
    pub offset: u64,
    /// Byte length.
    pub length: u64,
    /// Extent index, when the box declares indexed extents.
    pub index: Option<u64>,
}

/// Item construction method declared in `iloc`.
#[derive(Debug, Clone, Copy, PartialEq, Eq, Structural)]
pub enum ConstructionMethod {
    /// File offset (relative to the start of the file).
    FileOffset,
    /// Offset into the `idat` payload.
    IdatOffset,
    /// Offset into another item's data.
    ItemOffset,
}

impl Default for ConstructionMethod {
    fn default() -> (m: Self)
        ensures
            m == ConstructionMethod::FileOffset,
    {
        ConstructionMethod::FileOffset
    }
}

/// Location of an item, as parsed from `iloc`.
#[derive(Debug, Clone, PartialEq, Eq)]
pub struct ItemLocation {
    /// Item identifier.
    pub item_id: u32,
    /// Construction method.
    pub construction_method: ConstructionMethod,
    /// Data reference index (0 for the file itself).
    pub data_reference_index: u16,
    /// Base offset added to every extent offset.
    pub base_offset: u64,
    /// Extents that make up the item's data, in order.
    pub extents: Vec<ItemExtent>,
}

/// Mathematical content of an [`ItemLocation`].
pub struct ItemLocationView {
    /// Item identifier.
    pub item_id: u32,
    /// Construction method.
    pub construction_method: ConstructionMethod,
    /// Data reference index.
    pub data_reference_index: u16,
    /// Base offset.
    pub base_offset: u64,
    /// Extents in order.
    pub extents: Seq<ItemExtent>,
}

impl View for ItemLocation {
    type V = ItemLocationView;

    open spec fn view(&self) -> ItemLocationView {
        ItemLocationView {
            item_id: self.item_id,
            construction_method: self.construction_method,
            data_reference_index: self.data_reference_index,
            base_offset: self.base_offset,
            extents: self.extents@,
        }
    }
}

/// Sum of the lengths of `extents`.
pub open spec fn spec_total_length(extents: Seq<ItemExtent>) -> int
    decreases extents.len(),
{
    if extents.len() == 0 {
        0
    } else {
        spec_total_length(extents.drop_last()) + extents.last().length
    }
}

impl ItemLocation {
    /// Total byte length across all extents (the sum must fit in a `u64`).
    pub fn total_length(&self) -> (n: u64)
        requires
            spec_total_length(self.extents@) <= u64::MAX,
        ensures
            n == spec_total_length(self.extents@),
    {
        let len = self.extents.len();
        let mut total: u64 = 0;
        let mut i: usize = 0;
        while i < len
            invariant
                len == self.extents@.len(),
                i <= len,
                spec_total_length(self.extents@) <= u64::MAX,
                total == spec_total_length(self.extents@.take(i as int)),
            decreases len - i,
        {
            assert(self.extents@.take(i + 1).drop_last() =~= self.extents@.take(i as int));
            proof {
                lemma_total_length_prefix(self.extents@, i + 1);
            }
            total = total + self.extents[i].length;
            i = i + 1;
        }
        assert(self.extents@.take(len as int) =~= self.extents@);
        total
    }
}

/// The total length of a prefix never exceeds that of the whole list.
pub proof fn lemma_total_length_prefix(extents: Seq<ItemExtent>, n: int)
    requires
        0 <= n <= extents.len(),
    ensures
        spec_total_length(extents.take(n)) <= spec_total_length(extents),
    decreases extents.len(),
{
    if n < extents.len() {
        assert(extents.drop_last().take(n) =~= extents.take(n));
        lemma_total_length_prefix(extents.drop_last(), n);
    } else {
        assert(extents.take(n) =~= extents);
    }
}

/// Item location table (`iloc` box).
#[derive(Debug, Clone)]
pub struct ItemLocationBox {
    /// Location of each item.
    pub items: HashMap<u32, ItemLocation>,
}

/// The locations of a table, by item.
pub open spec fn locations_view(m: Map<u32, ItemLocation>) -> Map<u32, ItemLocationView> {
    m.map_values(|l: ItemLocation| l@)
}

impl View for ItemLocationBox {
    type V = Map<u32, ItemLocationView>;

    open spec fn view(&self) -> Map<u32, ItemLocationView> {
        locations_view(self.items@)
    }
}

/// Field widths of an `iloc` box.
#[derive(Debug, Clone, Copy, PartialEq, Eq, Structural)]
pub struct IlocFormat {
    /// Box version.
    pub version: u8,
    /// Width of extent offsets in bytes.
    pub offset_size: usize,
    /// Width of extent lengths in bytes.
    pub length_size: usize,
    /// Width of base offsets in bytes.
    pub base_offset_size: usize,
    /// Width of extent indices in bytes (0 when not indexed).
    pub index_size: usize,
}

/// The unsigned big-endian integer of `size` bytes at `cursor`, and the cursor after it.
/// A width of zero reads nothing and gives zero; widths other than 1, 2, 4 and 8 are
/// unsupported.
pub open spec fn spec_var_uint(p: Seq<u8>, cursor: int, size: int) -> Result<(u64, int), ErrorKind> {
    if size == 0 {
        Ok((0, cursor))
    } else if p.len() < cursor + size {
        Err(ErrorKind::MalformedInput)
    } else if size == 1 {
        Ok((p[cursor] as u64, cursor + 1))
    } else if size == 2 {
        Ok((bytes::be16_at(p, cursor) as u64, cursor + 2))
    } else if size == 4 {
        Ok((bytes::be32_at(p, cursor) as u64, cursor + 4))
    } else if size == 8 {
        Ok((bytes::be64_at(p, cursor) as u64, cursor + 8))
    } else {
        Err(ErrorKind::InvalidContainer)
    }
}

/// Reads a big-endian unsigned integer of `size` bytes (0, 1, 2, 4 or 8) at `*cursor` and
/// moves the cursor past it; on error the cursor is unchanged.
pub fn read_variable_uint(data: &[u8], cursor: &mut usize, size: usize) -> (r: HeicResult<u64>)
    ensures
        match spec_var_uint(data@, *old(cursor) as int, size as int) {
            Ok((v, c)) => r == Ok::<u64, HeicError>(v) && *final(cursor) == c,
            Err(k) => r matches Err(e) && e.kind() == k && *final(cursor) == *old(cursor),
        },
{
    if size == 0 {
        return Ok(0);
    }
    let c = *cursor;
    if c > data.len() || data.len() - c < size {
        return Err(HeicError::malformed("Insufficient bytes for variable integer"));
    }
    let val = if size == 1 {
        data[c] as u64
    } else if size == 2 {
        read_be16(data, c) as u64
    } else if size == 4 {
        read_be32(data, c) as u64
    } else if size == 8 {
        read_be64(data, c)
    } else {
        return Err(HeicError::invalid_container("Unsupported variable integer size"));
    };
    *cursor = c + size;
    Ok(val)
}

/// Whether the version carries construction methods and extent indices.
pub open spec fn has_methods(version: u8) -> bool {
    version == 1 || version == 2
}

/// The construction method coded by the low four bits of a byte; unknown codes mean file
/// offsets.
pub open spec fn spec_method(code: int) -> ConstructionMethod {
    if code == 1 {
        ConstructionMethod::IdatOffset
    } else if code == 2 {
        ConstructionMethod::ItemOffset
    } else {
        ConstructionMethod::FileOffset
    }
}

/// Reads `count` extents at `cursor`, appending them to `acc`; returns them with the cursor
/// after the last one.
pub open spec fn spec_extents(p: Seq<u8>, cursor: int, count: nat, f: IlocFormat, acc: Seq<ItemExtent>) -> Result<(Seq<ItemExtent>, int), ErrorKind>
    decreases count,
{
    if count == 0 {
        Ok((acc, cursor))
    } else {
        let indexed = has_methods(f.version) && f.index_size > 0;
        let idx = if indexed { spec_var_uint(p, cursor, f.index_size as int) } else { Ok((0u64, cursor)) };
        match idx {
            Err(k) => Err(k),
            Ok((iv, c1)) => match spec_var_uint(p, c1, f.offset_size as int) {
                Err(k) => Err(k),
                Ok((off, c2)) => match spec_var_uint(p, c2, f.length_size as int) {
                    Err(k) => Err(k),
                    Ok((len, c3)) => {
                        let e = ItemExtent { offset: off, length: len, index: if indexed { Some(iv) } else { None } };
                        spec_extents(p, c3, (count - 1) as nat, f, acc.push(e))
                    },
                },
            },
        }
    }
}

/// The item location entry at `cursor`, and the cursor after it.
pub open spec fn spec_location(p: Seq<u8>, c: int, f: IlocFormat) -> Result<(ItemLocationView, int), ErrorKind> {
    let idw: int = if f.version < 2 { 2 } else { 4 };
    if p.len() < c + idw {
        Err(ErrorKind::MalformedInput)
    } else {
        let id = iref::id_at(p, c, idw) as u32;
        let c1 = c + idw;
        if has_methods(f.version) && p.len() < c1 + 2 {
            Err(ErrorKind::MalformedInput)
        } else {
            let cm = if has_methods(f.version) { spec_method((p[c1 + 1] % 16) as int) } else { ConstructionMethod::FileOffset };
            let c2 = if has_methods(f.version) { c1 + 2 } else { c1 };
            if p.len() < c2 + 2 {
                Err(ErrorKind::MalformedInput)
            } else {
                let dri = bytes::be16_at(p, c2) as u16;
                match spec_var_uint(p, c2 + 2, f.base_offset_size as int) {
                    Err(k) => Err(k),
                    Ok((base, c3)) => if p.len() < c3 + 2 {
                        Err(ErrorKind::MalformedInput)
                    } else {
                        match spec_extents(p, c3 + 2, bytes::be16_at(p, c3) as nat, f, Seq::empty()) {
                            Err(k) => Err(k),
                            Ok((ext, c4)) => Ok((
                                ItemLocationView {
                                    item_id: id,
                                    construction_method: cm,
                                    data_reference_index: dri,
                                    base_offset: base,
                                    extents: ext,
                                },
                                c4,
                            )),
                        }
                    },
                }
            }
        }
    }
}

/// Reads `count` item location entries at `cursor` into `acc`; a later entry for the same
/// item replaces an earlier one.
pub open spec fn spec_locations(p: Seq<u8>, cursor: int, count: nat, f: IlocFormat, acc: Map<u32, ItemLocationView>) -> Result<Map<u32, ItemLocationView>, ErrorKind>
    decreases count,
{
    if count == 0 {
        Ok(acc)
    } else {
        match spec_location(p, cursor, f) {
            Err(k) => Err(k),
            Ok((loc, c)) => spec_locations(p, c, (count - 1) as nat, f, acc.insert(loc.item_id, loc)),
        }
    }
}

/// The field widths declared by the two bytes at the start of the payload `p`.
pub open spec fn spec_format(p: Seq<u8>, version: u8) -> IlocFormat {
    IlocFormat {
        version,
        offset_size: (p[0] / 16) as usize,
        length_size: (p[0] % 16) as usize,
        base_offset_size: (p[1] / 16) as usize,
        index_size: if has_methods(version) { (p[1] % 16) as usize } else { 0 },
    }
}

/// The `iloc` box in `s` (bytes starting at the box).
pub open spec fn spec_iloc(s: Seq<u8>, limits: Limits) -> Result<Map<u32, ItemLocationView>, ErrorKind> {
    match header::spec_full_box_header(s) {
        Err(k) => Err(k),
        Ok(full) => if full.header.box_type != fourcc::spec_iloc() {
            Err(ErrorKind::InvalidContainer)
        } else {
            match header::spec_payload(s, full.header.size as int, full.total_header_size as int) {
                Err(k) => Err(k),
                Ok(p) => if p.len() < 2 {
                    Err(ErrorKind::MalformedInput)
                } else {
                    let f = spec_format(p, full.version);
                    let cw: int = if full.version < 2 { 2 } else { 4 };
                    if p.len() < 2 + cw {
                        Err(ErrorKind::MalformedInput)
                    } else {
                        let count = iref::id_at(p, 2, cw);
                        if !limits.allows_item_count(count) {
                            Err(ErrorKind::LimitExceeded)
                        } else {
                            spec_locations(p, 2 + cw, count as nat, f, Map::empty())
                        }
                    }
                },
            }
        },
    }
}

/// Reads the extents of one entry.
fn read_extents(p: &[u8], cursor: usize, count: u16, f: IlocFormat) -> (r: HeicResult<(Vec<ItemExtent>, usize)>)
    requires
        cursor <= p@.len(),
        f.offset_size < 16,
        f.length_size < 16,
        f.index_size < 16,
    ensures
        match spec_extents(p@, cursor as int, count as nat, f, Seq::empty()) {
            Ok((ext, c)) => r matches Ok((v, rc)) && v@ == ext && rc == c && rc <= p@.len(),
            Err(k) => r matches Err(e) && e.kind() == k,
        },
{
    let indexed = (f.version == 1 || f.version == 2) && f.index_size > 0;
    let mut extents: Vec<ItemExtent> = Vec::new();
    let mut cur = cursor;
    let mut k: u16 = 0;
    let ghost target = spec_extents(p@, cursor as int, count as nat, f, Seq::empty());
    while k < count
        invariant
            cur <= p@.len(),
            k <= count,
            f.offset_size < 16,
            f.length_size < 16,
            f.index_size < 16,
            indexed == (has_methods(f.version) && f.index_size > 0),
            target == spec_extents(p@, cursor as int, count as nat, f, Seq::empty()),
            target == spec_extents(p@, cur as int, (count - k) as nat, f, extents@),
        decreases count - k,
    {
        let index = if indexed {
            Some(read_variable_uint(p, &mut cur, f.index_size)?)
        } else {
            None
        };
        let offset = read_variable_uint(p, &mut cur, f.offset_size)?;
        let length = read_variable_uint(p, &mut cur, f.length_size)?;
        extents.push(ItemExtent { offset, length, index });
        k = k + 1;
    }
    Ok((extents, cur))
}

/// Reads the item location entry at `cursor`.
fn read_location(p: &[u8], cursor: usize, f: IlocFormat) -> (r: HeicResult<(ItemLocation, usize)>)
    requires
        cursor <= p@.len(),
        f.offset_size < 16,
        f.length_size < 16,
        f.index_size < 16,
        f.base_offset_size < 16,
    ensures
        match spec_location(p@, cursor as int, f) {
            Ok((loc, c)) => r matches Ok((l, rc)) && l@ == loc && rc == c && rc <= p@.len(),
            Err(k) => r matches Err(e) && e.kind() == k,
        },
{
    let len = p.len();
    let wide = f.version >= 2;
    let idw: usize = if wide { 4 } else { 2 };
    if len - cursor < idw {
        return Err(HeicError::malformed("Truncated iloc item ID"));
    }
    let item_id = read_id(p, cursor, wide);
    let mut cur = cursor + idw;
    let methods = f.version == 1 || f.version == 2;
    let construction_method = if methods {
        if len - cur < 2 {
            return Err(HeicError::malformed("Truncated iloc construction method"));
        }
        let raw = p[cur + 1];
        proof {
            crate::bytes::lemma_byte_bits(raw);
        }
        let code = raw & 0x0f;
        cur = cur + 2;
        if code == 1 {
            ConstructionMethod::IdatOffset
        } else if code == 2 {
            ConstructionMethod::ItemOffset
        } else {
            ConstructionMethod::FileOffset
        }
    } else {
        ConstructionMethod::FileOffset
    };
    if len - cur < 2 {
        return Err(HeicError::malformed("Truncated iloc data_reference_index"));
    }
    let data_reference_index = read_be16(p, cur);
    cur = cur + 2;
    let base_offset = read_variable_uint(p, &mut cur, f.base_offset_size)?;
    if len - cur < 2 {
        return Err(HeicError::malformed("Truncated iloc extent_count"));
    }
    let extent_count = read_be16(p, cur);
    cur = cur + 2;
    let (extents, end) = read_extents(p, cur, extent_count, f)?;
    Ok((ItemLocation { item_id, construction_method, data_reference_index, base_offset, extents }, end))
}

impl ItemLocationBox {
    /// Parses an `iloc` box from its raw bytes.
    pub fn parse(input: &[u8], limits: &Limits) -> (r: HeicResult<Self>)
        ensures
            match r {
                Ok(b) => spec_iloc(input@, *limits) == Ok::<Map<u32, ItemLocationView>, ErrorKind>(b@),
                Err(e) => spec_iloc(input@, *limits) == Err::<Map<u32, ItemLocationView>, ErrorKind>(e.kind()),
            },
    {
        let full = FullBoxHeader::parse(input)?;
        if !full.header.box_type.same(&FourCC::iloc()) {
            return Err(HeicError::invalid_container("Expected 'iloc' box"));
        }
        let payload = full.payload(input)?;
        let len = payload.len();
        if len < 2 {
            return Err(HeicError::malformed("Insufficient bytes for iloc size descriptors"));
        }
        let b0 = payload[0];
        let b1 = payload[1];
        proof {
            crate::bytes::lemma_byte_bits(b0);
            crate::bytes::lemma_byte_bits(b1);
        }
        let methods = full.version == 1 || full.version == 2;
        let f = IlocFormat {
            version: full.version,
            offset_size: (b0 >> 4u8) as usize,
            length_size: (b0 & 0x0f) as usize,
            base_offset_size: (b1 >> 4u8) as usize,
            index_size: if methods { (b1 & 0x0f) as usize } else { 0 },
        };
        assert(f == spec_format(payload@, full.version));
        let wide = full.version >= 2;
        let cw: usize = if wide { 4 } else { 2 };
        if len < 2 + cw {
            return Err(HeicError::malformed("Truncated iloc item count"));
        }
        let item_count = read_id(payload, 2, wide);
        limits.check_item_count(item_count as usize)?;
        let mut items: HashMap<u32, ItemLocation> = HashMap::new();
        let mut cursor: usize = 2 + cw;
        let mut k: u32 = 0;
        let ghost target = spec_iloc(input@, *limits);
        assert(locations_view(items@) =~= Map::<u32, ItemLocationView>::empty());
        while k < item_count
            invariant
                cursor <= payload@.len(),
                k <= item_count,
                f.offset_size < 16,
                f.length_size < 16,
                f.index_size < 16,
                f.base_offset_size < 16,
                target == spec_iloc(input@, *limits),
                target == spec_locations(payload@, cursor as int, (item_count - k) as nat, f, locations_view(items@)),
            decreases item_count - k,
        {
            let (loc, c) = read_location(payload, cursor, f)?;
            let ghost lv = loc@;
            let ghost before = items@;
            items.insert(loc.item_id, loc);
            assert(locations_view(items@) =~= locations_view(before).insert(lv.item_id, lv));
            cursor = c;
            k = k + 1;
        }
        Ok(ItemLocationBox { items })
    }
}

} // verus!
