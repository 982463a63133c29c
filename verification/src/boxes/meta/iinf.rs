//! `iinf` (item information box) and `infe` entry parsing.

use crate::boxes::fourcc;
use crate::boxes::fourcc::FourCC;
use crate::boxes::header;
use crate::boxes::header::{BoxHeader, FullBoxHeader};
use crate::boxes::iref;
use crate::boxes::iref::read_id;
use crate::boxes::iter;
use crate::boxes::iter::BoxIter;
use crate::bytes;
use crate::bytes::{read_be16, read_be32};
use crate::error::{ErrorKind, HeicError, HeicResult};
use crate::limits::Limits;
use crate::text;
use crate::text::{find_zero, lossy_string};
use std::collections::HashMap;
use vstd::prelude::*;

verus! {

broadcast use vstd::std_specs::hash::group_hash_axioms;

/// Information entry for one item, parsed from `infe`.
#[derive(Debug, Clone, PartialEq, Eq)]
pub struct ItemInfoEntry {
    /// Item identifier.
    pub item_id: u32,
    /// Protection index (0 for unprotected items).
    pub item_protection_index: u16,
    /// Item type (e.g. `hvc1`, `grid`, `Exif`, `mime`).
    pub item_type: FourCC,
    /// Item name.
    pub item_name: String,
    /// MIME content type, for `mime` items.
    pub content_type: Option<String>,
}

/// Mathematical content of an [`ItemInfoEntry`].
pub struct ItemInfoEntryView {
    /// Item identifier.
    pub item_id: u32,
    /// Protection index.
    pub item_protection_index: u16,
    /// Item type.
    pub item_type: FourCC,
    /// Item name characters.
    pub item_name: Seq<char>,
    /// Content type characters, when present.
    pub content_type: Option<Seq<char>>,
}

impl View for ItemInfoEntry {
    type V = ItemInfoEntryView;

    open spec fn view(&self) -> ItemInfoEntryView {
        ItemInfoEntryView {
            item_id: self.item_id,
            item_protection_index: self.item_protection_index,
            item_type: self.item_type,
            item_name: self.item_name@,
            content_type: match self.content_type {
                Some(c) => Some(c@),
                None => None,
            },
        }
    }
}

/// Item information box (`iinf`).
#[derive(Debug, Clone)]
pub struct ItemInfo {
    /// Entry of each item.
    pub entries: HashMap<u32, ItemInfoEntry>,
}

/// The entries of a table, by item.
pub open spec fn entries_view(m: Map<u32, ItemInfoEntry>) -> Map<u32, ItemInfoEntryView> {
    m.map_values(|e: ItemInfoEntry| e@)
}

impl View for ItemInfo {
    type V = Map<u32, ItemInfoEntryView>;

    open spec fn view(&self) -> Map<u32, ItemInfoEntryView> {
        entries_view(self.entries@)
    }
}

/// The zero-terminated string at `cursor` in `p` (lossy UTF-8; unterminated strings run to
/// the end).
pub open spec fn spec_string_at(p: Seq<u8>, cursor: int) -> Seq<char> {
    text::utf8_lossy(p.subrange(cursor, text::spec_first_zero(p, cursor)))
}

/// Reads a zero-terminated string (lossy UTF-8) at `*cursor` and moves the cursor past its
/// terminator; an unterminated string runs to the end of `data`. It always succeeds.
pub fn read_null_terminated_string(data: &[u8], cursor: &mut usize) -> (r: HeicResult<String>)
    requires
        *old(cursor) <= data@.len(),
    ensures
        r matches Ok(s) && s@ == spec_string_at(data@, *old(cursor) as int),
        *final(cursor) == text::spec_after_string(data@, *old(cursor) as int),
        *old(cursor) <= *final(cursor) <= data@.len(),
{
    let start = *cursor;
    let end = find_zero(data, start);
    let s = lossy_string(&data[start..end]);
    if end < data.len() {
        *cursor = end + 1;
    } else {
        *cursor = end;
    }
    Ok(s)
}

/// The `infe` box in `s` (bytes starting at the box). Versions 2 and 3 carry an item type
/// (and a content type for `mime` items); versions 0 and 1 have none, so the type is `hvc1`,
/// and an optional second string is the content type.
pub open spec fn spec_infe(s: Seq<u8>) -> Result<ItemInfoEntryView, ErrorKind> {
    match header::spec_full_box_header(s) {
        Err(k) => Err(k),
        Ok(full) => match header::spec_payload(s, full.header.size as int, full.total_header_size as int) {
            Err(k) => Err(k),
            Ok(p) => {
                if full.version == 2 || full.version == 3 {
                    let v3 = full.version == 3;
                    let head: int = if v3 { 10 } else { 8 };
                    if p.len() < head {
                        Err(ErrorKind::MalformedInput)
                    } else {
                        let id = iref::id_at(p, 0, if v3 { 4 } else { 2 }) as u32;
                        let at: int = if v3 { 4 } else { 2 };
                        let t = fourcc::fourcc_at(p, at + 2);
                        let c = text::spec_after_string(p, head);
                        Ok(ItemInfoEntryView {
                            item_id: id,
                            item_protection_index: bytes::be16_at(p, at) as u16,
                            item_type: t,
                            item_name: spec_string_at(p, head),
                            content_type: if t == fourcc::spec_mime() { Some(spec_string_at(p, c)) } else { None },
                        })
                    }
                } else if p.len() < 4 {
                    Err(ErrorKind::MalformedInput)
                } else {
                    let c = text::spec_after_string(p, 4);
                    Ok(ItemInfoEntryView {
                        item_id: bytes::be16_at(p, 0) as u32,
                        item_protection_index: bytes::be16_at(p, 2) as u16,
                        item_type: fourcc::spec_hvc1(),
                        item_name: spec_string_at(p, 4),
                        content_type: if c < p.len() { Some(spec_string_at(p, c)) } else { None },
                    })
                }
            },
        },
    }
}

/// Parses a single `infe` item information entry box.
pub fn parse_infe(input: &[u8]) -> (r: HeicResult<ItemInfoEntry>)
    ensures
        crate::error::agrees_view(r, spec_infe(input@)),
{
    let full = FullBoxHeader::parse(input)?;
    let payload = full.payload(input)?;
    let len = payload.len();
    if full.version == 2 || full.version == 3 {
        let v3 = full.version == 3;
        let head: usize = if v3 { 10 } else { 8 };
        if len < head {
            return Err(HeicError::malformed("Truncated infe box"));
        }
        let item_id = read_id(payload, 0, v3);
        let at: usize = if v3 { 4 } else { 2 };
        let item_protection_index = read_be16(payload, at);
        let item_type = fourcc::read_fourcc(payload, at + 2);
        let mut cursor = head;
        let item_name = read_null_terminated_string(payload, &mut cursor)?;
        let content_type = if item_type.same(&FourCC::mime()) {
            Some(read_null_terminated_string(payload, &mut cursor)?)
        } else {
            None
        };
        Ok(ItemInfoEntry { item_id, item_protection_index, item_type, item_name, content_type })
    } else {
        if len < 4 {
            return Err(HeicError::malformed("Truncated version 0/1 infe box"));
        }
        let item_id = read_be16(payload, 0) as u32;
        let item_protection_index = read_be16(payload, 2);
        let mut cursor: usize = 4;
        let item_name = read_null_terminated_string(payload, &mut cursor)?;
        let content_type = if cursor < len {
            Some(read_null_terminated_string(payload, &mut cursor)?)
        } else {
            None
        };
        Ok(ItemInfoEntry { item_id, item_protection_index, item_type: FourCC::hvc1(), item_name, content_type })
    }
}

/// One child of `iinf`: each `infe` adds its entry (replacing an earlier one for the same
/// item), other boxes are skipped.
pub open spec fn spec_iinf_step() -> spec_fn(Map<u32, ItemInfoEntryView>, BoxHeader, Seq<u8>) -> Result<Map<u32, ItemInfoEntryView>, ErrorKind> {
    |acc: Map<u32, ItemInfoEntryView>, h: BoxHeader, b: Seq<u8>|
        if h.box_type == fourcc::spec_infe() {
            match spec_infe(b) {
                Err(k) => Err(k),
                Ok(e) => Ok(acc.insert(e.item_id, e)),
            }
        } else {
            Ok(acc)
        }
}

/// The `iinf` box in `s` (bytes starting at the box): an entry count (16 bits in version 0,
/// else 32) checked against the item limit, then the entry boxes.
pub open spec fn spec_iinf(s: Seq<u8>, limits: Limits) -> Result<Map<u32, ItemInfoEntryView>, ErrorKind> {
    match header::spec_full_box_header(s) {
        Err(k) => Err(k),
        Ok(full) => if full.header.box_type != fourcc::spec_iinf() {
            Err(ErrorKind::InvalidContainer)
        } else {
            match header::spec_payload(s, full.header.size as int, full.total_header_size as int) {
                Err(k) => Err(k),
                Ok(p) => {
                    let cw: int = if full.version == 0 { 2 } else { 4 };
                    if p.len() < cw {
                        Err(ErrorKind::MalformedInput)
                    } else if !limits.allows_item_count(iref::id_at(p, 0, cw)) {
                        Err(ErrorKind::LimitExceeded)
                    } else {
                        iter::spec_fold_boxes(p.skip(cw), Map::empty(), spec_iinf_step())
                    }
                },
            }
        },
    }
}

impl ItemInfo {
    /// Parses an `iinf` box and all its `infe` children.
    pub fn parse(input: &[u8], limits: &Limits) -> (r: HeicResult<Self>)
        ensures
            match r {
                Ok(b) => spec_iinf(input@, *limits) == Ok::<Map<u32, ItemInfoEntryView>, ErrorKind>(b@),
                Err(e) => spec_iinf(input@, *limits) == Err::<Map<u32, ItemInfoEntryView>, ErrorKind>(e.kind()),
            },
    {
        let full = FullBoxHeader::parse(input)?;
        if !full.header.box_type.same(&FourCC::iinf()) {
            return Err(HeicError::invalid_container("Expected 'iinf' box"));
        }
        let payload = full.payload(input)?;
        let len = payload.len();
        let wide = full.version != 0;
        let cw: usize = if wide { 4 } else { 2 };
        if len < cw {
            return Err(HeicError::malformed("Truncated iinf entry count"));
        }
        let entry_count = read_id(payload, 0, wide);
        limits.check_item_count(entry_count as usize)?;
        let child_data = &payload[cw..len];
        assert(child_data@ =~= payload@.skip(cw as int));
        let ghost step = spec_iinf_step();
        let mut entries: HashMap<u32, ItemInfoEntry> = HashMap::new();
        let mut it = BoxIter::new(child_data);
        assert(child_data@.skip(0) =~= child_data@);
        assert(entries_view(entries@) =~= Map::<u32, ItemInfoEntryView>::empty());
        loop
            invariant
                it.spec_data() == child_data@,
                0 <= it.spec_offset() <= child_data@.len(),
                child_data@.len() == child_data.len(),
                step == spec_iinf_step(),
                spec_iinf(input@, *limits) == iter::spec_fold_boxes(child_data@, Map::empty(), step),
                iter::spec_fold_boxes(child_data@.skip(it.spec_offset()), entries_view(entries@), step)
                    == iter::spec_fold_boxes(child_data@, Map::empty(), step),
            ensures
                iter::spec_fold_boxes(child_data@, Map::empty(), step)
                    == Ok::<Map<u32, ItemInfoEntryView>, ErrorKind>(entries_view(entries@)),
            decreases child_data@.len() - it.spec_offset(),
        {
            let ghost off = it.spec_offset();
            let ghost rem = child_data@.skip(off);
            let next = it.next_box();
            match next {
                None => {
                    assert(rem.len() == 0);
                    break;
                },
                Some(res) => {
                    if res.is_err() {
                        assert(iter::spec_fold_boxes(rem, entries_view(entries@), step) is Err);
                    }
                    let (h, box_data) = res?;
                    let ghost n = iter::spec_next_box(rem)->Ok_0.1;
                    proof {
                        iter::lemma_next_box_progress(rem);
                        assert(rem.skip(n) =~= child_data@.skip(off + n));
                    }
                    if h.box_type.same(&FourCC::infe()) {
                        let entry = parse_infe(box_data)?;
                        let ghost ev = entry@;
                        let ghost before = entries@;
                        entries.insert(entry.item_id, entry);
                        assert(entries_view(entries@) =~= entries_view(before).insert(ev.item_id, ev));
                    }
                },
            }
        }
        Ok(ItemInfo { entries })
    }
}

} // verus!
