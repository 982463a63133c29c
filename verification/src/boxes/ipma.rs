//! `ipma` (item property association box) parsing.

use crate::boxes::header;
use crate::boxes::header::FullBoxHeader;
use crate::boxes::iref;
use crate::boxes::iref::read_id;
use crate::bytes;
use crate::bytes::{read_be16, read_be32};
use crate::error::{ErrorKind, HeicError, HeicResult};
use crate::limits::Limits;
use std::collections::HashMap;
use vstd::prelude::*;

verus! {

broadcast use vstd::std_specs::hash::group_hash_axioms;

/// One association of an item with a property.
#[derive(Debug, Clone, Copy, PartialEq, Eq, Structural)]
pub struct PropertyAssociation {
    /// Whether the property is essential to interpret the item.
    pub essential: bool,
    /// One-based index into the `ipco` properties (0 means none).
    pub property_index: usize,
}

/// Associations as read from `ipma`, keyed by item.
pub open spec fn assoc_map_view(m: Map<u32, Vec<PropertyAssociation>>) -> Map<u32, Seq<PropertyAssociation>> {
    m.map_values(|v: Vec<PropertyAssociation>| v@)
}

/// Reads `count` associations from `cursor`, each one byte (essential flag in the top bit,
/// seven-bit index) or, when `wide`, two bytes (flag in the top bit, fifteen-bit index).
/// Returns the new cursor and the associations, or `None` when the bytes run out.
pub open spec fn spec_assoc_list(p: Seq<u8>, cursor: int, count: nat, wide: bool) -> Option<(int, Seq<PropertyAssociation>)>
    decreases count,
{
    if count == 0 {
        Some((cursor, Seq::empty()))
    } else {
        let w: int = if wide { 2 } else { 1 };
        if p.len() < cursor + w {
            None
        } else {
            let a = if wide {
                let raw = bytes::be16_at(p, cursor);
                PropertyAssociation { essential: raw >= 0x8000, property_index: (raw % 0x8000) as usize }
            } else {
                PropertyAssociation { essential: p[cursor] >= 128, property_index: (p[cursor] % 128) as usize }
            };
            match spec_assoc_list(p, cursor + w, (count - 1) as nat, wide) {
                None => None,
                Some((c, rest)) => Some((c, seq![a] + rest)),
            }
        }
    }
}

/// Reads `count` entries from `cursor`: an item identifier (2 bytes in version 0, else 4),
/// an association count byte and the associations; a later entry for the same item replaces
/// an earlier one.
pub open spec fn spec_ipma_entries(p: Seq<u8>, cursor: int, count: nat, version: u8, wide: bool, acc: Map<u32, Seq<PropertyAssociation>>) -> Result<Map<u32, Seq<PropertyAssociation>>, ErrorKind>
    decreases count,
{
    if count == 0 {
        Ok(acc)
    } else {
        let w: int = if version < 1 { 2 } else { 4 };
        if p.len() < cursor + w {
            Err(ErrorKind::MalformedInput)
        } else if p.len() < cursor + w + 1 {
            Err(ErrorKind::MalformedInput)
        } else {
            let id = iref::id_at(p, cursor, w) as u32;
            match spec_assoc_list(p, cursor + w + 1, p[cursor + w] as nat, wide) {
                None => Err(ErrorKind::MalformedInput),
                Some((c, list)) => spec_ipma_entries(p, c, (count - 1) as nat, version, wide, acc.insert(id, list)),
            }
        }
    }
}

/// The `ipma` box in `s` (bytes starting at the box): a 32-bit entry count, checked against
/// the item limit, then the entries; flag bit 0 selects two-byte associations.
pub open spec fn spec_ipma(s: Seq<u8>, limits: Limits) -> Result<Map<u32, Seq<PropertyAssociation>>, ErrorKind> {
    match header::spec_full_box_header(s) {
        Err(k) => Err(k),
        Ok(full) => match header::spec_payload(s, full.header.size as int, full.total_header_size as int) {
            Err(k) => Err(k),
            Ok(p) => if p.len() < 4 {
                Err(ErrorKind::MalformedInput)
            } else if !limits.allows_item_count(bytes::be32_at(p, 0)) {
                Err(ErrorKind::LimitExceeded)
            } else {
                spec_ipma_entries(p, 4, bytes::be32_at(p, 0) as nat, full.version, full.flags % 2 == 1, Map::empty())
            },
        },
    }
}

/// Reads the associations of one entry.
fn read_assoc_list(p: &[u8], cursor: usize, count: u8, wide: bool) -> (r: Option<(usize, Vec<PropertyAssociation>)>)
    requires
        cursor <= p@.len(),
    ensures
        match spec_assoc_list(p@, cursor as int, count as nat, wide) {
            None => r is None,
            Some((c, list)) => r matches Some((rc, v)) && rc == c && v@ == list && rc <= p@.len(),
        },
{
    let len = p.len();
    let mut v: Vec<PropertyAssociation> = Vec::new();
    let mut cur = cursor;
    let mut k: u8 = 0;
    let ghost target = spec_assoc_list(p@, cursor as int, count as nat, wide);
    while k < count
        invariant
            len == p@.len(),
            cur <= len,
            k <= count,
            target == spec_assoc_list(p@, cursor as int, count as nat, wide),
            target == match spec_assoc_list(p@, cur as int, (count - k) as nat, wide) {
                None => None,
                Some((c, rest)) => Some((c, v@ + rest)),
            },
        decreases count - k,
    {
        let a = if wide {
            if len - cur < 2 {
                return None;
            }
            let raw = read_be16(p, cur);
            proof {
                crate::bytes::lemma_wide_bits(raw, 0);
            }
            cur = cur + 2;
            PropertyAssociation { essential: raw & 0x8000 != 0, property_index: (raw & 0x7fff) as usize }
        } else {
            if len - cur < 1 {
                return None;
            }
            let raw = p[cur];
            proof {
                crate::bytes::lemma_byte_bits(raw);
            }
            cur = cur + 1;
            PropertyAssociation { essential: raw & 0x80 != 0, property_index: (raw & 0x7f) as usize }
        };
        proof {
            let rest = spec_assoc_list(p@, cur as int, (count - k - 1) as nat, wide);
            if let Some((c, r)) = rest {
                assert(v@.push(a) + r =~= v@ + (seq![a] + r));
            }
        }
        v.push(a);
        k = k + 1;
    }
    assert(v@ + Seq::<PropertyAssociation>::empty() =~= v@);
    Some((cur, v))
}

/// Parses the associations of an `ipma` box, keyed by item identifier.
pub fn parse_ipma(input: &[u8], limits: &Limits) -> (r: HeicResult<HashMap<u32, Vec<PropertyAssociation>>>)
    ensures
        match r {
            Ok(m) => spec_ipma(input@, *limits) == Ok::<Map<u32, Seq<PropertyAssociation>>, ErrorKind>(assoc_map_view(m@)),
            Err(e) => spec_ipma(input@, *limits) == Err::<Map<u32, Seq<PropertyAssociation>>, ErrorKind>(e.kind()),
        },
{
    let full = FullBoxHeader::parse(input)?;
    let payload = full.payload(input)?;
    let len = payload.len();
    if len < 4 {
        return Err(HeicError::malformed("Truncated ipma payload"));
    }
    let entry_count = read_be32(payload, 0);
    limits.check_item_count(entry_count as usize)?;
    let wide_ids = full.version >= 1;
    let flags = full.flags;
    proof {
        crate::bytes::lemma_wide_bits(0, flags);
    }
    let wide = flags & 1 != 0;
    let mut associations: HashMap<u32, Vec<PropertyAssociation>> = HashMap::new();
    let mut cursor: usize = 4;
    let mut k: u32 = 0;
    let ghost target = spec_ipma(input@, *limits);
    assert(assoc_map_view(associations@) =~= Map::<u32, Seq<PropertyAssociation>>::empty());
    while k < entry_count
        invariant
            len == payload@.len(),
            cursor <= len,
            k <= entry_count,
            wide_ids == (full.version >= 1),
            target == spec_ipma(input@, *limits),
            target == spec_ipma_entries(payload@, cursor as int, (entry_count - k) as nat, full.version, wide, assoc_map_view(associations@)),
        decreases entry_count - k,
    {
        let w: usize = if wide_ids { 4 } else { 2 };
        if len - cursor < w {
            return Err(HeicError::malformed("Truncated ipma item ID"));
        }
        let item_id = read_id(payload, cursor, wide_ids);
        cursor = cursor + w;
        if len - cursor < 1 {
            return Err(HeicError::malformed("Truncated ipma association count"));
        }
        let assoc_count = payload[cursor];
        cursor = cursor + 1;
        match read_assoc_list(payload, cursor, assoc_count, wide) {
            None => {
                return Err(HeicError::malformed("Truncated ipma entry"));
            },
            Some((c, item_assocs)) => {
                let ghost list = item_assocs@;
                let ghost before = associations@;
                associations.insert(item_id, item_assocs);
                assert(assoc_map_view(associations@) =~= assoc_map_view(before).insert(item_id, list));
                cursor = c;
            },
        }
        k = k + 1;
    }
    Ok(associations)
}

} // verus!
