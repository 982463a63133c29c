//! `iref` (item reference box) parsing and reference lookups (`dimg`, `auxl`, `cdsc`).

use crate::boxes::fourcc;
use crate::boxes::fourcc::FourCC;
use crate::boxes::header;
use crate::boxes::header::{BoxHeader, FullBoxHeader};
use crate::boxes::iter;
use crate::boxes::iter::BoxIter;
use crate::bytes;
use crate::bytes::{read_be16, read_be32};
use crate::error::{ErrorKind, HeicError, HeicResult};
use crate::limits::Limits;
use vstd::prelude::*;

verus! {

/// One typed reference from an item to a list of items.
#[derive(Debug, Clone, PartialEq, Eq)]
pub struct ItemReference {
    /// Referencing item.
    pub from_item_id: u32,
    /// Reference type (e.g. `dimg`, `auxl`, `cdsc`, `thmb`).
    pub reference_type: FourCC,
    /// Referenced items in declaration order.
    pub to_item_ids: Vec<u32>,
}

/// Mathematical content of an [`ItemReference`].
pub struct ItemReferenceView {
    /// Referencing item.
    pub from_item_id: u32,
    /// Reference type.
    pub reference_type: FourCC,
    /// Referenced items in declaration order.
    pub to_item_ids: Seq<u32>,
}

impl View for ItemReference {
    type V = ItemReferenceView;

    open spec fn view(&self) -> ItemReferenceView {
        ItemReferenceView {
            from_item_id: self.from_item_id,
            reference_type: self.reference_type,
            to_item_ids: self.to_item_ids@,
        }
    }
}

/// Item reference box (`iref`).
#[derive(Debug, Clone, PartialEq, Eq, Default)]
pub struct ItemReferenceBox {
    /// All references in declaration order.
    pub references: Vec<ItemReference>,
}

/// The views of a sequence of references.
pub open spec fn refs_view(v: Seq<ItemReference>) -> Seq<ItemReferenceView> {
    v.map_values(|r: ItemReference| r@)
}

impl View for ItemReferenceBox {
    type V = Seq<ItemReferenceView>;

    open spec fn view(&self) -> Seq<ItemReferenceView> {
        refs_view(self.references@)
    }
}

/// An item identifier of `width` bytes (2 or 4) at `i`.
pub open spec fn id_at(s: Seq<u8>, i: int, width: int) -> int {
    if width == 2 { bytes::be16_at(s, i) } else { bytes::be32_at(s, i) }
}

/// `count` identifiers of `width` bytes starting at `cursor`, or `None` when `s` ends first.
pub open spec fn spec_id_list(s: Seq<u8>, cursor: int, count: nat, width: int) -> Option<Seq<u32>>
    decreases count,
{
    if count == 0 {
        Some(Seq::empty())
    } else if s.len() < cursor + width {
        None
    } else {
        match spec_id_list(s, cursor + width, (count - 1) as nat, width) {
            None => None,
            Some(rest) => Some(seq![id_at(s, cursor, width) as u32] + rest),
        }
    }
}

/// The body of one reference box (after its header): the referencing item, a 16-bit count,
/// then the referenced items; identifiers take 2 bytes in version 0 and 4 bytes otherwise.
pub open spec fn spec_reference(p: Seq<u8>, reference_type: FourCC, version: u8, limits: Limits) -> Result<ItemReferenceView, ErrorKind> {
    let w: int = if version == 0 { 2 } else { 4 };
    if p.len() < w {
        Err(ErrorKind::MalformedInput)
    } else if p.len() < w + 2 {
        Err(ErrorKind::MalformedInput)
    } else {
        let count = bytes::be16_at(p, w);
        if !limits.allows_item_count(count) {
            Err(ErrorKind::LimitExceeded)
        } else {
            match spec_id_list(p, w + 2, count as nat, w) {
                None => Err(ErrorKind::MalformedInput),
                Some(ids) => Ok(ItemReferenceView {
                    from_item_id: id_at(p, 0, w) as u32,
                    reference_type,
                    to_item_ids: ids,
                }),
            }
        }
    }
}

/// One child of an `iref` payload appended to the references read so far.
pub open spec fn spec_iref_step(version: u8, limits: Limits) -> spec_fn(Seq<ItemReferenceView>, BoxHeader, Seq<u8>) -> Result<Seq<ItemReferenceView>, ErrorKind> {
    |acc: Seq<ItemReferenceView>, h: BoxHeader, b: Seq<u8>|
        match header::spec_payload(b, h.size as int, h.header_size as int) {
            Err(k) => Err(k),
            Ok(p) => match spec_reference(p, h.box_type, version, limits) {
                Err(k) => Err(k),
                Ok(r) => Ok(acc.push(r)),
            },
        }
}

/// The `iref` box in `s` (bytes starting at the box): a full box of type `iref` whose payload
/// is a sequence of reference boxes.
pub open spec fn spec_iref(s: Seq<u8>, limits: Limits) -> Result<Seq<ItemReferenceView>, ErrorKind> {
    match header::spec_full_box_header(s) {
        Err(k) => Err(k),
        Ok(full) => if full.header.box_type != fourcc::spec_iref() {
            Err(ErrorKind::InvalidContainer)
        } else {
            match header::spec_payload(s, full.header.size as int, full.total_header_size as int) {
                Err(k) => Err(k),
                Ok(p) => iter::spec_fold_boxes(p, Seq::empty(), spec_iref_step(full.version, limits)),
            }
        },
    }
}

/// Reads an identifier of 2 or 4 bytes.
pub fn read_id(s: &[u8], pos: usize, wide: bool) -> (v: u32)
    requires
        pos + (if wide { 4int } else { 2int }) <= s@.len(),
    ensures
        v == id_at(s@, pos as int, if wide { 4 } else { 2 }),
{
    if wide {
        read_be32(s, pos)
    } else {
        read_be16(s, pos) as u32
    }
}

/// Parses the body of one reference box.
fn parse_reference(p: &[u8], reference_type: FourCC, version: u8, limits: &Limits) -> (r: HeicResult<ItemReference>)
    ensures
        crate::error::agrees_view(r, spec_reference(p@, reference_type, version, *limits)),
{
    let wide = version != 0;
    let w: usize = if wide { 4 } else { 2 };
    if p.len() < w {
        return Err(HeicError::malformed("Truncated iref from_item_id"));
    }
    let from_item_id = read_id(p, 0, wide);
    if p.len() < w + 2 {
        return Err(HeicError::malformed("Truncated iref reference_count"));
    }
    let ref_count = read_be16(p, w);
    limits.check_item_count(ref_count as usize)?;
    let mut to_item_ids: Vec<u32> = Vec::new();
    let mut cursor = w + 2;
    let mut k: u16 = 0;
    let ghost full = spec_id_list(p@, (w + 2) as int, ref_count as nat, w as int);
    while k < ref_count
        invariant
            p@.len() == p.len(),
            w == (if wide { 4usize } else { 2usize }),
            wide == (version != 0),
            p@.len() >= w + 2,
            ref_count as int == bytes::be16_at(p@, w as int),
            limits.allows_item_count(ref_count as int),
            from_item_id == id_at(p@, 0, w as int),
            k <= ref_count,
            cursor <= p@.len(),
            full == spec_id_list(p@, (w + 2) as int, ref_count as nat, w as int),
            full == match spec_id_list(p@, cursor as int, (ref_count - k) as nat, w as int) {
                None => None,
                Some(rest) => Some(to_item_ids@ + rest),
            },
        decreases ref_count - k,
    {
        if p.len() - cursor < w {
            assert(spec_id_list(p@, cursor as int, (ref_count - k) as nat, w as int) is None);
            return Err(HeicError::malformed("Truncated iref to_item_id"));
        }
        let id = read_id(p, cursor, wide);
        proof {
            let rest = spec_id_list(p@, (cursor + w) as int, (ref_count - k - 1) as nat, w as int);
            if let Some(r) = rest {
                assert(to_item_ids@.push(id) + r =~= to_item_ids@ + (seq![id] + r));
            }
        }
        to_item_ids.push(id);
        cursor = cursor + w;
        k = k + 1;
    }
    assert(to_item_ids@ + Seq::<u32>::empty() =~= to_item_ids@);
    Ok(ItemReference { from_item_id, reference_type, to_item_ids })
}

/// Whether `v` contains `x`.
pub fn contains_id(v: &[u32], x: u32) -> (r: bool)
    ensures
        r == v@.contains(x),
{
    let n = v.len();
    let mut i: usize = 0;
    while i < n
        invariant
            n == v@.len(),
            i <= n,
            forall|j: int| 0 <= j < i ==> v@[j] != x,
        decreases n - i,
    {
        if v[i] == x {
            return true;
        }
        i = i + 1;
    }
    false
}

/// Tiles of a grid item: the targets of the first `dimg` reference from `id`, or nothing.
pub open spec fn spec_derived_tiles(refs: Seq<ItemReferenceView>, id: u32) -> Seq<u32>
    decreases refs.len(),
{
    if refs.len() == 0 {
        Seq::empty()
    } else if refs[0].from_item_id == id && refs[0].reference_type == fourcc::spec_dimg() {
        refs[0].to_item_ids
    } else {
        spec_derived_tiles(refs.drop_first(), id)
    }
}

/// The source of the first reference of type `t` whose targets include `id`.
pub open spec fn spec_find_referrer(refs: Seq<ItemReferenceView>, t: FourCC, id: u32) -> Option<u32>
    decreases refs.len(),
{
    if refs.len() == 0 {
        None
    } else if refs[0].reference_type == t && refs[0].to_item_ids.contains(id) {
        Some(refs[0].from_item_id)
    } else {
        spec_find_referrer(refs.drop_first(), t, id)
    }
}

impl ItemReferenceBox {
    /// Parses an `iref` box from its bytes (including the header).
    pub fn parse(input: &[u8], limits: &Limits) -> (r: HeicResult<Self>)
        ensures
            crate::error::agrees_view(r, spec_iref(input@, *limits)),
    {
        let full = FullBoxHeader::parse(input)?;
        if !full.header.box_type.same(&FourCC::iref()) {
            return Err(HeicError::invalid_container("Expected 'iref' box"));
        }
        let payload = full.payload(input)?;
        let ghost step = spec_iref_step(full.version, *limits);
        let mut references: Vec<ItemReference> = Vec::new();
        let mut it = BoxIter::new(payload);
        assert(payload@.skip(0) =~= payload@);
        assert(refs_view(references@) =~= Seq::<ItemReferenceView>::empty());
        loop
            invariant
                it.spec_data() == payload@,
                0 <= it.spec_offset() <= payload@.len(),
                payload@.len() == payload.len(),
                step == spec_iref_step(full.version, *limits),
                spec_iref(input@, *limits) == iter::spec_fold_boxes(payload@, Seq::empty(), step),
                iter::spec_fold_boxes(payload@.skip(it.spec_offset()), refs_view(references@), step)
                    == iter::spec_fold_boxes(payload@, Seq::empty(), step),
            ensures
                iter::spec_fold_boxes(payload@, Seq::empty(), step) == Ok::<Seq<ItemReferenceView>, ErrorKind>(refs_view(references@)),
            decreases payload@.len() - it.spec_offset(),
        {
            let ghost off = it.spec_offset();
            let ghost rem = payload@.skip(off);
            let next = it.next_box();
            match next {
                None => {
                    assert(rem.len() == 0);
                    break;
                },
                Some(res) => {
                    if res.is_err() {
                        assert(iter::spec_fold_boxes(rem, refs_view(references@), step) is Err);
                    }
                    let (ref_header, ref_data) = res?;
                    let ghost n = iter::spec_next_box(rem)->Ok_0.1;
                    proof {
                        iter::lemma_next_box_progress(rem);
                    }
                    let ref_payload = ref_header.payload(ref_data)?;
                    let reference = parse_reference(ref_payload, ref_header.box_type, full.version, limits)?;
                    proof {
                        assert(rem.skip(n) =~= payload@.skip(off + n));
                        assert(refs_view(references@.push(reference)) =~= refs_view(references@).push(reference@));
                    }
                    references.push(reference);
                },
            }
        }
        Ok(ItemReferenceBox { references })
    }

    /// Tile item IDs of a grid item (targets of its `dimg` reference), in row-major order.
    pub fn get_derived_image_tiles(&self, grid_item_id: u32) -> (v: Vec<u32>)
        ensures
            v@ == spec_derived_tiles(self@, grid_item_id),
    {
        let n = self.references.len();
        let mut i: usize = 0;
        assert(self@.skip(0) =~= self@);
        while i < n
            invariant
                n == self.references@.len(),
                i <= n,
                spec_derived_tiles(self@, grid_item_id) == spec_derived_tiles(self@.skip(i as int), grid_item_id),
            decreases n - i,
        {
            let r = &self.references[i];
            assert(self@.skip(i as int)[0] == r@);
            if r.from_item_id == grid_item_id && r.reference_type.same(&FourCC::dimg()) {
                let v = r.to_item_ids.clone();
                assert(v@ =~= r.to_item_ids@);
                return v;
            }
            assert(self@.skip(i as int).drop_first() =~= self@.skip(i + 1));
            i = i + 1;
        }
        Vec::new()
    }

    /// The first item with a reference of type `t` that targets `id`.
    fn find_referrer(&self, t: FourCC, id: u32) -> (r: Option<u32>)
        ensures
            r == spec_find_referrer(self@, t, id),
    {
        let n = self.references.len();
        let mut i: usize = 0;
        assert(self@.skip(0) =~= self@);
        while i < n
            invariant
                n == self.references@.len(),
                i <= n,
                spec_find_referrer(self@, t, id) == spec_find_referrer(self@.skip(i as int), t, id),
            decreases n - i,
        {
            let r = &self.references[i];
            assert(self@.skip(i as int)[0] == r@);
            if r.reference_type.same(&t) && contains_id(r.to_item_ids.as_slice(), id) {
                return Some(r.from_item_id);
            }
            assert(self@.skip(i as int).drop_first() =~= self@.skip(i + 1));
            i = i + 1;
        }
        None
    }

    /// The auxiliary item (e.g. alpha plane) that references `primary_item_id` via `auxl`.
    pub fn find_auxiliary_item(&self, primary_item_id: u32) -> (r: Option<u32>)
        ensures
            r == spec_find_referrer(self@, fourcc::spec_auxl(), primary_item_id),
    {
        self.find_referrer(FourCC::auxl(), primary_item_id)
    }

    /// The EXIF metadata item that references `primary_item_id` via `cdsc`.
    pub fn find_exif_item(&self, primary_item_id: u32) -> (r: Option<u32>)
        ensures
            r == spec_find_referrer(self@, fourcc::spec_cdsc(), primary_item_id),
    {
        self.find_referrer(FourCC::cdsc(), primary_item_id)
    }
}

} // verus!
