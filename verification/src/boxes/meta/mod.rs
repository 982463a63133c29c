//! `meta` box: handler, primary item, item locations, item information, properties,
//! references and embedded item data.

pub mod iinf;
pub mod iloc;

use crate::boxes::fourcc;
use crate::boxes::fourcc::FourCC;
use crate::boxes::header;
use crate::boxes::header::{BoxHeader, FullBoxHeader};
use crate::boxes::iprp;
use crate::boxes::iprp::{ItemPropertiesBox, ItemPropertiesBoxView};
use crate::boxes::iref;
use crate::boxes::iref::{read_id, ItemReferenceBox, ItemReferenceView};
use crate::boxes::iter;
use crate::boxes::iter::BoxIter;
use crate::error::{ErrorKind, HeicError, HeicResult};
use crate::limits::Limits;
use iinf::{ItemInfo, ItemInfoEntryView};
use iloc::{ItemLocationBox, ItemLocationView};
use std::collections::HashMap;
use vstd::prelude::*;

verus! {

/// The complete `meta` box.
#[derive(Debug, Clone)]
pub struct MetaBox {
    /// Handler type from `hdlr` (e.g. `pict`).
    pub handler_type: Option<FourCC>,
    /// Primary item identifier from `pitm`.
    pub primary_item_id: Option<u32>,
    /// Item locations from `iloc`.
    pub iloc: ItemLocationBox,
    /// Item information from `iinf`.
    pub iinf: ItemInfo,
    /// Item properties from `iprp`, if present.
    pub iprp: Option<ItemPropertiesBox>,
    /// Item references from `iref`, if present.
    pub iref: Option<ItemReferenceBox>,
    /// Embedded item data from `idat`, if present.
    pub idat: Option<Vec<u8>>,
}

/// Mathematical content of a [`MetaBox`].
pub struct MetaBoxView {
    /// Handler type.
    pub handler_type: Option<FourCC>,
    /// Primary item identifier.
    pub primary_item_id: Option<u32>,
    /// Item locations.
    pub iloc: Map<u32, ItemLocationView>,
    /// Item information.
    pub iinf: Map<u32, ItemInfoEntryView>,
    /// Item properties.
    pub iprp: Option<ItemPropertiesBoxView>,
    /// Item references.
    pub iref: Option<Seq<ItemReferenceView>>,
    /// Embedded item data.
    pub idat: Option<Seq<u8>>,
}

impl View for MetaBox {
    type V = MetaBoxView;

    open spec fn view(&self) -> MetaBoxView {
        MetaBoxView {
            handler_type: self.handler_type,
            primary_item_id: self.primary_item_id,
            iloc: self.iloc@,
            iinf: self.iinf@,
            iprp: match self.iprp {
                Some(b) => Some(b@),
                None => None,
            },
            iref: match self.iref {
                Some(b) => Some(b@),
                None => None,
            },
            idat: match self.idat {
                Some(b) => Some(b@),
                None => None,
            },
        }
    }
}

/// A `meta` box with nothing in it.
pub open spec fn empty_meta() -> MetaBoxView {
    MetaBoxView {
        handler_type: None,
        primary_item_id: None,
        iloc: Map::empty(),
        iinf: Map::empty(),
        iprp: None,
        iref: None,
        idat: None,
    }
}

impl Default for MetaBox {
    fn default() -> (m: Self)
        ensures
            m@ == empty_meta(),
    {
        let m = MetaBox {
            handler_type: None,
            primary_item_id: None,
            iloc: ItemLocationBox { items: HashMap::new() },
            iinf: ItemInfo { entries: HashMap::new() },
            iprp: None,
            iref: None,
            idat: None,
        };
        assert(m@.iloc =~= empty_meta().iloc);
        assert(m@.iinf =~= empty_meta().iinf);
        m
    }
}

/// The `meta` box after its child `b` (with header `h`) is taken in: `hdlr` sets the handler
/// type (when its payload has 8 bytes), `pitm` the primary item (16 bits in version 0, else
/// 32, when present), the item tables replace the earlier ones, `idat` keeps its payload,
/// and other boxes are skipped.
#[verifier::opaque]
pub open spec fn spec_meta_child(limits: Limits, acc: MetaBoxView, h: BoxHeader, b: Seq<u8>) -> Result<MetaBoxView, ErrorKind> {
    let t = h.box_type;
    if t == fourcc::spec_hdlr() {
        match header::spec_full_box_header(b) {
            Err(k) => Err(k),
            Ok(full) => match header::spec_payload(b, full.header.size as int, full.total_header_size as int) {
                Err(k) => Err(k),
                Ok(p) => if p.len() >= 8 {
                    Ok(MetaBoxView { handler_type: Some(fourcc::fourcc_at(p, 4)), ..acc })
                } else {
                    Ok(acc)
                },
            },
        }
    } else if t == fourcc::spec_pitm() {
        match header::spec_full_box_header(b) {
            Err(k) => Err(k),
            Ok(full) => match header::spec_payload(b, full.header.size as int, full.total_header_size as int) {
                Err(k) => Err(k),
                Ok(p) => {
                    let w: int = if full.version == 0 { 2 } else { 4 };
                    if p.len() >= w {
                        Ok(MetaBoxView { primary_item_id: Some(iref::id_at(p, 0, w) as u32), ..acc })
                    } else {
                        Ok(acc)
                    }
                },
            },
        }
    } else if t == fourcc::spec_iloc() {
        match iloc::spec_iloc(b, limits) {
            Err(k) => Err(k),
            Ok(m) => Ok(MetaBoxView { iloc: m, ..acc }),
        }
    } else if t == fourcc::spec_iinf() {
        match iinf::spec_iinf(b, limits) {
            Err(k) => Err(k),
            Ok(m) => Ok(MetaBoxView { iinf: m, ..acc }),
        }
    } else if t == fourcc::spec_iprp() {
        match iprp::spec_iprp(b, limits) {
            Err(k) => Err(k),
            Ok(v) => Ok(MetaBoxView { iprp: Some(v), ..acc }),
        }
    } else if t == fourcc::spec_iref() {
        match iref::spec_iref(b, limits) {
            Err(k) => Err(k),
            Ok(v) => Ok(MetaBoxView { iref: Some(v), ..acc }),
        }
    } else if t == fourcc::spec_idat() {
        match header::spec_payload(b, h.size as int, h.header_size as int) {
            Err(k) => Err(k),
            Ok(p) => Ok(MetaBoxView { idat: Some(p), ..acc }),
        }
    } else {
        Ok(acc)
    }
}

/// One child of `meta`, as a step of the walk over its children.
pub open spec fn spec_meta_step(limits: Limits) -> spec_fn(MetaBoxView, BoxHeader, Seq<u8>) -> Result<MetaBoxView, ErrorKind> {
    |acc: MetaBoxView, h: BoxHeader, b: Seq<u8>| spec_meta_child(limits, acc, h, b)
}

/// The `meta` box in `s` (bytes starting at the box); any other box type is an invalid
/// container.
pub open spec fn spec_meta(s: Seq<u8>, limits: Limits) -> Result<MetaBoxView, ErrorKind> {
    match header::spec_full_box_header(s) {
        Err(k) => Err(k),
        Ok(full) => if full.header.box_type != fourcc::spec_meta() {
            Err(ErrorKind::InvalidContainer)
        } else {
            match header::spec_payload(s, full.header.size as int, full.total_header_size as int) {
                Err(k) => Err(k),
                Ok(p) => iter::spec_fold_boxes(p, empty_meta(), spec_meta_step(limits)),
            }
        },
    }
}

impl MetaBox {
    /// Takes in one child box of `meta` (its header and all its bytes).
    fn apply_child(&mut self, h: &BoxHeader, data: &[u8], limits: &Limits) -> (r: HeicResult<()>)
        requires
            data@.len() >= 8,
        ensures
            match spec_meta_child(*limits, old(self)@, *h, data@) {
                Ok(v) => r is Ok && final(self)@ == v,
                Err(k) => r matches Err(e) && e.kind() == k,
            },
    {
        reveal(spec_meta_child);
        let t = h.box_type;
        if t.same(&FourCC::hdlr()) {
            let full = FullBoxHeader::parse(data)?;
            let p = full.payload(data)?;
            if p.len() >= 8 {
                self.handler_type = Some(fourcc::read_fourcc(p, 4));
            }
        } else if t.same(&FourCC::pitm()) {
            let full = FullBoxHeader::parse(data)?;
            let p = full.payload(data)?;
            let wide = full.version != 0;
            let w: usize = if wide { 4 } else { 2 };
            if p.len() >= w {
                self.primary_item_id = Some(read_id(p, 0, wide));
            }
        } else if t.same(&FourCC::iloc()) {
            self.iloc = ItemLocationBox::parse(data, limits)?;
        } else if t.same(&FourCC::iinf()) {
            self.iinf = ItemInfo::parse(data, limits)?;
        } else if t.same(&FourCC::iprp()) {
            self.iprp = Some(ItemPropertiesBox::parse(data, limits)?);
        } else if t.same(&FourCC::iref()) {
            self.iref = Some(ItemReferenceBox::parse(data, limits)?);
        } else if t.same(&FourCC::idat()) {
            let p = h.payload(data)?;
            self.idat = Some(vstd::slice::slice_to_vec(p));
        }
        Ok(())
    }

    /// Parses a `meta` box from its raw bytes.
    pub fn parse(input: &[u8], limits: &Limits) -> (r: HeicResult<Self>)
        ensures
            crate::error::agrees_view(r, spec_meta(input@, *limits)),
    {
        let full = FullBoxHeader::parse(input)?;
        if !full.header.box_type.same(&FourCC::meta()) {
            return Err(HeicError::invalid_container("Expected 'meta' box"));
        }
        let payload = full.payload(input)?;
        let ghost step = spec_meta_step(*limits);
        let mut meta = MetaBox::default();
        let mut it = BoxIter::new(payload);
        assert(payload@.skip(0) =~= payload@);
        loop
            invariant
                it.spec_data() == payload@,
                0 <= it.spec_offset() <= payload@.len(),
                payload@.len() == payload.len(),
                step == spec_meta_step(*limits),
                spec_meta(input@, *limits) == iter::spec_fold_boxes(payload@, empty_meta(), step),
                iter::spec_fold_boxes(payload@.skip(it.spec_offset()), meta@, step)
                    == iter::spec_fold_boxes(payload@, empty_meta(), step),
            ensures
                iter::spec_fold_boxes(payload@, empty_meta(), step) == Ok::<MetaBoxView, ErrorKind>(meta@),
            decreases payload@.len() - it.spec_offset(),
        {
            let ghost off = it.spec_offset();
            let ghost rem = payload@.skip(off);
            let next = it.next_box();
            match next {
                None => {
                    assert(rem.len() == 0);
                    break;
                },
                Some(res) => {
                    if res.is_err() {
                        assert(iter::spec_fold_boxes(rem, meta@, step) is Err);
                    }
                    let (h, box_data) = res?;
                    let ghost n = iter::spec_next_box(rem)->Ok_0.1;
                    proof {
                        iter::lemma_next_box_progress(rem);
                        assert(rem.skip(n) =~= payload@.skip(off + n));
                    }
                    meta.apply_child(&h, box_data, limits)?;
                },
            }
        }
        Ok(meta)
    }
}

} // verus!
