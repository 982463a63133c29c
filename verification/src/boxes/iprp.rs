//! `iprp` (item properties box): the property list of `ipco` and the associations of `ipma`.

use crate::boxes::fourcc;
use crate::boxes::fourcc::FourCC;
use crate::boxes::header;
use crate::boxes::header::BoxHeader;
use crate::boxes::ipma;
use crate::boxes::ipma::{assoc_map_view, parse_ipma, PropertyAssociation};
use crate::boxes::iter;
use crate::boxes::iter::BoxIter;
use crate::boxes::properties;
use crate::boxes::properties::{
    parse_ipco, props_view, ColorProperty, ColorPropertyView, HevcConfigProperty, HevcConfigView,
    ImageSpatialExtents, ItemProperty, ItemPropertyView, RotationProperty,
};
use crate::error::{ErrorKind, HeicError, HeicResult};
use crate::limits::Limits;
use crate::types::ImageDimensions;
use std::collections::HashMap;
use vstd::prelude::*;

verus! {

broadcast use vstd::std_specs::hash::group_hash_axioms;

/// Complete item properties box (`iprp`).
#[derive(Debug, Clone)]
pub struct ItemPropertiesBox {
    /// Ordered list of properties from `ipco` (`ipma` refers to them one-based).
    pub properties: Vec<ItemProperty>,
    /// Associations of each item with properties.
    pub associations: HashMap<u32, Vec<PropertyAssociation>>,
}

/// Mathematical content of an [`ItemPropertiesBox`].
pub struct ItemPropertiesBoxView {
    /// The properties in declaration order.
    pub properties: Seq<ItemPropertyView>,
    /// The associations of each item.
    pub associations: Map<u32, Seq<PropertyAssociation>>,
}

impl View for ItemPropertiesBox {
    type V = ItemPropertiesBoxView;

    open spec fn view(&self) -> ItemPropertiesBoxView {
        ItemPropertiesBoxView {
            properties: props_view(self.properties@),
            associations: assoc_map_view(self.associations@),
        }
    }
}

/// The view of a list of borrowed properties.
pub open spec fn ref_props_view(s: Seq<&ItemProperty>) -> Seq<ItemPropertyView> {
    s.map_values(|p: &ItemProperty| p@)
}

/// The associations of `acc` with those of `m` appended, item by item.
pub open spec fn merge_assoc(
    acc: Map<u32, Seq<PropertyAssociation>>,
    m: Map<u32, Seq<PropertyAssociation>>,
) -> Map<u32, Seq<PropertyAssociation>> {
    Map::new(
        |k: u32| acc.contains_key(k) || m.contains_key(k),
        |k: u32|
            if m.contains_key(k) {
                (if acc.contains_key(k) { acc[k] } else { Seq::empty() }) + m[k]
            } else {
                acc[k]
            },
    )
}

/// The properties that `assocs` select from `props`, in association order; an index of zero
/// or beyond the list selects nothing.
pub open spec fn spec_item_props(props: Seq<ItemPropertyView>, assocs: Seq<PropertyAssociation>) -> Seq<ItemPropertyView>
    decreases assocs.len(),
{
    if assocs.len() == 0 {
        Seq::empty()
    } else {
        let rest = spec_item_props(props, assocs.drop_last());
        let a = assocs.last();
        if 0 < a.property_index <= props.len() {
            rest.push(props[a.property_index - 1])
        } else {
            rest
        }
    }
}

/// The first spatial extents in `ps`.
pub open spec fn first_extents(ps: Seq<ItemPropertyView>) -> Option<ImageSpatialExtents>
    decreases ps.len(),
{
    if ps.len() == 0 {
        None
    } else {
        match ps[0] {
            ItemPropertyView::SpatialExtents(x) => Some(x),
            _ => first_extents(ps.drop_first()),
        }
    }
}

/// The first rotation in `ps`.
pub open spec fn first_rotation(ps: Seq<ItemPropertyView>) -> Option<RotationProperty>
    decreases ps.len(),
{
    if ps.len() == 0 {
        None
    } else {
        match ps[0] {
            ItemPropertyView::Rotation(x) => Some(x),
            _ => first_rotation(ps.drop_first()),
        }
    }
}

/// The first colour description in `ps`.
pub open spec fn first_color(ps: Seq<ItemPropertyView>) -> Option<ColorPropertyView>
    decreases ps.len(),
{
    if ps.len() == 0 {
        None
    } else {
        match ps[0] {
            ItemPropertyView::Color(x) => Some(x),
            _ => first_color(ps.drop_first()),
        }
    }
}

/// The first HEVC decoder configuration in `ps`.
pub open spec fn first_hevc(ps: Seq<ItemPropertyView>) -> Option<HevcConfigView>
    decreases ps.len(),
{
    if ps.len() == 0 {
        None
    } else {
        match ps[0] {
            ItemPropertyView::HevcConfig(x) => Some(x),
            _ => first_hevc(ps.drop_first()),
        }
    }
}

/// Whether some property of `ps` declares an alpha plane.
pub open spec fn any_alpha(ps: Seq<ItemPropertyView>) -> bool {
    exists|i: int| 0 <= i < ps.len() && is_alpha_prop(#[trigger] ps[i])
}

/// Whether `p` is an auxiliary property that declares an alpha plane.
pub open spec fn is_alpha_prop(p: ItemPropertyView) -> bool {
    match p {
        ItemPropertyView::Auxiliary(a) => properties::spec_is_alpha_type(a.aux_type),
        _ => false,
    }
}

impl ItemPropertiesBoxView {
    /// The properties associated with `item_id`, in association order.
    pub open spec fn props_for_item(self, item_id: u32) -> Seq<ItemPropertyView> {
        if self.associations.contains_key(item_id) {
            spec_item_props(self.properties, self.associations[item_id])
        } else {
            Seq::empty()
        }
    }
}

/// The box with no properties and no associations.
pub open spec fn empty_iprp() -> ItemPropertiesBoxView {
    ItemPropertiesBoxView { properties: Seq::empty(), associations: Map::empty() }
}

/// One child of `iprp`: `ipco` replaces the property list, each `ipma` appends its
/// associations, other boxes are skipped.
pub open spec fn spec_iprp_step(limits: Limits) -> spec_fn(ItemPropertiesBoxView, BoxHeader, Seq<u8>) -> Result<ItemPropertiesBoxView, ErrorKind> {
    |acc: ItemPropertiesBoxView, h: BoxHeader, b: Seq<u8>| spec_iprp_child(limits, acc, h, b)
}

/// The box after its child `b` (with header `h`) is taken in.
#[verifier::opaque]
pub open spec fn spec_iprp_child(limits: Limits, acc: ItemPropertiesBoxView, h: BoxHeader, b: Seq<u8>) -> Result<ItemPropertiesBoxView, ErrorKind> {
    if h.box_type == fourcc::spec_ipco() {
        match properties::spec_ipco(b) {
            Err(k) => Err(k),
            Ok(p) => Ok(ItemPropertiesBoxView { properties: p, associations: acc.associations }),
        }
    } else if h.box_type == fourcc::spec_ipma() {
        match ipma::spec_ipma(b, limits) {
            Err(k) => Err(k),
            Ok(m) => Ok(ItemPropertiesBoxView {
                properties: acc.properties,
                associations: merge_assoc(acc.associations, m),
            }),
        }
    } else {
        Ok(acc)
    }
}

/// The `iprp` box in `s` (bytes starting at the box); any other box type is an invalid
/// container.
pub open spec fn spec_iprp(s: Seq<u8>, limits: Limits) -> Result<ItemPropertiesBoxView, ErrorKind> {
    match header::spec_box_header(s) {
        Err(k) => Err(k),
        Ok(h) => if h.box_type != fourcc::spec_iprp() {
            Err(ErrorKind::InvalidContainer)
        } else {
            match header::spec_payload(s, h.size as int, h.header_size as int) {
                Err(k) => Err(k),
                Ok(p) => iter::spec_fold_boxes(p, empty_iprp(), spec_iprp_step(limits)),
            }
        },
    }
}

/// Appends the associations of `map` to those of `assoc`, item by item.
fn merge_associations(
    assoc: &mut HashMap<u32, Vec<PropertyAssociation>>,
    map: &HashMap<u32, Vec<PropertyAssociation>>,
)
    ensures
        assoc_map_view(final(assoc)@) == merge_assoc(assoc_map_view(old(assoc)@), assoc_map_view(map@)),
{
    let ks = crate::keys::collect_keys(map);
    let n = ks.len();
    let ghost a0 = assoc_map_view(assoc@);
    let ghost mv = assoc_map_view(map@);
    let mut i: usize = 0;
    assert(merge_assoc(a0, mv.restrict(ks@.take(0).to_set())) =~= a0);
    while i < n
        invariant
            n == ks@.len(),
            i <= n,
            ks@.no_duplicates(),
            ks@.to_set() == map@.dom(),
            mv == assoc_map_view(map@),
            assoc_map_view(assoc@) == merge_assoc(a0, mv.restrict(ks@.take(i as int).to_set())),
        decreases n - i,
    {
        let k = ks[i];
        let ghost before = assoc_map_view(assoc@);
        let ghost done = ks@.take(i as int).to_set();
        assert(ks@.to_set().contains(k));
        assert(!done.contains(k)) by {
            if done.contains(k) {
                let j = choose|j: int| 0 <= j < i && ks@.take(i as int)[j] == k;
                assert(ks@[j] == ks@[i as int]);
            }
        }
        let mut cur: Vec<PropertyAssociation> = match assoc.remove(&k) {
            Some(v) => v,
            None => Vec::new(),
        };
        let ghost start = cur@;
        assert(start == (if before.contains_key(k) { before[k] } else { Seq::empty() }));
        match map.get(&k) {
            Some(src) => {
                let len = src.len();
                let mut j: usize = 0;
                while j < len
                    invariant
                        len == src@.len(),
                        j <= len,
                        cur@ == start + src@.take(j as int),
                    decreases len - j,
                {
                    cur.push(src[j]);
                    j = j + 1;
                    assert(cur@ =~= start + src@.take(j as int));
                }
                assert(src@.take(len as int) =~= src@);
                assert(mv[k] == src@);
                assert(assoc_map_view(assoc@) =~= before.remove(k));
                assert(before.contains_key(k) == a0.contains_key(k));
                assert(a0.contains_key(k) ==> before[k] == a0[k]);
                let ghost cur_view = cur@;
                assoc.insert(k, cur);
                assert(assoc_map_view(assoc@) =~= before.remove(k).insert(k, cur_view));
                proof {
                    let t1 = ks@.take(i as int);
                    let t2 = ks@.take(i + 1);
                    assert(t2 =~= t1.push(k));
                    assert forall|x: u32| t2.contains(x) <==> (t1.contains(x) || x == k) by {
                        if t2.contains(x) {
                            let j = choose|j: int| 0 <= j < t2.len() && t2[j] == x;
                            if j < i {
                                assert(t1[j] == x);
                            }
                        }
                        if t1.contains(x) {
                            let j = choose|j: int| 0 <= j < t1.len() && t1[j] == x;
                            assert(t2[j] == x);
                        }
                        if x == k {
                            assert(t2[i as int] == x);
                        }
                    }
                    let s2 = t2.to_set();
                    assert(s2 =~= done.insert(k));
                    assert(assoc_map_view(assoc@) =~= merge_assoc(a0, mv.restrict(s2)));
                }
            },
            None => {
                assert(false);
            },
        }
        i = i + 1;
    }
    proof {
        assert(ks@.take(n as int) =~= ks@);
        assert(mv.restrict(ks@.to_set()) =~= mv);
    }
}

impl ItemPropertiesBox {
    /// Takes in one child box of `iprp` (its header and all its bytes).
    fn apply_child(&mut self, h: &BoxHeader, data: &[u8], limits: &Limits) -> (r: HeicResult<()>)
        ensures
            match spec_iprp_child(*limits, old(self)@, *h, data@) {
                Ok(v) => r is Ok && final(self)@ == v,
                Err(k) => r matches Err(e) && e.kind() == k,
            },
    {
        reveal(spec_iprp_child);
        let t = h.box_type;
        if t.same(&FourCC::ipco()) {
            let props = parse_ipco(data, limits)?;
            self.properties = props;
        } else if t.same(&FourCC::ipma()) {
            let map = parse_ipma(data, limits)?;
            merge_associations(&mut self.associations, &map);
        }
        Ok(())
    }

    /// Parses an `iprp` box from its raw bytes.
    pub fn parse(input: &[u8], limits: &Limits) -> (r: HeicResult<Self>)
        ensures
            match r {
                Ok(b) => spec_iprp(input@, *limits) == Ok::<ItemPropertiesBoxView, ErrorKind>(b@),
                Err(e) => spec_iprp(input@, *limits) == Err::<ItemPropertiesBoxView, ErrorKind>(e.kind()),
            },
    {
        let header = BoxHeader::parse(input)?;
        if !header.box_type.same(&FourCC::iprp()) {
            return Err(HeicError::invalid_container("Expected 'iprp' box"));
        }
        let payload = header.payload(input)?;
        let ghost step = spec_iprp_step(*limits);
        let mut iprp = ItemPropertiesBox { properties: Vec::new(), associations: HashMap::new() };
        let mut it = BoxIter::new(payload);
        assert(payload@.skip(0) =~= payload@);
        assert(iprp@.properties =~= empty_iprp().properties);
        assert(iprp@.associations =~= empty_iprp().associations);
        loop
            invariant
                it.spec_data() == payload@,
                0 <= it.spec_offset() <= payload@.len(),
                payload@.len() == payload.len(),
                step == spec_iprp_step(*limits),
                spec_iprp(input@, *limits) == iter::spec_fold_boxes(payload@, empty_iprp(), step),
                iter::spec_fold_boxes(payload@.skip(it.spec_offset()), iprp@, step)
                    == iter::spec_fold_boxes(payload@, empty_iprp(), step),
            ensures
                iter::spec_fold_boxes(payload@, empty_iprp(), step) == Ok::<ItemPropertiesBoxView, ErrorKind>(iprp@),
            decreases payload@.len() - it.spec_offset(),
        {
            let ghost off = it.spec_offset();
            let ghost rem = payload@.skip(off);
            let next = it.next_box();
            match next {
                None => {
                    assert(rem.len() == 0);
                    break;
                },
                Some(res) => {
                    if res.is_err() {
                        assert(iter::spec_fold_boxes(rem, iprp@, step) is Err);
                    }
                    let (child_header, child_data) = res?;
                    let ghost n = iter::spec_next_box(rem)->Ok_0.1;
                    proof {
                        iter::lemma_next_box_progress(rem);
                        assert(rem.skip(n) =~= payload@.skip(off + n));
                    }
                    iprp.apply_child(&child_header, child_data, limits)?;
                },
            }
        }
        Ok(iprp)
    }

    /// All properties associated with `item_id`, in association order; indices of zero or
    /// beyond the property list are skipped.
    pub fn get_properties_for_item(&self, item_id: u32) -> (r: Vec<&ItemProperty>)
        ensures
            ref_props_view(r@) == self@.props_for_item(item_id),
    {
        let mut result: Vec<&ItemProperty> = Vec::new();
        let np = self.properties.len();
        match self.associations.get(&item_id) {
            Some(assocs) => {
                let n = assocs.len();
                let mut i: usize = 0;
                assert(ref_props_view(result@) =~= spec_item_props(self@.properties, assocs@.take(0)));
                while i < n
                    invariant
                        n == assocs@.len(),
                        np == self.properties@.len(),
                        i <= n,
                        ref_props_view(result@) == spec_item_props(self@.properties, assocs@.take(i as int)),
                    decreases n - i,
                {
                    let a = assocs[i];
                    let ghost prev = result@;
                    assert(assocs@.take(i + 1).drop_last() =~= assocs@.take(i as int));
                    if a.property_index > 0 && a.property_index <= np {
                        result.push(&self.properties[a.property_index - 1]);
                        assert(ref_props_view(result@) =~= ref_props_view(prev).push(self@.properties[a.property_index - 1]));
                    }
                    i = i + 1;
                }
                assert(assocs@.take(n as int) =~= assocs@);
            },
            None => {
                assert(ref_props_view(result@) =~= Seq::<ItemPropertyView>::empty());
            },
        }
        result
    }

    /// Spatial extents (dimensions) of an item: the first `ispe` associated with it.
    pub fn get_dimensions_for_item(&self, item_id: u32) -> (r: Option<ImageDimensions>)
        ensures
            match first_extents(self@.props_for_item(item_id)) {
                None => r is None,
                Some(x) => r matches Some(d) && d.width == x.width && d.height == x.height,
            },
    {
        let props = self.get_properties_for_item(item_id);
        let ghost ps = ref_props_view(props@);
        let n = props.len();
        let mut i: usize = 0;
        assert(ps.skip(0) =~= ps);
        while i < n
            invariant
                n == props@.len(),
                ps == ref_props_view(props@),
                i <= n,
                ps == self@.props_for_item(item_id),
                first_extents(ps.skip(i as int)) == first_extents(ps),
            decreases n - i,
        {
            assert(ps.skip(i as int).drop_first() =~= ps.skip(i + 1));
            assert(ps.skip(i as int)[0] == ps[i as int]);
            assert(ps[i as int] == props@[i as int]@);
            if let ItemProperty::SpatialExtents(ispe) = props[i] {
                return Some(ispe.to_dimensions());
            }
            i = i + 1;
        }
        None
    }

    /// Rotation of an item: the first `irot` associated with it.
    pub fn get_rotation_for_item(&self, item_id: u32) -> (r: Option<RotationProperty>)
        ensures
            r == first_rotation(self@.props_for_item(item_id)),
    {
        let props = self.get_properties_for_item(item_id);
        let ghost ps = ref_props_view(props@);
        let n = props.len();
        let mut i: usize = 0;
        assert(ps.skip(0) =~= ps);
        while i < n
            invariant
                n == props@.len(),
                ps == ref_props_view(props@),
                i <= n,
                ps == self@.props_for_item(item_id),
                first_rotation(ps.skip(i as int)) == first_rotation(ps),
            decreases n - i,
        {
            assert(ps.skip(i as int).drop_first() =~= ps.skip(i + 1));
            assert(ps.skip(i as int)[0] == ps[i as int]);
            assert(ps[i as int] == props@[i as int]@);
            if let ItemProperty::Rotation(rot) = props[i] {
                return Some(*rot);
            }
            i = i + 1;
        }
        None
    }

    /// Colour information of an item: the first `colr` associated with it.
    pub fn get_color_for_item(&self, item_id: u32) -> (r: Option<&ColorProperty>)
        ensures
            match first_color(self@.props_for_item(item_id)) {
                None => r is None,
                Some(x) => r matches Some(c) && c@ == x,
            },
    {
        let props = self.get_properties_for_item(item_id);
        let ghost ps = ref_props_view(props@);
        let n = props.len();
        let mut i: usize = 0;
        assert(ps.skip(0) =~= ps);
        while i < n
            invariant
                n == props@.len(),
                ps == ref_props_view(props@),
                i <= n,
                ps == self@.props_for_item(item_id),
                first_color(ps.skip(i as int)) == first_color(ps),
            decreases n - i,
        {
            assert(ps.skip(i as int).drop_first() =~= ps.skip(i + 1));
            assert(ps.skip(i as int)[0] == ps[i as int]);
            assert(ps[i as int] == props@[i as int]@);
            if let ItemProperty::Color(colr) = props[i] {
                return Some(colr);
            }
            i = i + 1;
        }
        None
    }

    /// HEVC decoder configuration of an item: the first `hvcC` associated with it.
    pub fn get_hevc_config_for_item(&self, item_id: u32) -> (r: Option<&HevcConfigProperty>)
        ensures
            match first_hevc(self@.props_for_item(item_id)) {
                None => r is None,
                Some(x) => r matches Some(c) && c@ == x,
            },
    {
        let props = self.get_properties_for_item(item_id);
        let ghost ps = ref_props_view(props@);
        let n = props.len();
        let mut i: usize = 0;
        assert(ps.skip(0) =~= ps);
        while i < n
            invariant
                n == props@.len(),
                ps == ref_props_view(props@),
                i <= n,
                ps == self@.props_for_item(item_id),
                first_hevc(ps.skip(i as int)) == first_hevc(ps),
            decreases n - i,
        {
            assert(ps.skip(i as int).drop_first() =~= ps.skip(i + 1));
            assert(ps.skip(i as int)[0] == ps[i as int]);
            assert(ps[i as int] == props@[i as int]@);
            if let ItemProperty::HevcConfig(hvc) = props[i] {
                return Some(hvc);
            }
            i = i + 1;
        }
        None
    }

    /// Whether the item is declared as an auxiliary alpha transparency plane.
    pub fn is_alpha_mask_item(&self, item_id: u32) -> (b: bool)
        ensures
            b == any_alpha(self@.props_for_item(item_id)),
    {
        let props = self.get_properties_for_item(item_id);
        let ghost ps = ref_props_view(props@);
        let n = props.len();
        let mut i: usize = 0;
        while i < n
            invariant
                n == props@.len(),
                ps == ref_props_view(props@),
                i <= n,
                ps == self@.props_for_item(item_id),
                forall|j: int| 0 <= j < i ==> !is_alpha_prop(#[trigger] ps[j]),
            decreases n - i,
        {
            assert(ps[i as int] == props@[i as int]@);
            if let ItemProperty::Auxiliary(aux) = props[i] {
                if aux.is_alpha() {
                    assert(is_alpha_prop(ps[i as int]));
                    return true;
                }
            }
            i = i + 1;
        }
        false
    }
}

} // verus!
