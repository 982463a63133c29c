//! Construction of a demuxed container from parsed boxes: primary item, auxiliary items,
//! grid layout and item descriptors.

use crate::boxes::fourcc;
use crate::boxes::fourcc::FourCC;
use crate::boxes::ftyp::{FileTypeBox, FileTypeBoxView};
use crate::boxes::grid;
use crate::boxes::grid::ImageGrid;
use crate::boxes::iprp;
use crate::boxes::iprp::{ItemPropertiesBox, ItemPropertiesBoxView};
use crate::boxes::iref;
use crate::boxes::iref::{ItemReference, ItemReferenceBox, ItemReferenceView};
use crate::boxes::meta::iinf::ItemInfoEntryView;
use crate::boxes::meta::iloc;
use crate::boxes::meta::iloc::{ConstructionMethod, ItemLocation};
use crate::boxes::meta::{MetaBox, MetaBoxView};
use crate::boxes::properties;
use crate::boxes::properties::{
    AuxiliaryProperty, ColorProperty, HevcConfigProperty, ItemProperty,
};
use crate::container::extractor;
use crate::container::extractor::{check_extents, item_data};
use crate::container::item::{ImageItem, ImageItemView};
use crate::container::{HeifFile, HeifFileView};
use crate::error::{ErrorKind, HeicError, HeicResult};
use crate::keys::collect_keys;
use crate::limits::Limits;
use crate::types::{ColorSpace, ColorSpaceView, ImageDimensions};
use std::collections::HashMap;
use vstd::prelude::*;

verus! {

broadcast use vstd::std_specs::hash::group_hash_axioms;

/// Whether an item type is a coded or derived image (`hvc1` or `grid`).
pub open spec fn is_image_type(t: FourCC) -> bool {
    t == fourcc::spec_hvc1() || t == fourcc::spec_grid()
}

/// Whether the container names a primary item: by `pitm`, or by having any item at all.
pub open spec fn has_primary(meta: MetaBoxView) -> bool {
    meta.primary_item_id is Some || exists|id: u32| meta.iinf.contains_key(id)
}

/// Whether `p` may be taken as the primary item: the `pitm` item when there is one;
/// otherwise an item of the table, which is an image item whenever the table has one.
pub open spec fn primary_ok(meta: MetaBoxView, p: u32) -> bool {
    match meta.primary_item_id {
        Some(x) => p == x,
        None => {
            &&& meta.iinf.contains_key(p)
            &&& (exists|id: u32| meta.iinf.contains_key(id) && is_image_type(#[trigger] meta.iinf[id].item_type))
                ==> is_image_type(meta.iinf[p].item_type)
        },
    }
}

/// Whether `a` may be the alpha item of primary item `p`: the source of the first `auxl`
/// reference to `p`; without one, another item of the table declared as alpha, or none when
/// no other item is.
pub open spec fn alpha_ok(refs: Seq<ItemReferenceView>, props: ItemPropertiesBoxView, iinf: Map<u32, ItemInfoEntryView>, p: u32, a: Option<u32>) -> bool {
    match iref::spec_find_referrer(refs, fourcc::spec_auxl(), p) {
        Some(x) => a == Some(x),
        None => match a {
            Some(y) => iinf.contains_key(y) && y != p && iprp::any_alpha(props.props_for_item(y)),
            None => forall|y: u32| #[trigger] iinf.contains_key(y) && y != p ==> !iprp::any_alpha(props.props_for_item(y)),
        },
    }
}

/// Whether `x` may be the EXIF item of primary item `p`: the source of the first `cdsc`
/// reference to `p`; without one, an item of type `Exif`, or none when there is none.
pub open spec fn exif_ok(refs: Seq<ItemReferenceView>, iinf: Map<u32, ItemInfoEntryView>, p: u32, x: Option<u32>) -> bool {
    match iref::spec_find_referrer(refs, fourcc::spec_cdsc(), p) {
        Some(r) => x == Some(r),
        None => match x {
            Some(y) => iinf.contains_key(y) && iinf[y].item_type == fourcc::spec_exif(),
            None => forall|y: u32| #[trigger] iinf.contains_key(y) ==> iinf[y].item_type != fourcc::spec_exif(),
        },
    }
}

/// The type of item `p` (`hvc1` when the table does not list it).
pub open spec fn primary_type(iinf: Map<u32, ItemInfoEntryView>, p: u32) -> FourCC {
    if iinf.contains_key(p) { iinf[p].item_type } else { fourcc::spec_hvc1() }
}

/// The grid layout and tiles of primary item `p`: none unless it is a `grid` item; then its
/// payload parsed as a grid descriptor, with the `dimg` tiles, whose number (when there are
/// any) must match the grid.
pub open spec fn spec_grid_for(meta: MetaBoxView, refs: Seq<ItemReferenceView>, file: Seq<u8>, limits: Limits, p: u32) -> Result<(Option<ImageGrid>, Seq<u32>), ErrorKind> {
    if primary_type(meta.iinf, p) != fourcc::spec_grid() {
        Ok((None, Seq::empty()))
    } else {
        match extractor::spec_item_data(meta, file, p) {
            Err(k) => Err(k),
            Ok(d) => match grid::spec_image_grid(d, limits) {
                Err(k) => Err(k),
                Ok(g) => {
                    let tiles = iref::spec_derived_tiles(refs, p);
                    if tiles.len() > 0 && tiles.len() != g.rows * g.columns {
                        Err(ErrorKind::InvalidContainer)
                    } else {
                        Ok((Some(g), tiles))
                    }
                },
            },
        }
    }
}

/// Dimensions of item `id`: the grid's output for the primary item of a grid, else its first
/// `ispe`, else zero.
pub open spec fn item_dims(props: ItemPropertiesBoxView, id: u32, p: u32, g: Option<ImageGrid>) -> ImageDimensions {
    if id == p && g is Some {
        ImageDimensions { width: g->0.output_width, height: g->0.output_height }
    } else {
        match iprp::first_extents(props.props_for_item(id)) {
            Some(x) => ImageDimensions { width: x.width, height: x.height },
            None => ImageDimensions { width: 0, height: 0 },
        }
    }
}

/// The checks made for item `id` and its data length: non-zero dimensions within the
/// limits, file extents within a file of `file_len` bytes, and a total length that fits in
/// 64 bits (zero for items without a location).
pub open spec fn spec_item_check(meta: MetaBoxView, props: ItemPropertiesBoxView, file_len: int, limits: Limits, id: u32, p: u32, g: Option<ImageGrid>) -> Result<u64, ErrorKind> {
    let d = item_dims(props, id, p, g);
    if d.width > 0 && d.height > 0 && !limits.allows_dimensions(d) {
        Err(ErrorKind::LimitExceeded)
    } else if meta.iloc.contains_key(id) {
        let loc = meta.iloc[id];
        let fits = if loc.construction_method == ConstructionMethod::FileOffset {
            extractor::spec_extents_fit(loc.base_offset, loc.extents, file_len)
        } else {
            Ok(())
        };
        match fits {
            Err(k) => Err(k),
            Ok(_) => if iloc::spec_total_length(loc.extents) > u64::MAX {
                Err(ErrorKind::MalformedInput)
            } else {
                Ok(iloc::spec_total_length(loc.extents) as u64)
            },
        }
    } else {
        Ok(0)
    }
}

/// The descriptor of item `id` with data length `length`.
pub open spec fn spec_image_item(meta: MetaBoxView, props: ItemPropertiesBoxView, id: u32, p: u32, g: Option<ImageGrid>, alpha: Option<u32>, length: u64) -> ImageItemView {
    let ps = props.props_for_item(id);
    ImageItemView {
        id,
        is_primary: id == p,
        item_type: meta.iinf[id].item_type,
        dimensions: item_dims(props, id, p, g),
        orientation: match iprp::first_rotation(ps) {
            Some(r) => Some(properties::spec_rotation_exif(r.angle_ccw)),
            None => None,
        },
        color_space: match iprp::first_color(ps) {
            Some(c) => properties::spec_color_space(c),
            None => ColorSpaceView::Srgb,
        },
        length,
        is_alpha_mask: alpha == Some(id) || iprp::any_alpha(ps),
    }
}

/// What a successful build gives: the parts unchanged, a primary, alpha and EXIF item as
/// allowed, the grid of the primary, and a descriptor for every item of the table.
pub open spec fn spec_built(ftyp: FileTypeBoxView, meta: MetaBoxView, props: ItemPropertiesBoxView, refs: Seq<ItemReferenceView>, file: Seq<u8>, limits: Limits, f: HeifFileView) -> bool {
    &&& f.ftyp == ftyp
    &&& f.meta == meta
    &&& f.iprp == props
    &&& f.iref == refs
    &&& primary_ok(meta, f.primary_item_id)
    &&& alpha_ok(refs, props, meta.iinf, f.primary_item_id, f.alpha_item_id)
    &&& exif_ok(refs, meta.iinf, f.primary_item_id, f.exif_item_id)
    &&& spec_grid_for(meta, refs, file, limits, f.primary_item_id) == Ok::<(Option<ImageGrid>, Seq<u32>), ErrorKind>((f.grid_config, f.grid_tile_item_ids))
    &&& f.items.dom() == meta.iinf.dom()
    &&& forall|id: u32| #[trigger] meta.iinf.contains_key(id) ==> (spec_item_check(meta, props, file.len() as int, limits, id, f.primary_item_id, f.grid_config) matches Ok(n)
        && f.items[id] == spec_image_item(meta, props, id, f.primary_item_id, f.grid_config, f.alpha_item_id, n))
}

/// Why a build may fail with `k`: no primary item at all, or, for an allowed primary item,
/// its grid or the checks of some item fail with `k`.
pub open spec fn spec_build_error(meta: MetaBoxView, props: ItemPropertiesBoxView, refs: Seq<ItemReferenceView>, file: Seq<u8>, limits: Limits, k: ErrorKind) -> bool {
    ||| !has_primary(meta) && k == ErrorKind::InvalidContainer
    ||| exists|p: u32| #[trigger] primary_ok(meta, p) && match spec_grid_for(meta, refs, file, limits, p) {
        Err(k2) => k2 == k,
        Ok((g, _)) => exists|id: u32| #[trigger] meta.iinf.contains_key(id)
            && spec_item_check(meta, props, file.len() as int, limits, id, p, g) == Err::<u64, ErrorKind>(k),
    }
}

/// When a build is owed success: there is a primary item, and for every allowed primary the
/// grid resolves and every item passes its checks.
pub open spec fn spec_build_succeeds(meta: MetaBoxView, props: ItemPropertiesBoxView, refs: Seq<ItemReferenceView>, file: Seq<u8>, limits: Limits) -> bool {
    &&& has_primary(meta)
    &&& forall|p: u32| #[trigger] primary_ok(meta, p) ==> match spec_grid_for(meta, refs, file, limits, p) {
        Err(_) => false,
        Ok((g, _)) => forall|id: u32| #[trigger] meta.iinf.contains_key(id)
            ==> spec_item_check(meta, props, file.len() as int, limits, id, p, g) is Ok,
    }
}

/// Picks the primary item: the `pitm` item, else the first image item of `ks` (the table's
/// keys), else its first item.
fn choose_primary(meta: &MetaBox, ks: &Vec<u32>) -> (r: HeicResult<u32>)
    requires
        ks@.to_set() == meta@.iinf.dom(),
    ensures
        match r {
            Ok(p) => primary_ok(meta@, p),
            Err(e) => !has_primary(meta@) && e.kind() == ErrorKind::InvalidContainer,
        },
{
    if let Some(p) = meta.primary_item_id {
        return Ok(p);
    }
    let n = ks.len();
    let mut i: usize = 0;
    while i < n
        invariant
            n == ks@.len(),
            i <= n,
            ks@.to_set() == meta@.iinf.dom(),
            meta@.primary_item_id is None,
            forall|j: int| 0 <= j < i ==> !is_image_type(#[trigger] meta@.iinf[ks@[j]].item_type),
        decreases n - i,
    {
        let id = ks[i];
        assert(ks@.to_set().contains(id));
        match meta.iinf.entries.get(&id) {
            Some(e) => {
                assert(meta@.iinf[id] == e@);
                if e.item_type.same(&FourCC::hvc1()) || e.item_type.same(&FourCC::grid()) {
                    return Ok(id);
                }
            },
            None => {},
        }
        i = i + 1;
    }
    if n > 0 {
        let first = ks[0];
        proof {
            assert(ks@.to_set().contains(first));
            if exists|id: u32| meta@.iinf.contains_key(id) && is_image_type(#[trigger] meta@.iinf[id].item_type) {
                let id = choose|id: u32| meta@.iinf.contains_key(id) && is_image_type(#[trigger] meta@.iinf[id].item_type);
                assert(ks@.to_set().contains(id));
                let j = choose|j: int| 0 <= j < ks@.len() && ks@[j] == id;
                assert(!is_image_type(meta@.iinf[ks@[j]].item_type));
            }
        }
        Ok(first)
    } else {
        proof {
            if exists|id: u32| meta@.iinf.contains_key(id) {
                let id = choose|id: u32| meta@.iinf.contains_key(id);
                assert(ks@.to_set().contains(id));
            }
        }
        Err(HeicError::invalid_container("No primary item found in HEIF container"))
    }
}

/// Finds the alpha item of primary item `p`.
fn find_alpha(refs: &ItemReferenceBox, props: &ItemPropertiesBox, ks: &Vec<u32>, iinf: Ghost<Map<u32, ItemInfoEntryView>>, p: u32) -> (a: Option<u32>)
    requires
        ks@.to_set() == iinf@.dom(),
    ensures
        alpha_ok(refs@, props@, iinf@, p, a),
{
    if let Some(a) = refs.find_auxiliary_item(p) {
        return Some(a);
    }
    let n = ks.len();
    let mut i: usize = 0;
    while i < n
        invariant
            n == ks@.len(),
            i <= n,
            ks@.to_set() == iinf@.dom(),
            iref::spec_find_referrer(refs@, fourcc::spec_auxl(), p) is None,
            forall|j: int| 0 <= j < i ==> #[trigger] ks@[j] == p || !iprp::any_alpha(props@.props_for_item(ks@[j])),
        decreases n - i,
    {
        let id = ks[i];
        if id != p && props.is_alpha_mask_item(id) {
            assert(ks@.to_set().contains(id));
            return Some(id);
        }
        i = i + 1;
    }
    proof {
        assert forall|y: u32| #[trigger] iinf@.contains_key(y) && y != p implies !iprp::any_alpha(props@.props_for_item(y)) by {
            assert(ks@.to_set().contains(y));
            let j = choose|j: int| 0 <= j < ks@.len() && ks@[j] == y;
            assert(ks@[j] == p || !iprp::any_alpha(props@.props_for_item(ks@[j])));
        }
    }
    None
}

/// Finds the EXIF item of primary item `p`.
fn find_exif(refs: &ItemReferenceBox, meta: &MetaBox, ks: &Vec<u32>, p: u32) -> (x: Option<u32>)
    requires
        ks@.to_set() == meta@.iinf.dom(),
    ensures
        exif_ok(refs@, meta@.iinf, p, x),
{
    if let Some(x) = refs.find_exif_item(p) {
        return Some(x);
    }
    let n = ks.len();
    let mut i: usize = 0;
    while i < n
        invariant
            n == ks@.len(),
            i <= n,
            ks@.to_set() == meta@.iinf.dom(),
            iref::spec_find_referrer(refs@, fourcc::spec_cdsc(), p) is None,
            forall|j: int| 0 <= j < i ==> (#[trigger] meta@.iinf[ks@[j]]).item_type != fourcc::spec_exif(),
        decreases n - i,
    {
        let id = ks[i];
        assert(ks@.to_set().contains(id));
        match meta.iinf.entries.get(&id) {
            Some(e) => {
                assert(meta@.iinf[id] == e@);
                if e.item_type.same(&FourCC::exif()) {
                    return Some(id);
                }
            },
            None => {},
        }
        i = i + 1;
    }
    proof {
        assert forall|y: u32| #[trigger] meta@.iinf.contains_key(y) implies meta@.iinf[y].item_type != fourcc::spec_exif() by {
            assert(ks@.to_set().contains(y));
            let j = choose|j: int| 0 <= j < ks@.len() && ks@[j] == y;
            assert(meta@.iinf[ks@[j]].item_type != fourcc::spec_exif());
        }
    }
    None
}

/// Resolves the grid layout and tiles of primary item `p`.
fn resolve_grid(meta: &MetaBox, refs: &ItemReferenceBox, file_bytes: &[u8], limits: &Limits, p: u32) -> (r: HeicResult<(Option<ImageGrid>, Vec<u32>)>)
    ensures
        match spec_grid_for(meta@, refs@, file_bytes@, *limits, p) {
            Ok((g, t)) => r matches Ok((rg, rt)) && rg == g && rt@ == t,
            Err(k) => r matches Err(e) && e.kind() == k,
        },
{
    let is_grid = match meta.iinf.entries.get(&p) {
        Some(e) => {
            assert(meta@.iinf[p] == e@);
            e.item_type.same(&FourCC::grid())
        },
        None => false,
    };
    if !is_grid {
        return Ok((None, Vec::new()));
    }
    let payload = item_data(meta, file_bytes, p)?;
    let g = ImageGrid::parse(payload.as_slice(), limits)?;
    let tiles = refs.get_derived_image_tiles(p);
    assert(g.rows * g.columns <= 65536) by (nonlinear_arith)
        requires
            1 <= g.rows <= 256,
            1 <= g.columns <= 256,
    ;
    if tiles.len() > 0 && tiles.len() as u64 != g.tile_count() as u64 {
        return Err(HeicError::invalid_container("Grid tile count does not match the iref tile references"));
    }
    Ok((Some(g), tiles))
}

/// Total length of the extents of `loc`, or `None` when it does not fit in 64 bits.
fn checked_total_length(loc: &ItemLocation) -> (r: Option<u64>)
    ensures
        match r {
            Some(n) => n == iloc::spec_total_length(loc.extents@),
            None => iloc::spec_total_length(loc.extents@) > u64::MAX,
        },
{
    let len = loc.extents.len();
    let mut total: u64 = 0;
    let mut i: usize = 0;
    while i < len
        invariant
            len == loc.extents@.len(),
            i <= len,
            total == iloc::spec_total_length(loc.extents@.take(i as int)),
        decreases len - i,
    {
        assert(loc.extents@.take(i + 1).drop_last() =~= loc.extents@.take(i as int));
        let l = loc.extents[i].length;
        if total > u64::MAX - l {
            proof {
                iloc::lemma_total_length_prefix(loc.extents@, i + 1);
            }
            return None;
        }
        total = total + l;
        i = i + 1;
    }
    assert(loc.extents@.take(len as int) =~= loc.extents@);
    Some(total)
}

/// Builds the descriptor of item `id`, or fails its checks.
fn describe_item(
    meta: &MetaBox,
    props: &ItemPropertiesBox,
    file_len: usize,
    limits: &Limits,
    id: u32,
    p: u32,
    g: Option<ImageGrid>,
    alpha: Option<u32>,
) -> (r: HeicResult<ImageItem>)
    requires
        meta@.iinf.contains_key(id),
    ensures
        match spec_item_check(meta@, props@, file_len as int, *limits, id, p, g) {
            Ok(n) => r matches Ok(it) && it@ == spec_image_item(meta@, props@, id, p, g, alpha, n),
            Err(k) => r matches Err(e) && e.kind() == k,
        },
{
    let item_type = match meta.iinf.entries.get(&id) {
        Some(e) => {
            assert(meta@.iinf[id] == e@);
            e.item_type
        },
        None => FourCC::hvc1(),
    };
    let is_primary = id == p;
    let mut dims = match props.get_dimensions_for_item(id) {
        Some(d) => d,
        None => ImageDimensions::new(0, 0),
    };
    if is_primary {
        if let Some(grid) = g {
            dims = grid.output_dimensions();
        }
    }
    assert(dims == item_dims(props@, id, p, g));
    if dims.width > 0 && dims.height > 0 {
        limits.check_dimensions(dims)?;
    }
    let orientation = match props.get_rotation_for_item(id) {
        Some(rot) => Some(rot.to_exif_orientation()),
        None => None,
    };
    let color_space = match props.get_color_for_item(id) {
        Some(c) => c.to_color_space(),
        None => ColorSpace::Srgb,
    };
    let length = match meta.iloc.items.get(&id) {
        Some(loc) => {
            assert(meta@.iloc[id] == loc@);
            match loc.construction_method {
                ConstructionMethod::FileOffset => {
                    check_extents(file_len, loc.base_offset, &loc.extents)?;
                },
                _ => {},
            }
            match checked_total_length(loc) {
                Some(n) => n,
                None => {
                    return Err(HeicError::malformed("Item data length overflows"));
                },
            }
        },
        None => 0,
    };
    let alpha_here = match alpha {
        Some(a) => a == id,
        None => false,
    };
    let is_alpha_mask = alpha_here || props.is_alpha_mask_item(id);
    Ok(ImageItem { id, is_primary, item_type, dimensions: dims, orientation, color_space, length, is_alpha_mask })
}

impl HeifFile {
    /// Demuxes a container from its parsed boxes.
    ///
    /// The primary item is the `pitm` item, else an image item (`hvc1` or `grid`) of `iinf`,
    /// else any item; the alpha item is the source of an `auxl` reference to the primary,
    /// else another item declared as alpha; the EXIF item is the source of a `cdsc` reference
    /// to the primary, else an `Exif` item. A `grid` primary gets its layout and tiles, and
    /// every item of `iinf` a descriptor, after its dimensions and file extents are checked.
    /// Where several items qualify, which one is taken follows the order of the item table.
    pub fn build(
        ftyp: FileTypeBox,
        meta: MetaBox,
        iprp: ItemPropertiesBox,
        iref: ItemReferenceBox,
        file_bytes: &[u8],
        limits: &Limits,
    ) -> (r: HeicResult<Self>)
        ensures
            match r {
                Ok(f) => spec_built(ftyp@, meta@, iprp@, iref@, file_bytes@, *limits, f@),
                Err(e) => spec_build_error(meta@, iprp@, iref@, file_bytes@, *limits, e.kind()),
            },
            spec_build_succeeds(meta@, iprp@, iref@, file_bytes@, *limits) ==> r is Ok,
    {
        let ks = collect_keys(&meta.iinf.entries);
        assert(meta@.iinf.dom() =~= meta.iinf.entries@.dom());
        let primary_item_id = choose_primary(&meta, &ks)?;
        let p = primary_item_id;
        let alpha_item_id = find_alpha(&iref, &iprp, &ks, Ghost(meta@.iinf), p);
        let exif_item_id = find_exif(&iref, &meta, &ks, p);
        let (grid_config, grid_tile_item_ids) = match resolve_grid(&meta, &iref, file_bytes, limits, p) {
            Ok(v) => v,
            Err(e) => {
                assert(primary_ok(meta@, p));
                return Err(e);
            },
        };
        let file_len = file_bytes.len();
        let n = ks.len();
        let mut items: HashMap<u32, ImageItem> = HashMap::new();
        let mut i: usize = 0;
        let ghost g = grid_config;
        assert(crate::container::items_view(items@) =~= Map::<u32, ImageItemView>::empty());
        while i < n
            invariant
                n == ks@.len(),
                i <= n,
                ks@.no_duplicates(),
                ks@.to_set() == meta@.iinf.dom(),
                file_len == file_bytes@.len(),
                g == grid_config,
                primary_ok(meta@, p),
                spec_grid_for(meta@, iref@, file_bytes@, *limits, p) matches Ok((gg, _)) && gg == g,
                items@.dom() == ks@.take(i as int).to_set(),
                forall|id: u32| #[trigger] items@.contains_key(id) ==> (spec_item_check(meta@, iprp@, file_len as int, *limits, id, p, g) matches Ok(len)
                    && items@[id]@ == spec_image_item(meta@, iprp@, id, p, g, alpha_item_id, len)),
            decreases n - i,
        {
            let id = ks[i];
            assert(ks@.to_set().contains(id));
            let item = match describe_item(&meta, &iprp, file_len, limits, id, p, grid_config, alpha_item_id) {
                Ok(it) => it,
                Err(e) => {
                    assert(meta@.iinf.contains_key(id));
                    return Err(e);
                },
            };
            let ghost before = items@;
            items.insert(id, item);
            proof {
                let t1 = ks@.take(i as int);
                let t2 = ks@.take(i + 1);
                assert(t2 =~= t1.push(id));
                assert forall|x: u32| t2.contains(x) <==> (t1.contains(x) || x == id) by {
                    if t2.contains(x) {
                        let j = choose|j: int| 0 <= j < t2.len() && t2[j] == x;
                        if j < i {
                            assert(t1[j] == x);
                        }
                    }
                    if t1.contains(x) {
                        let j = choose|j: int| 0 <= j < t1.len() && t1[j] == x;
                        assert(t2[j] == x);
                    }
                    if x == id {
                        assert(t2[i as int] == x);
                    }
                }
                assert(items@.dom() =~= t2.to_set());
            }
            i = i + 1;
        }
        let f = HeifFile {
            ftyp,
            meta,
            iprp,
            iref,
            primary_item_id,
            grid_config,
            grid_tile_item_ids,
            alpha_item_id,
            exif_item_id,
            items,
        };
        proof {
            assert(ks@.take(n as int) =~= ks@);
            assert(f@.items.dom() =~= f@.meta.iinf.dom());
            assert forall|id: u32| #[trigger] f@.meta.iinf.contains_key(id) implies (spec_item_check(f@.meta, f@.iprp, file_bytes@.len() as int, *limits, id, p, g) matches Ok(len)
                && f@.items[id] == spec_image_item(f@.meta, f@.iprp, id, p, g, f@.alpha_item_id, len)) by {
                assert(f.items@.contains_key(id));
            }
        }
        Ok(f)
    }
}

/// A copy of a list of byte strings.
fn copy_units(v: &Vec<Vec<u8>>) -> (r: Vec<Vec<u8>>)
    ensures
        properties::units_view(r@) == properties::units_view(v@),
{
    let n = v.len();
    let mut out: Vec<Vec<u8>> = Vec::new();
    let mut i: usize = 0;
    while i < n
        invariant
            n == v@.len(),
            i <= n,
            properties::units_view(out@) == properties::units_view(v@).take(i as int),
        decreases n - i,
    {
        let u = vstd::slice::slice_to_vec(v[i].as_slice());
        let ghost before = out@;
        out.push(u);
        assert(properties::units_view(out@) =~= properties::units_view(before).push(u@));
        assert(properties::units_view(v@).take(i + 1) =~= properties::units_view(v@).take(i as int).push(v@[i as int]@));
        i = i + 1;
    }
    assert(properties::units_view(v@).take(n as int) =~= properties::units_view(v@));
    out
}

/// A copy of a property.
fn copy_property(p: &ItemProperty) -> (r: ItemProperty)
    ensures
        r@ == p@,
{
    match p {
        ItemProperty::SpatialExtents(x) => ItemProperty::SpatialExtents(*x),
        ItemProperty::Rotation(x) => ItemProperty::Rotation(*x),
        ItemProperty::Mirror(x) => ItemProperty::Mirror(*x),
        ItemProperty::Color(c) => ItemProperty::Color(match c {
            ColorProperty::Nclx { colour_primaries, transfer_characteristics, matrix_coefficients, full_range_flag } =>
                ColorProperty::Nclx {
                    colour_primaries: *colour_primaries,
                    transfer_characteristics: *transfer_characteristics,
                    matrix_coefficients: *matrix_coefficients,
                    full_range_flag: *full_range_flag,
                },
            ColorProperty::IccProfile(b) => ColorProperty::IccProfile(vstd::slice::slice_to_vec(b.as_slice())),
        }),
        ItemProperty::Auxiliary(a) => ItemProperty::Auxiliary(AuxiliaryProperty {
            aux_type: a.aux_type.clone(),
            sub_type: vstd::slice::slice_to_vec(a.sub_type.as_slice()),
        }),
        ItemProperty::HevcConfig(h) => ItemProperty::HevcConfig(HevcConfigProperty {
            nalu_length_size: h.nalu_length_size,
            sps: copy_units(&h.sps),
            pps: copy_units(&h.pps),
            vps: copy_units(&h.vps),
        }),
        ItemProperty::Other(t) => ItemProperty::Other(*t),
    }
}

/// A copy of an item properties box.
pub(crate) fn copy_iprp(b: &ItemPropertiesBox) -> (r: ItemPropertiesBox)
    ensures
        r@ == b@,
{
    let n = b.properties.len();
    let mut props: Vec<ItemProperty> = Vec::new();
    let mut i: usize = 0;
    while i < n
        invariant
            n == b.properties@.len(),
            i <= n,
            properties::props_view(props@) == properties::props_view(b.properties@).take(i as int),
        decreases n - i,
    {
        let c = copy_property(&b.properties[i]);
        let ghost before = props@;
        props.push(c);
        assert(properties::props_view(props@) =~= properties::props_view(before).push(c@));
        assert(properties::props_view(b.properties@).take(i + 1)
            =~= properties::props_view(b.properties@).take(i as int).push(b.properties@[i as int]@));
        i = i + 1;
    }
    assert(properties::props_view(b.properties@).take(n as int) =~= properties::props_view(b.properties@));
    let r = ItemPropertiesBox { properties: props, associations: b.associations.clone() };
    assert(r@.properties =~= b@.properties);
    assert(r@.associations =~= b@.associations);
    r
}

/// A copy of an item reference box.
pub(crate) fn copy_iref(b: &ItemReferenceBox) -> (r: ItemReferenceBox)
    ensures
        r@ == b@,
{
    let n = b.references.len();
    let mut refs: Vec<ItemReference> = Vec::new();
    let mut i: usize = 0;
    while i < n
        invariant
            n == b.references@.len(),
            i <= n,
            iref::refs_view(refs@) == iref::refs_view(b.references@).take(i as int),
        decreases n - i,
    {
        let src = &b.references[i];
        let c = ItemReference {
            from_item_id: src.from_item_id,
            reference_type: src.reference_type,
            to_item_ids: vstd::slice::slice_to_vec(src.to_item_ids.as_slice()),
        };
        let ghost before = refs@;
        refs.push(c);
        assert(iref::refs_view(refs@) =~= iref::refs_view(before).push(c@));
        assert(iref::refs_view(b.references@).take(i + 1)
            =~= iref::refs_view(b.references@).take(i as int).push(b.references@[i as int]@));
        i = i + 1;
    }
    assert(iref::refs_view(b.references@).take(n as int) =~= iref::refs_view(b.references@));
    ItemReferenceBox { references: refs }
}

} // verus!
