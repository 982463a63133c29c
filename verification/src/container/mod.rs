//! Demuxed container: primary image, grid layout, auxiliary items and image descriptors.

pub mod builder;
pub mod extractor;
pub mod item;

use crate::boxes::ftyp::{FileTypeBox, FileTypeBoxView};
use crate::boxes::grid::ImageGrid;
use crate::boxes::iprp::{ItemPropertiesBox, ItemPropertiesBoxView};
use crate::boxes::iref::{ItemReferenceBox, ItemReferenceView};
use crate::boxes::meta::{MetaBox, MetaBoxView};
use crate::metadata::ContainerMetadata;
use crate::types::{ColorSpace, ColorSpaceView, ImageDimensions};
use item::{ImageItem, ImageItemView};
use std::collections::HashMap;
use vstd::prelude::*;

verus! {

broadcast use vstd::std_specs::hash::group_hash_axioms;

/// Fully parsed and demuxed HEIF container.
#[derive(Debug, Clone)]
pub struct HeifFile {
    /// File type and brands.
    pub ftyp: FileTypeBox,
    /// Metadata hierarchy.
    pub meta: MetaBox,
    /// Item properties and associations.
    pub iprp: ItemPropertiesBox,
    /// Item references (`dimg`, `auxl`, `cdsc`).
    pub iref: ItemReferenceBox,
    /// Primary image item.
    pub primary_item_id: u32,
    /// Grid layout, when the primary image is a `grid` item.
    pub grid_config: Option<ImageGrid>,
    /// Tile items of the grid in row-major order.
    pub grid_tile_item_ids: Vec<u32>,
    /// Auxiliary alpha item, if any.
    pub alpha_item_id: Option<u32>,
    /// EXIF metadata item, if any.
    pub exif_item_id: Option<u32>,
    /// Descriptor of each item.
    pub items: HashMap<u32, ImageItem>,
}

/// Mathematical content of a [`HeifFile`].
pub struct HeifFileView {
    /// File type and brands.
    pub ftyp: FileTypeBoxView,
    /// Metadata hierarchy.
    pub meta: MetaBoxView,
    /// Item properties.
    pub iprp: ItemPropertiesBoxView,
    /// Item references.
    pub iref: Seq<ItemReferenceView>,
    /// Primary image item.
    pub primary_item_id: u32,
    /// Grid layout.
    pub grid_config: Option<ImageGrid>,
    /// Grid tiles.
    pub grid_tile_item_ids: Seq<u32>,
    /// Alpha item.
    pub alpha_item_id: Option<u32>,
    /// EXIF item.
    pub exif_item_id: Option<u32>,
    /// Item descriptors.
    pub items: Map<u32, ImageItemView>,
}

/// The descriptors of a table, by item.
pub open spec fn items_view(m: Map<u32, ImageItem>) -> Map<u32, ImageItemView> {
    m.map_values(|i: ImageItem| i@)
}

impl View for HeifFile {
    type V = HeifFileView;

    open spec fn view(&self) -> HeifFileView {
        HeifFileView {
            ftyp: self.ftyp@,
            meta: self.meta@,
            iprp: self.iprp@,
            iref: self.iref@,
            primary_item_id: self.primary_item_id,
            grid_config: self.grid_config,
            grid_tile_item_ids: self.grid_tile_item_ids@,
            alpha_item_id: self.alpha_item_id,
            exif_item_id: self.exif_item_id,
            items: items_view(self.items@),
        }
    }
}

/// A copy of a colour space.
pub(crate) fn copy_color_space(c: &ColorSpace) -> (r: ColorSpace)
    ensures
        r@ == c@,
{
    match c {
        ColorSpace::Srgb => ColorSpace::Srgb,
        ColorSpace::DisplayP3 => ColorSpace::DisplayP3,
        ColorSpace::Rec2020 => ColorSpace::Rec2020,
        ColorSpace::IccProfile(b) => ColorSpace::IccProfile(vstd::slice::slice_to_vec(b.as_slice())),
    }
}

/// Whether `m` summarises the container `f`: brands, the primary image's dimensions,
/// colour space and orientation (zero dimensions, sRGB and none without a descriptor), grid
/// shape, alpha and EXIF items, and the number of items.
pub open spec fn spec_metadata_of(f: HeifFileView, m: ContainerMetadata) -> bool {
    let p = f.primary_item_id;
    &&& m.major_brand == f.ftyp.major_brand
    &&& m.compatible_brands@ == f.ftyp.compatible_brands
    &&& if f.items.contains_key(p) {
        &&& m.dimensions == f.items[p].dimensions
        &&& m.color_space@ == f.items[p].color_space
        &&& m.orientation == f.items[p].orientation
    } else {
        &&& m.dimensions == ImageDimensions { width: 0, height: 0 }
        &&& m.color_space@ == ColorSpaceView::Srgb
        &&& m.orientation is None
    }
    &&& m.primary_item_id == Some(p)
    &&& m.image_count == f.items.dom().len()
    &&& m.is_grid == f.grid_config is Some
    &&& m.grid_rows == (match f.grid_config { Some(g) => g.rows, None => 0 })
    &&& m.grid_columns == (match f.grid_config { Some(g) => g.columns, None => 0 })
    &&& m.has_alpha == f.alpha_item_id is Some
    &&& m.alpha_item_id == f.alpha_item_id
    &&& m.exif_item_id == f.exif_item_id
}

impl HeifFile {
    /// Summarises the container: brands, the primary image's dimensions, colour space and
    /// orientation (zero dimensions and sRGB without a descriptor), grid shape, alpha and
    /// EXIF items, and the number of items.
    pub fn get_metadata(&self) -> (m: ContainerMetadata)
        ensures
            spec_metadata_of(self@, m),
    {
        let primary = self.items.get(&self.primary_item_id);
        let (dimensions, color_space, orientation) = match primary {
            Some(p) => {
                assert(self@.items[self.primary_item_id] == p@);
                (p.dimensions, copy_color_space(&p.color_space), p.orientation)
            },
            None => (ImageDimensions::new(0, 0), ColorSpace::Srgb, None),
        };
        let (is_grid, grid_rows, grid_columns) = match self.grid_config {
            Some(g) => (true, g.rows, g.columns),
            None => (false, 0, 0),
        };
        assert(items_view(self.items@).dom() =~= self.items@.dom());
        ContainerMetadata {
            major_brand: self.ftyp.major_brand,
            compatible_brands: vstd::slice::slice_to_vec(self.ftyp.compatible_brands.as_slice()),
            dimensions,
            color_space,
            orientation,
            primary_item_id: Some(self.primary_item_id),
            image_count: self.items.len(),
            is_grid,
            grid_rows,
            grid_columns,
            has_alpha: self.alpha_item_id.is_some(),
            alpha_item_id: self.alpha_item_id,
            exif_item_id: self.exif_item_id,
        }
    }
}

} // verus!
