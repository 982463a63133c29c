//! High-level container metadata.

use crate::types::{ColorSpace, ImageDimensions};
use vstd::prelude::*;

verus! {

/// High-level container and image metadata extracted from HEIF boxes.
#[derive(Debug, Clone, PartialEq, Eq)]
pub struct ContainerMetadata {
    /// Major brand from `ftyp` (e.g. `heic`, `mif1`).
    pub major_brand: [u8; 4],
    /// Compatible brands declared in `ftyp`.
    pub compatible_brands: Vec<[u8; 4]>,
    /// Dimensions of the primary image.
    pub dimensions: ImageDimensions,
    /// Colour space or profile of the primary image.
    pub color_space: ColorSpace,
    /// EXIF orientation (1 through 8), if present.
    pub orientation: Option<u8>,
    /// Primary item identifier.
    pub primary_item_id: Option<u32>,
    /// Number of image items.
    pub image_count: usize,
    /// Whether the primary image is a grid.
    pub is_grid: bool,
    /// Grid rows (0 when not a grid).
    pub grid_rows: u32,
    /// Grid columns (0 when not a grid).
    pub grid_columns: u32,
    /// Whether an alpha plane is present.
    pub has_alpha: bool,
    /// Alpha item identifier.
    pub alpha_item_id: Option<u32>,
    /// EXIF item identifier.
    pub exif_item_id: Option<u32>,
}

impl Default for ContainerMetadata {
    fn default() -> (m: Self)
        ensures
            m.major_brand == [0u8, 0u8, 0u8, 0u8],
            m.compatible_brands@.len() == 0,
            m.dimensions == (ImageDimensions { width: 0, height: 0 }),
            m.color_space is Srgb,
            m.orientation is None,
            m.primary_item_id is None,
            m.image_count == 0,
            !m.is_grid,
            m.grid_rows == 0,
            m.grid_columns == 0,
            !m.has_alpha,
            m.alpha_item_id is None,
            m.exif_item_id is None,
    {
        ContainerMetadata {
            major_brand: [0, 0, 0, 0],
            compatible_brands: Vec::new(),
            dimensions: ImageDimensions::new(0, 0),
            color_space: ColorSpace::Srgb,
            orientation: None,
            primary_item_id: None,
            image_count: 0,
            is_grid: false,
            grid_rows: 0,
            grid_columns: 0,
            has_alpha: false,
            alpha_item_id: None,
            exif_item_id: None,
        }
    }
}

} // verus!
