//! Image item descriptors.

use crate::boxes::fourcc::FourCC;
use crate::types::{ColorSpace, ColorSpaceView, ImageDimensions};
use vstd::prelude::*;

verus! {

/// Descriptor of one image item of a HEIF container.
#[derive(Debug, Clone, PartialEq, Eq)]
pub struct ImageItem {
    /// Item identifier.
    pub id: u32,
    /// Whether this is the primary item.
    pub is_primary: bool,
    /// Item type (e.g. `hvc1`, `grid`, `Exif`, `mime`).
    pub item_type: FourCC,
    /// Dimensions of the image.
    pub dimensions: ImageDimensions,
    /// EXIF orientation tag, if a rotation is declared.
    pub orientation: Option<u8>,
    /// Colour space or profile.
    pub color_space: ColorSpace,
    /// Total data length in bytes.
    pub length: u64,
    /// Whether the item is an auxiliary alpha plane.
    pub is_alpha_mask: bool,
}

/// Mathematical content of an [`ImageItem`].
pub struct ImageItemView {
    /// Item identifier.
    pub id: u32,
    /// Whether this is the primary item.
    pub is_primary: bool,
    /// Item type.
    pub item_type: FourCC,
    /// Dimensions.
    pub dimensions: ImageDimensions,
    /// EXIF orientation tag.
    pub orientation: Option<u8>,
    /// Colour space.
    pub color_space: ColorSpaceView,
    /// Data length.
    pub length: u64,
    /// Whether the item is an alpha plane.
    pub is_alpha_mask: bool,
}

impl View for ImageItem {
    type V = ImageItemView;

    open spec fn view(&self) -> ImageItemView {
        ImageItemView {
            id: self.id,
            is_primary: self.is_primary,
            item_type: self.item_type,
            dimensions: self.dimensions,
            orientation: self.orientation,
            color_space: self.color_space@,
            length: self.length,
            is_alpha_mask: self.is_alpha_mask,
        }
    }
}

} // verus!
