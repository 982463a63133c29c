//! Defensive resource limits checked before allocating or decoding.

use crate::error::{HeicError, HeicResult};
use crate::types::ImageDimensions;
use vstd::prelude::*;

verus! {

/// Whether `value` stays within an optional upper bound (`None` means unbounded).
pub open spec fn within(limit: Option<u64>, value: int) -> bool {
    match limit {
        Some(max) => value <= max,
        None => true,
    }
}

/// Upper bounds on file size, dimensions, pixel count, memory, tiles and items.
#[derive(Debug, Clone, Copy, PartialEq, Eq, Structural)]
pub struct Limits {
    /// Maximum input size in bytes.
    pub max_file_size: Option<u64>,
    /// Maximum image width in pixels.
    pub max_width: Option<u64>,
    /// Maximum image height in pixels.
    pub max_height: Option<u64>,
    /// Maximum number of pixels of one image.
    pub max_pixel_count: Option<u64>,
    /// Maximum size of one decoded pixel buffer in bytes.
    pub max_memory_bytes: Option<u64>,
    /// Maximum number of grid tiles.
    pub max_tile_count: Option<u64>,
    /// Maximum number of items or entries declared by one box.
    pub max_item_count: Option<u64>,
}

impl Limits {
    /// Whether the file size is allowed.
    pub open spec fn allows_file_size(&self, size: int) -> bool {
        within(self.max_file_size, size)
    }

    /// Whether the dimensions are allowed.
    pub open spec fn allows_dimensions(&self, d: ImageDimensions) -> bool {
        within(self.max_width, d.width as int) && within(self.max_height, d.height as int)
    }

    /// Whether the pixel count is allowed.
    pub open spec fn allows_pixel_count(&self, count: int) -> bool {
        within(self.max_pixel_count, count)
    }

    /// Whether a buffer of this many bytes is allowed.
    pub open spec fn allows_memory_size(&self, bytes: int) -> bool {
        within(self.max_memory_bytes, bytes)
    }

    /// Whether the tile count is allowed.
    pub open spec fn allows_tile_count(&self, count: int) -> bool {
        within(self.max_tile_count, count)
    }

    /// Whether the item count is allowed.
    pub open spec fn allows_item_count(&self, count: int) -> bool {
        within(self.max_item_count, count)
    }

    /// Limits that allow everything.
    pub fn none() -> (l: Self)
        ensures
            l.max_file_size is None,
            l.max_width is None,
            l.max_height is None,
            l.max_pixel_count is None,
            l.max_memory_bytes is None,
            l.max_tile_count is None,
            l.max_item_count is None,
    {
        Limits {
            max_file_size: None,
            max_width: None,
            max_height: None,
            max_pixel_count: None,
            max_memory_bytes: None,
            max_tile_count: None,
            max_item_count: None,
        }
    }

    /// Conservative limits for decoding inside a browser: 50 MiB files, 8192x8192 images,
    /// 64 megapixels, 256 MiB buffers, 1024 tiles and 65536 items.
    pub fn default_browser() -> (l: Self)
        ensures
            l.max_file_size == Some(52_428_800u64),
            l.max_width == Some(8192u64),
            l.max_height == Some(8192u64),
            l.max_pixel_count == Some(67_108_864u64),
            l.max_memory_bytes == Some(268_435_456u64),
            l.max_tile_count == Some(1024u64),
            l.max_item_count == Some(65_536u64),
    {
        Limits {
            max_file_size: Some(52_428_800),
            max_width: Some(8192),
            max_height: Some(8192),
            max_pixel_count: Some(67_108_864),
            max_memory_bytes: Some(268_435_456),
            max_tile_count: Some(1024),
            max_item_count: Some(65_536),
        }
    }

    /// Replaces the maximum file size.
    pub fn with_max_file_size(self, max: u64) -> (l: Self)
        ensures
            l == (Limits { max_file_size: Some(max), ..self }),
    {
        Limits { max_file_size: Some(max), ..self }
    }

    /// Replaces the maximum width.
    pub fn with_max_width(self, max: u64) -> (l: Self)
        ensures
            l == (Limits { max_width: Some(max), ..self }),
    {
        Limits { max_width: Some(max), ..self }
    }

    /// Replaces the maximum height.
    pub fn with_max_height(self, max: u64) -> (l: Self)
        ensures
            l == (Limits { max_height: Some(max), ..self }),
    {
        Limits { max_height: Some(max), ..self }
    }

    /// Replaces the maximum pixel count.
    pub fn with_max_pixel_count(self, max: u64) -> (l: Self)
        ensures
            l == (Limits { max_pixel_count: Some(max), ..self }),
    {
        Limits { max_pixel_count: Some(max), ..self }
    }

    /// Replaces the maximum buffer size in bytes.
    pub fn with_max_memory_bytes(self, max: u64) -> (l: Self)
        ensures
            l == (Limits { max_memory_bytes: Some(max), ..self }),
    {
        Limits { max_memory_bytes: Some(max), ..self }
    }

    /// Checks the input size in bytes.
    pub fn check_file_size(&self, size: u64) -> (r: HeicResult<()>)
        ensures
            r is Ok <==> self.allows_file_size(size as int),
            r matches Err(e) ==> e is LimitExceeded,
    {
        match self.max_file_size {
            Some(max) if size > max => Err(HeicError::limit_exceeded("File size exceeds limit")),
            _ => Ok(()),
        }
    }

    /// Checks image width and height.
    pub fn check_dimensions(&self, d: ImageDimensions) -> (r: HeicResult<()>)
        ensures
            r is Ok <==> self.allows_dimensions(d),
            r matches Err(e) ==> e is LimitExceeded,
    {
        if let Some(max) = self.max_width {
            if d.width as u64 > max {
                return Err(HeicError::limit_exceeded("Image width exceeds limit"));
            }
        }
        if let Some(max) = self.max_height {
            if d.height as u64 > max {
                return Err(HeicError::limit_exceeded("Image height exceeds limit"));
            }
        }
        Ok(())
    }

    /// Checks the number of pixels.
    pub fn check_pixel_count(&self, count: u64) -> (r: HeicResult<()>)
        ensures
            r is Ok <==> self.allows_pixel_count(count as int),
            r matches Err(e) ==> e is LimitExceeded,
    {
        match self.max_pixel_count {
            Some(max) if count > max => Err(HeicError::limit_exceeded("Pixel count exceeds limit")),
            _ => Ok(()),
        }
    }

    /// Checks the size of a buffer about to be allocated.
    pub fn check_memory_size(&self, bytes: u64) -> (r: HeicResult<()>)
        ensures
            r is Ok <==> self.allows_memory_size(bytes as int),
            r matches Err(e) ==> e is LimitExceeded,
    {
        match self.max_memory_bytes {
            Some(max) if bytes > max => Err(HeicError::limit_exceeded("Memory size exceeds limit")),
            _ => Ok(()),
        }
    }

    /// Checks the number of grid tiles.
    pub fn check_tile_count(&self, count: usize) -> (r: HeicResult<()>)
        ensures
            r is Ok <==> self.allows_tile_count(count as int),
            r matches Err(e) ==> e is LimitExceeded,
    {
        match self.max_tile_count {
            Some(max) if count as u64 > max => Err(HeicError::limit_exceeded("Tile count exceeds limit")),
            _ => Ok(()),
        }
    }

    /// Checks the number of items or entries declared by a box.
    pub fn check_item_count(&self, count: usize) -> (r: HeicResult<()>)
        ensures
            r is Ok <==> self.allows_item_count(count as int),
            r matches Err(e) ==> e is LimitExceeded,
    {
        match self.max_item_count {
            Some(max) if count as u64 > max => Err(HeicError::limit_exceeded("Item count exceeds limit")),
            _ => Ok(()),
        }
    }
}

impl Default for Limits {
    /// The browser limits of [`Limits::default_browser`].
    fn default() -> (l: Self)
        ensures
            l == Limits::spec_browser(),
    {
        Limits::default_browser()
    }
}

impl Limits {
    /// The browser limits as a value.
    pub open spec fn spec_browser() -> Limits {
        Limits {
            max_file_size: Some(52_428_800u64),
            max_width: Some(8192u64),
            max_height: Some(8192u64),
            max_pixel_count: Some(67_108_864u64),
            max_memory_bytes: Some(268_435_456u64),
            max_tile_count: Some(1024u64),
            max_item_count: Some(65_536u64),
        }
    }
}

} // verus!
