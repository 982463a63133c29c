//! `grid` derived image item descriptor (ISO/IEC 23008-12).

use crate::bytes;
use crate::bytes::{read_be16, read_be32};
use crate::error::{ErrorKind, HeicError, HeicResult};
use crate::limits::Limits;
use crate::types::ImageDimensions;
use vstd::prelude::*;

verus! {

/// Grid layout parsed from the payload of a `grid` item.
#[derive(Debug, Clone, Copy, PartialEq, Eq, Structural)]
pub struct ImageGrid {
    /// Number of tile rows.
    pub rows: u32,
    /// Number of tile columns.
    pub columns: u32,
    /// Declared width of the reconstructed image.
    pub output_width: u32,
    /// Declared height of the reconstructed image.
    pub output_height: u32,
}

/// The grid descriptor in payload `p`: version, flags (bit 0 selects 32-bit dimensions),
/// rows minus one, columns minus one, then width and height; the tile count and the
/// dimensions are checked against `limits`.
pub open spec fn spec_image_grid(p: Seq<u8>, limits: Limits) -> Result<ImageGrid, ErrorKind> {
    if p.len() < 8 {
        Err(ErrorKind::MalformedInput)
    } else {
        let rows = p[2] + 1;
        let columns = p[3] + 1;
        let wide = p[1] % 2 == 1;
        if !limits.allows_tile_count(rows * columns) {
            Err(ErrorKind::LimitExceeded)
        } else if wide && p.len() < 12 {
            Err(ErrorKind::MalformedInput)
        } else {
            let grid = ImageGrid {
                rows: rows as u32,
                columns: columns as u32,
                output_width: (if wide { bytes::be32_at(p, 4) } else { bytes::be16_at(p, 4) }) as u32,
                output_height: (if wide { bytes::be32_at(p, 8) } else { bytes::be16_at(p, 6) }) as u32,
            };
            if !limits.allows_dimensions(ImageDimensions { width: grid.output_width, height: grid.output_height }) {
                Err(ErrorKind::LimitExceeded)
            } else {
                Ok(grid)
            }
        }
    }
}

impl ImageGrid {
    /// Total number of tiles (`rows * columns`).
    pub fn tile_count(&self) -> (n: u32)
        requires
            self.rows * self.columns <= u32::MAX,
        ensures
            n == self.rows * self.columns,
    {
        self.rows * self.columns
    }

    /// Dimensions of the reconstructed image.
    pub fn output_dimensions(&self) -> (d: ImageDimensions)
        ensures
            d.width == self.output_width,
            d.height == self.output_height,
    {
        ImageDimensions::new(self.output_width, self.output_height)
    }

    /// Parses a grid descriptor from the payload bytes of a `grid` item.
    pub fn parse(payload: &[u8], limits: &Limits) -> (r: HeicResult<Self>)
        ensures
            crate::error::agrees(r, spec_image_grid(payload@, *limits)),
            r matches Ok(g) ==> 1 <= g.rows <= 256 && 1 <= g.columns <= 256,
    {
        if payload.len() < 8 {
            return Err(HeicError::malformed("Insufficient bytes for ImageGrid payload"));
        }
        let flags = payload[1];
        let wide = flags & 1 != 0;
        proof {
            crate::bytes::lemma_byte_bits(flags);
        }
        let rows = payload[2] as u32 + 1;
        let columns = payload[3] as u32 + 1;
        assert(rows * columns <= 65536) by (nonlinear_arith)
            requires
                1 <= rows <= 256,
                1 <= columns <= 256,
        ;
        let tile_count = rows * columns;
        limits.check_tile_count(tile_count as usize)?;
        let (output_width, output_height) = if wide {
            if payload.len() < 12 {
                return Err(HeicError::malformed("Insufficient bytes for 32-bit ImageGrid dimensions"));
            }
            (read_be32(payload, 4), read_be32(payload, 8))
        } else {
            (read_be16(payload, 4) as u32, read_be16(payload, 6) as u32)
        };
        let grid = ImageGrid { rows, columns, output_width, output_height };
        limits.check_dimensions(grid.output_dimensions())?;
        Ok(grid)
    }
}

} // verus!
