//! Pixel buffers, grid assembly, orientation and colour operations.

pub mod pixels;
pub mod orientation;
pub mod color;
pub mod grid;
