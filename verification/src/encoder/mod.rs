//! Image encoders: PNG, WebP and JPEG.

pub mod png;
pub mod webp;
pub mod jpeg;
