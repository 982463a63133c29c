//! HEIF/HEIC container parsing, image processing and image encoding primitives.

pub mod error;
pub mod types;
pub mod limits;
pub mod bytes;
pub mod boxes;
pub mod text;
pub mod metadata;
pub mod keys;
pub mod container;
pub mod parser;

pub use parser::{inspect_container, is_heif_or_heic, parse_heif};
pub mod processing;
pub mod encoder;
pub mod bits;
