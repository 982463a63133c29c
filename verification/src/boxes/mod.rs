//! ISOBMFF box parsing.

pub mod fourcc;
pub mod header;
pub mod iter;
pub mod ftyp;
pub mod grid;
pub mod iref;
pub mod properties;
pub mod ipma;
pub mod iprp;
pub mod meta;
