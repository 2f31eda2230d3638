//! Construction of ISO 9660 disc images from an in-memory filesystem tree.
//!
//! The library sizes every directory bottom-up, hands out sector addresses
//! top-down, builds the path table from the addressed tree and lays the
//! whole image out as a list of sector-addressed writes. Performing those
//! writes on a seekable sink is left to the caller.

pub mod codec;
pub mod descriptor;
pub mod error;
pub mod iso9660;
pub mod laws;
pub mod layout;
pub mod lba;
pub mod name;
pub mod path;
pub mod path_table;
pub mod records;
pub mod shape;
pub mod tree;
pub mod writer;
