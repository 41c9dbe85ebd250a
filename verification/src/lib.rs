//! Read-only projection of a flat, backslash-keyed archive as a hierarchical
//! file tree: path normalization, file/directory classification, synthesized
//! directory listings, attribute synthesis, and byte-range reads.

pub mod attr;
pub mod fs;
pub mod laws;
pub mod listing;
pub mod paths;
pub mod zipio;

pub use crate::attr::FileAttrData;
pub use crate::fs::{ArchiveFs, SnapshotError};
pub use crate::listing::{convert_name, DirEntry, FileKind};
