//! Packs a directory tree into a single self-describing container file and
//! locates the archive inside such a file again.
//!
//! A container is a 37-byte header (a magic value and three offsets written as
//! ASCII hex), the metadata document, the localization document, and a zip
//! archive of the whole tree. This crate holds the byte layout, the offset
//! arithmetic, the choice of tree entries and the building of the archive; the
//! caller does the filesystem work.

pub mod archive;
pub mod container;
pub mod error;
pub mod header;
pub mod outside;
pub mod pack;
pub mod tree;

pub use error::{PackError, UnpackError};
