//! A small library for mirroring one directory tree into another.
//!
//! The copy logic works on an in-memory picture of a file system
//! ([`tree::FsNode`]): a tree of directories and byte-for-byte file
//! contents.  A front end reads the real source and destination
//! directories into such trees, runs [`copying::visit_dirs`], and applies
//! the resulting tree back to disk.  Everything the copier decides --
//! which entries are created, which files are overwritten or skipped,
//! and which error aborts the walk -- is stated in contracts over the
//! ghost tree model and proved.

pub mod errors;
pub mod tree;
pub mod copying;
pub mod laws;
pub mod staging;
