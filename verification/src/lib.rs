//! A configurable filesystem-listing engine.
//!
//! The library walks a snapshot of a filesystem tree ([`tree::FsNode`])
//! and reports the paths that a configuration ([`options::ListOption`])
//! accepts.  Reading a real directory into such a snapshot is ordinary
//! I/O and is left to the caller; everything that decides *what* is
//! listed lives here and is verified.

pub mod laws;
pub mod options;
pub mod tree;

pub use crate::options::ListOption;
pub use crate::tree::FsNode;
