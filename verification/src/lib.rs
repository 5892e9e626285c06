//! Serialize in-memory file system trees into tar archives.
//!
//! A [`tree::FileSystemTree`] is either a file holding bytes or a directory
//! holding an ordered list of named subtrees.  The traversal in [`tar`]
//! walks such a tree depth-first and writes one archive entry per file,
//! at the path accumulated from the directory names along the way.  The
//! path-composition layer in [`misc`] supplies the canonical root path and
//! the join operation for every supported path representation.

pub mod laws;
pub mod misc;
pub mod tar;
pub mod tree;

pub use tar::{AppendToTar, AppendTree, BuildTar};

use vstd::prelude::*;
use crate::tree::SpecEntry;

verus! {

/// Marker for archive builders that trees can be appended to, carrying the
/// mathematical view of a builder: the entries appended to it so far.
pub trait ArchiveBuilder {
    /// The entries appended to this builder so far, in order.
    spec fn entries(&self) -> Seq<SpecEntry>;
}

/// Marker for in-memory file system trees.
pub trait FsTree {

}

} // verus!
