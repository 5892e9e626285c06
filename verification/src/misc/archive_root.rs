//! Producing the canonical root path for a path representation.

use vstd::prelude::*;
use crate::misc::join_path::JoinPath;

verus! {

/// Provides the root path for archive creation.
///
/// This trait defines the starting point (root directory) when building
/// archives from file system trees: the canonical "no path yet" value of a
/// path representation, whose characters are the empty sequence.  Ownership
/// wrappers (`Box`, `Rc`, `Arc`) delegate to the wrapped representation's
/// root and wrap the result.
pub trait ArchiveRoot: JoinPath {
    /// Returns the root path for archive construction.
    fn archive_root() -> (r: Self)
        ensures
            r.path_chars() == Seq::<char>::empty(),
    ;
}

impl ArchiveRoot for String {
    fn archive_root() -> (r: Self) {
        String::new()
    }
}

impl<P: ArchiveRoot> ArchiveRoot for Box<P> {
    fn archive_root() -> (r: Self) {
        Box::new(P::archive_root())
    }
}

impl<P: ArchiveRoot> ArchiveRoot for std::rc::Rc<P> {
    fn archive_root() -> (r: Self) {
        std::rc::Rc::new(P::archive_root())
    }
}

impl<P: ArchiveRoot> ArchiveRoot for std::sync::Arc<P> {
    fn archive_root() -> (r: Self) {
        std::sync::Arc::new(P::archive_root())
    }
}

} // verus!
