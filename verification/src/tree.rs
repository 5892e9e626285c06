//! The in-memory file system tree and its mathematical model.
//!
//! A tree is either a file holding bytes or a directory holding an ordered
//! list of `(name, subtree)` pairs.  The model of a tree at a starting path
//! is the sequence of archive entries the traversal emits for it, in
//! depth-first order.

use vstd::prelude::*;
use crate::misc::join_path::join_chars;

verus! {

/// One archive entry as the contracts speak of it: the entry's path, its
/// content bytes, its header size field and its header mode field.
pub type SpecEntry = (Seq<char>, Seq<u8>, u64, u32);

/// An in-memory file system tree: a file with its content, or a directory
/// with its ordered name-to-subtree mapping.
///
/// A well-formed tree ([`FileSystemTree::wf`]) keeps each directory's names
/// strictly sorted, so names are unique within a directory and traversal
/// order is deterministic for a fixed tree.
pub enum FileSystemTree {
    /// A file and its content bytes.
    File(Vec<u8>),
    /// A directory: an ordered mapping from child name to subtree.
    Directory(Vec<(String, FileSystemTree)>),
}

/// A file system tree whose directory names may themselves contain `/`
/// separators, standing for nested paths.  Appending it to an archive
/// treats it exactly as the tree it wraps.
pub struct MergeableFileSystemTree(pub FileSystemTree);

impl crate::FsTree for FileSystemTree {

}

impl crate::FsTree for MergeableFileSystemTree {

}

impl From<FileSystemTree> for MergeableFileSystemTree {
    fn from(tree: FileSystemTree) -> (r: Self) {
        MergeableFileSystemTree(tree)
    }
}

impl vstd::std_specs::convert::FromSpecImpl<FileSystemTree> for MergeableFileSystemTree {
    open spec fn obeys_from_spec() -> bool {
        true
    }

    open spec fn from_spec(tree: FileSystemTree) -> Self {
        MergeableFileSystemTree(tree)
    }
}

impl From<MergeableFileSystemTree> for FileSystemTree {
    fn from(tree: MergeableFileSystemTree) -> (r: Self) {
        tree.0
    }
}

impl vstd::std_specs::convert::FromSpecImpl<MergeableFileSystemTree> for FileSystemTree {
    open spec fn obeys_from_spec() -> bool {
        true
    }

    open spec fn from_spec(tree: MergeableFileSystemTree) -> Self {
        tree.0
    }
}

/// Whether `p` is a root sentinel: the canonical empty path or the
/// equivalent single-dot path.
pub open spec fn is_root_chars(p: Seq<char>) -> bool {
    p.len() == 0 || (p.len() == 1 && p[0] == '.')
}

/// The in-archive path of a child named `name` under the accumulated path
/// `p`: the name itself when `p` is still a root sentinel (no leading
/// separator is introduced), and the join otherwise.
pub open spec fn child_path(p: Seq<char>, name: Seq<char>) -> Seq<char> {
    if is_root_chars(p) {
        name
    } else {
        join_chars(p, name)
    }
}

/// The archive entries that appending `t` at path `p` emits, in depth-first
/// order: one entry per file, at the accumulation of all directory names
/// from the traversal root down to that file, with size equal to the
/// content length and mode `0o644`.
pub open spec fn entries_of(t: FileSystemTree, p: Seq<char>) -> Seq<SpecEntry>
    decreases t,
{
    match t {
        FileSystemTree::File(data) => seq![(p, data@, data@.len() as u64, 0o644u32)],
        FileSystemTree::Directory(children) => entries_of_children(children@, p),
    }
}

/// The archive entries of a directory's children, concatenated in order.
pub open spec fn entries_of_children(cs: Seq<(String, FileSystemTree)>, p: Seq<char>) -> Seq<
    SpecEntry,
>
    decreases cs,
{
    if cs.len() == 0 {
        Seq::empty()
    } else {
        entries_of(cs[0].1, child_path(p, cs[0].0@)) + entries_of_children(cs.drop_first(), p)
    }
}

/// Strict lexicographic order on character sequences, comparing characters
/// by their scalar values; the order of directory names.
pub open spec fn lex_lt(a: Seq<char>, b: Seq<char>) -> bool
    decreases a.len(),
{
    if b.len() == 0 {
        false
    } else if a.len() == 0 {
        true
    } else if a[0] != b[0] {
        (a[0] as u32) < (b[0] as u32)
    } else {
        lex_lt(a.drop_first(), b.drop_first())
    }
}

/// Whether a directory's names are strictly sorted (hence unique).
pub open spec fn names_sorted(cs: Seq<(String, FileSystemTree)>) -> bool {
    forall|i: int, j: int| 0 <= i < j < cs.len() ==> lex_lt(cs[i].0@, cs[j].0@)
}

impl FileSystemTree {
    /// Well-formedness: every directory's names are strictly sorted, at
    /// every level of the tree.
    pub open spec fn wf(self) -> bool
        decreases self,
    {
        match self {
            FileSystemTree::File(_) => true,
            FileSystemTree::Directory(children) => names_sorted(children@) && (forall|i: int|
                0 <= i < children@.len() ==> (#[trigger] children@[i]).1.wf()),
        }
    }
}

impl MergeableFileSystemTree {
    /// Well-formedness of the wrapped tree.
    pub open spec fn wf(self) -> bool {
        self.0.wf()
    }
}

} // verus!
