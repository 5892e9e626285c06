//! Appending file system trees to tar archive builders, and building whole
//! tar archives from trees.
//!
//! Header construction and byte-stream layout are delegated to the `tar`
//! crate behind a small set of trusted items; the traversal, the entry
//! paths, the size and mode fields, and the order of the emitted entries
//! are verified against the model in [`crate::tree`].

use vstd::prelude::*;
use vstd::string::StrSliceExecFns;
use crate::misc::join_path::join_str;
use crate::tree::{
    FileSystemTree, MergeableFileSystemTree, SpecEntry, child_path, entries_of,
    entries_of_children, is_root_chars,
};
use crate::{ArchiveBuilder, FsTree};

verus! {

/// Declares std::io::Error, the error type that the `tar` crate's builder
/// surfaces, so that it can stand in the library's result types; the
/// library never inspects it, only hands it through unchanged.
#[verifier::external_type_specification]
#[verifier::external_body]
pub struct ExIoError(std::io::Error);

/// An archive builder accumulating entries into an in-memory byte buffer,
/// which must be finalized through [`Builder::into_inner`] to produce a
/// valid archive.  It holds a `tar::Builder` over a `Vec<u8>`; every use of
/// the `tar` crate goes through the trusted items of this module.
#[verifier::external_body]
pub struct Builder {
    inner: ::tar::Builder<Vec<u8>>,
}

/// The entries appended to a builder so far: for each one its path, its
/// content bytes, its header size field and its header mode field, in the
/// order they were appended.
pub uninterp spec fn tar_entries(b: Builder) -> Seq<SpecEntry>;

/// The finished archive's bytes as a function of the entries appended: the
/// serialized headers and padded contents in order, followed by the two
/// trailing zero blocks.
pub uninterp spec fn tar_archive_bytes(entries: Seq<SpecEntry>) -> Seq<u8>;

/// A path the tar builder accepts on every platform, so that appending an
/// entry at it is guaranteed to succeed: nonempty and relative, with no
/// `..` component, no nul character, and none of the characters that only
/// some platforms treat specially (a backslash separator, a drive-letter
/// colon in second position).  The builder accepts a few paths beyond
/// these (it skips `.` components, for one), so this condition is
/// sufficient, not necessary.
pub open spec fn tar_safe_path(p: Seq<char>) -> bool {
    &&& p.len() > 0
    &&& p[0] != '/'
    &&& !(p.len() >= 2 && p[1] == ':')
    &&& (forall|i: int| 0 <= i < p.len() ==> p[i] != '\u{0}' && p[i] != '\\')
    &&& (forall|i: int|
        0 <= i < p.len() - 1 ==> !(#[trigger] p[i] == '.' && p[i + 1] == '.' && (i == 0 || p[i
            - 1] == '/') && (i + 2 == p.len() || p[i + 2] == '/')))
}

/// Whether every entry in `es` sits at a path the builder is sure to
/// accept.
pub open spec fn entry_paths_safe(es: Seq<SpecEntry>) -> bool {
    forall|k: int| 0 <= k < es.len() ==> tar_safe_path((#[trigger] es[k]).0)
}

impl ArchiveBuilder for Builder {
    open spec fn entries(&self) -> Seq<SpecEntry> {
        tar_entries(*self)
    }
}

impl Builder {
    /// Relies on tar::Builder::new: a fresh builder over an empty buffer
    /// has had no entries appended.
    #[verifier::external_body]
    pub fn new() -> (b: Builder)
        ensures
            tar_entries(b) == Seq::<SpecEntry>::empty(),
    {
        Builder { inner: ::tar::Builder::new(Vec::new()) }
    }

    /// Relies on tar::Builder::into_inner: finishes the archive (the two
    /// trailing zero blocks) if not finished yet and returns the underlying
    /// buffer.  Writing into the in-memory buffer cannot fail, so the
    /// result is always the buffer; its bytes are a function of the
    /// appended entries alone, and with no entries they are exactly the
    /// two zeroed terminator blocks.
    #[verifier::external_body]
    pub fn into_inner(self) -> (r: Result<Vec<u8>, std::io::Error>)
        ensures
            r is Ok,
            r matches Ok(bytes) ==> bytes@ == tar_archive_bytes(tar_entries(self)),
            tar_entries(self).len() == 0 ==> (r matches Ok(bytes) ==> bytes@ == Seq::new(
                1024,
                |i: int| 0u8,
            )),
    {
        self.inner.into_inner()
    }
}

/// Relies on tar::Header (GNU) and tar::Builder::append_data: on success,
/// exactly one regular-file entry with the given path, content bytes, size
/// field and mode field has been appended.  The in-memory buffer's writes
/// cannot fail, so the call fails only in the builder's path validation,
/// which accepts every [`tar_safe_path`] and runs before anything is
/// written: on failure the error is returned and the builder is unchanged.
#[verifier::external_body]
fn append_entry_raw(
    builder: &mut Builder,
    path: &str,
    data: &[u8],
    size: u64,
    mode: u32,
) -> (r: Result<(), std::io::Error>)
    ensures
        r is Ok ==> tar_entries(*final(builder)) == tar_entries(*old(builder)).push(
            (path@, data@, size, mode),
        ),
        tar_safe_path(path@) ==> r is Ok,
        r is Err ==> tar_entries(*final(builder)) == tar_entries(*old(builder)),
{
    let mut header = ::tar::Header::new_gnu();
    header.set_size(size);
    header.set_mode(mode);
    header.set_cksum();
    builder.inner.append_data(&mut header, path, data)
}

/// Writes one regular-file entry at `path` holding `data`, with the size
/// field equal to the content length and mode `0o644`.  Succeeds whenever
/// the builder accepts the path, which it does for every safe path; the
/// underlying error is handed back unchanged, with the builder untouched.
pub fn append_file_to_tar(
    builder: &mut Builder,
    path: &str,
    data: &[u8],
) -> (r: Result<(), std::io::Error>)
    ensures
        r is Ok ==> tar_entries(*final(builder)) == tar_entries(*old(builder)).push(
            (path@, data@, data@.len() as u64, 0o644u32),
        ),
        tar_safe_path(path@) ==> r is Ok,
        r is Err ==> tar_entries(*final(builder)) == tar_entries(*old(builder)),
{
    let size: u64 = data.len() as u64;
    append_entry_raw(builder, path, data, size, 0o644)
}

/// Whether `path` is a root sentinel: empty, or the single dot.
pub fn is_root_str(path: &str) -> (r: bool)
    ensures
        r == is_root_chars(path@),
{
    let n = path.unicode_len();
    if n == 0 {
        true
    } else if n == 1 {
        path.get_char(0) == '.'
    } else {
        false
    }
}

proof fn lemma_entries_children_push(
    cs: Seq<(String, FileSystemTree)>,
    e: (String, FileSystemTree),
    p: Seq<char>,
)
    ensures
        entries_of_children(cs.push(e), p) == entries_of_children(cs, p) + entries_of(
            e.1,
            child_path(p, e.0@),
        ),
    decreases cs,
{
    let sub = entries_of(e.1, child_path(p, e.0@));
    if cs.len() == 0 {
        let single = cs.push(e);
        assert(single[0] == e);
        assert(single.drop_first() =~= Seq::<(String, FileSystemTree)>::empty());
        assert(entries_of_children(single.drop_first(), p) == Seq::<SpecEntry>::empty());
        assert(entries_of_children(single, p) == sub + entries_of_children(
            single.drop_first(),
            p,
        ));
        assert(entries_of_children(cs, p) == Seq::<SpecEntry>::empty());
        assert(sub + Seq::<SpecEntry>::empty() =~= Seq::<SpecEntry>::empty() + sub);
    } else {
        lemma_entries_children_push(cs.drop_first(), e, p);
        assert(cs.push(e).drop_first() =~= cs.drop_first().push(e));
        assert(cs.push(e)[0] == cs[0]);
        assert(entries_of_children(cs.push(e), p) =~= entries_of_children(cs, p) + sub);
    }
}

proof fn lemma_entries_children_concat(
    a: Seq<(String, FileSystemTree)>,
    b: Seq<(String, FileSystemTree)>,
    p: Seq<char>,
)
    ensures
        entries_of_children(a + b, p) == entries_of_children(a, p) + entries_of_children(b, p),
    decreases a,
{
    if a.len() == 0 {
        assert(a + b =~= b);
        assert(entries_of_children(a, p) == Seq::<SpecEntry>::empty());
        assert(entries_of_children(a, p) + entries_of_children(b, p) =~= entries_of_children(
            b,
            p,
        ));
    } else {
        lemma_entries_children_concat(a.drop_first(), b, p);
        assert((a + b).drop_first() =~= a.drop_first() + b);
        assert((a + b)[0] == a[0]);
        assert(entries_of_children(a + b, p) =~= entries_of_children(a, p) + entries_of_children(
            b,
            p,
        ));
    }
}

fn append_tree_to_tar(
    tree: &FileSystemTree,
    builder: &mut Builder,
    path: &str,
) -> (r: Result<(), std::io::Error>)
    ensures
        r is Ok ==> tar_entries(*final(builder)) == tar_entries(*old(builder)) + entries_of(
            *tree,
            path@,
        ),
        entry_paths_safe(entries_of(*tree, path@)) ==> r is Ok,
        r is Err ==> exists|m: int|
            0 <= m <= entries_of(*tree, path@).len() && tar_entries(*final(builder))
                == tar_entries(*old(builder)) + #[trigger] entries_of(*tree, path@).take(m),
    decreases *tree,
{
    match tree {
        FileSystemTree::File(data) => {
            let r = append_file_to_tar(builder, path, data.as_slice());
            proof {
                let es = entries_of(*tree, path@);
                assert(es[0].0 == path@);
                if r is Ok {
                    assert(tar_entries(*builder) =~= tar_entries(*old(builder)) + es);
                } else {
                    assert(es.take(0) =~= Seq::<SpecEntry>::empty());
                    assert(tar_entries(*builder) =~= tar_entries(*old(builder)) + es.take(0));
                }
                if entry_paths_safe(es) {
                    assert(tar_safe_path(es[0].0));
                }
            }
            r
        },
        FileSystemTree::Directory(children) => {
            let ghost entries0 = tar_entries(*old(builder));
            let at_root = is_root_str(path);
            let n = children.len();
            let mut i: usize = 0;
            while i < n
                invariant
                    n == children@.len(),
                    i <= n,
                    *tree == FileSystemTree::Directory(*children),
                    at_root == is_root_chars(path@),
                    entries0 == tar_entries(*old(builder)),
                    tar_entries(*builder) == entries0 + entries_of_children(
                        children@.take(i as int),
                        path@,
                    ),
                decreases n - i,
            {
                let pair = &children[i];
                let name_path: String;
                if at_root {
                    name_path = pair.0.clone();
                } else {
                    name_path = join_str(path, pair.0.as_str());
                }
                assert(name_path@ == child_path(path@, pair.0@));
                proof {
                    assert(tree->Directory_0 == *children);
                    assert(decreases_to!(*tree => tree->Directory_0));
                    assert(decreases_to!(*children => children@));
                    assert(decreases_to!(children@ => children@[i as int]));
                    assert(decreases_to!(children@[i as int] => children@[i as int].1));
                    assert(decreases_to!(*tree => children@[i as int].1));
                }
                let res = append_tree_to_tar(&pair.1, builder, name_path.as_str());
                if res.is_err() {
                    proof {
                        let cs = children@;
                        let whole = entries_of_children(cs, path@);
                        let prefix = entries_of_children(cs.take(i as int), path@);
                        let ce = entries_of(cs[i as int].1, child_path(path@, cs[i as int].0@));
                        lemma_entries_children_push(cs.take(i as int), cs[i as int], path@);
                        lemma_entries_children_concat(
                            cs.take(i as int).push(cs[i as int]),
                            cs.skip(i + 1),
                            path@,
                        );
                        assert(cs.take(i as int).push(cs[i as int]) + cs.skip(i + 1) =~= cs);
                        assert(whole == (prefix + ce) + entries_of_children(
                            cs.skip(i + 1),
                            path@,
                        ));
                        let j = choose|j: int|
                            0 <= j <= ce.len() && tar_entries(*builder) == (entries0 + prefix)
                                + ce.take(j);
                        let m = prefix.len() + j;
                        assert(whole.take(m) =~= prefix + ce.take(j));
                        assert((entries0 + prefix) + ce.take(j) =~= entries0 + (prefix + ce.take(
                            j,
                        )));
                        assert(0 <= m <= whole.len() && tar_entries(*builder) == entries0
                            + whole.take(m));
                        assert(entries_of(*tree, path@) == whole);
                        assert(0 <= m <= entries_of(*tree, path@).len() && tar_entries(*builder)
                            == entries0 + entries_of(*tree, path@).take(m));
                        assert(tar_entries(*builder) == tar_entries(*old(builder))
                            + entries_of(*tree, path@).take(m));
                        assert(exists|q: int|
                            0 <= q <= entries_of(*tree, path@).len() && tar_entries(*builder)
                                == tar_entries(*old(builder)) + #[trigger] entries_of(
                                *tree,
                                path@,
                            ).take(q));
                        if entry_paths_safe(whole) {
                            assert forall|k: int|
                                0 <= k < ce.len() implies tar_safe_path(
                                (#[trigger] ce[k]).0,
                            ) by {
                                assert(whole[prefix.len() + k] == ce[k]);
                                assert(tar_safe_path(whole[prefix.len() + k].0));
                            }
                            assert(entry_paths_safe(ce));
                            assert(res is Ok);
                        }
                    }
                    return res;
                }
                proof {
                    lemma_entries_children_push(children@.take(i as int), children@[i as int], path@);
                    assert(children@.take(i as int).push(children@[i as int]) =~= children@.take(
                        i + 1,
                    ));
                }
                i = i + 1;
            }
            proof {
                assert(children@.take(n as int) =~= children@);
            }
            Ok(())
        },
    }
}

/// Appends in-memory file system trees to archive builders: one entry per
/// file, at the accumulation of the directory names along the way, starting
/// from a caller-supplied path.
pub trait AppendToTar<Builder: ArchiveBuilder>: FsTree {
    /// The entries that appending this tree at `start` emits, in order.
    spec fn tree_entries(&self, start: Seq<char>) -> Seq<SpecEntry>;

    /// Appends the tree to a path within the archive.  On success, exactly
    /// the tree's entries at `path` have been appended, in depth-first
    /// order.  Success is guaranteed when every entry path is one the
    /// builder accepts.  On failure the builder's first I/O error is
    /// returned unchanged, with no retry; the entries appended before the
    /// failure remain in the builder (some prefix of the tree's entries),
    /// and the caller must treat the partial archive as invalid.
    fn append_to_tar(&self, builder: &mut Builder, path: &str) -> (r: Result<
        (),
        std::io::Error,
    >)
        ensures
            r is Ok ==> final(builder).entries() == old(builder).entries() + self.tree_entries(
                path@,
            ),
            entry_paths_safe(self.tree_entries(path@)) ==> r is Ok,
            r is Err ==> exists|m: int|
                0 <= m <= self.tree_entries(path@).len() && final(builder).entries() == old(
                    builder,
                ).entries() + self.tree_entries(path@).take(m),
    ;
}

impl AppendToTar<Builder> for FileSystemTree {
    open spec fn tree_entries(&self, start: Seq<char>) -> Seq<SpecEntry> {
        entries_of(*self, start)
    }

    fn append_to_tar(&self, builder: &mut Builder, path: &str) -> (r: Result<
        (),
        std::io::Error,
    >) {
        let r = append_tree_to_tar(self, builder, path);
        proof {
            if r is Err {
                let m = choose|m: int|
                    0 <= m <= entries_of(*self, path@).len() && tar_entries(*builder)
                        == tar_entries(*old(builder)) + entries_of(*self, path@).take(m);
                assert(0 <= m <= self.tree_entries(path@).len() && tar_entries(*builder)
                    == tar_entries(*old(builder)) + self.tree_entries(path@).take(m));
            }
        }
        r
    }
}

impl AppendToTar<Builder> for MergeableFileSystemTree {
    open spec fn tree_entries(&self, start: Seq<char>) -> Seq<SpecEntry> {
        entries_of(self.0, start)
    }

    fn append_to_tar(&self, builder: &mut Builder, path: &str) -> (r: Result<
        (),
        std::io::Error,
    >) {
        let r = append_tree_to_tar(&self.0, builder, path);
        proof {
            if r is Err {
                let m = choose|m: int|
                    0 <= m <= entries_of(self.0, path@).len() && tar_entries(*builder)
                        == tar_entries(*old(builder)) + entries_of(self.0, path@).take(m);
                assert(0 <= m <= self.tree_entries(path@).len() && tar_entries(*builder)
                    == tar_entries(*old(builder)) + self.tree_entries(path@).take(m));
            }
        }
        r
    }
}

/// Appends in-memory file system trees to archive builders, expressed as a
/// method on the builder; delegates entirely to [`AppendToTar`].
pub trait AppendTree<Tree>: ArchiveBuilder where Tree: AppendToTar<Self> + ?Sized, Self: Sized {
    /// Appends a tree to a path within this archive, with the same
    /// contract as [`AppendToTar::append_to_tar`].
    fn append_tree(&mut self, tree: &Tree, path: &str) -> (r: Result<(), std::io::Error>)
        ensures
            r is Ok ==> final(self).entries() == old(self).entries() + tree.tree_entries(path@),
            entry_paths_safe(tree.tree_entries(path@)) ==> r is Ok,
            r is Err ==> exists|m: int|
                0 <= m <= tree.tree_entries(path@).len() && final(self).entries() == old(
                    self,
                ).entries() + tree.tree_entries(path@).take(m),
    ;
}

impl<Builder, Tree> AppendTree<Tree> for Builder where
    Builder: ArchiveBuilder,
    Tree: AppendToTar<Builder> + ?Sized,
 {
    fn append_tree(&mut self, tree: &Tree, path: &str) -> (r: Result<(), std::io::Error>) {
        tree.append_to_tar(self, path)
    }
}

/// Creates complete tar archives from in-memory file system trees.
pub trait BuildTar: AppendToTar<Builder> {
    /// Builds a complete, finalized tar archive from this tree: the tree's
    /// entries at the root path, followed by the format's trailing zero
    /// blocks; for a tree with no entries the archive is exactly the two
    /// zeroed terminator blocks.  Success is guaranteed when every entry
    /// path is one the builder accepts; on failure the first I/O error is
    /// returned unchanged and no buffer is handed out.
    fn build_tar(&self) -> (r: Result<Vec<u8>, std::io::Error>)
        ensures
            r matches Ok(bytes) ==> bytes@ == tar_archive_bytes(
                self.tree_entries(Seq::<char>::empty()),
            ),
            entry_paths_safe(self.tree_entries(Seq::<char>::empty())) ==> r is Ok,
            self.tree_entries(Seq::<char>::empty()).len() == 0 ==> (r matches Ok(bytes)
                ==> bytes@ == Seq::new(1024, |i: int| 0u8)),
    ;
}

impl BuildTar for FileSystemTree {
    fn build_tar(&self) -> (r: Result<Vec<u8>, std::io::Error>) {
        build_tar_of(self)
    }
}

impl BuildTar for MergeableFileSystemTree {
    fn build_tar(&self) -> (r: Result<Vec<u8>, std::io::Error>) {
        build_tar_of(&self.0)
    }
}

fn build_tar_of(tree: &FileSystemTree) -> (r: Result<Vec<u8>, std::io::Error>)
    ensures
        r matches Ok(bytes) ==> bytes@ == tar_archive_bytes(
            entries_of(*tree, Seq::<char>::empty()),
        ),
        entry_paths_safe(entries_of(*tree, Seq::<char>::empty())) ==> r is Ok,
        entries_of(*tree, Seq::<char>::empty()).len() == 0 ==> (r matches Ok(bytes) ==> bytes@
            == Seq::new(1024, |i: int| 0u8)),
{
    let mut builder = Builder::new();
    let root: String = crate::misc::archive_root::ArchiveRoot::archive_root();
    let appended = append_tree_to_tar(tree, &mut builder, root.as_str());
    match appended {
        Ok(()) => {
            proof {
                assert(tar_entries(builder) =~= entries_of(*tree, Seq::<char>::empty()));
            }
            builder.into_inner()
        },
        Err(e) => {
            proof {
                if entry_paths_safe(entries_of(*tree, Seq::<char>::empty())) {
                    assert(appended is Ok);
                }
            }
            Err(e)
        },
    }
}

} // verus!
