//! Laws of the traversal model: what the emitted entries' paths and header
//! fields are for every tree and every starting path.

use vstd::prelude::*;
use crate::tar::{entry_paths_safe, tar_safe_path};
use crate::tree::{
    FileSystemTree, SpecEntry, child_path, entries_of, entries_of_children, is_root_chars, lex_lt,
    names_sorted,
};

verus! {

/// The set of root-to-leaf name-concatenations of `t` prefixed by `p`: for
/// every file in `t`, the starting path extended by the directory names on
/// the way down to that file.
pub open spec fn leaf_paths(t: FileSystemTree, p: Seq<char>) -> Set<Seq<char>>
    decreases t,
{
    match t {
        FileSystemTree::File(_) => set![p],
        FileSystemTree::Directory(children) => leaf_paths_children(children@, p),
    }
}

/// The union of the leaf paths of a directory's children.
pub open spec fn leaf_paths_children(cs: Seq<(String, FileSystemTree)>, p: Seq<char>) -> Set<
    Seq<char>,
>
    decreases cs,
{
    if cs.len() == 0 {
        Set::empty()
    } else {
        leaf_paths(cs[0].1, child_path(p, cs[0].0@)) + leaf_paths_children(cs.drop_first(), p)
    }
}

/// The paths of a sequence of entries, in order.
pub open spec fn entry_paths(es: Seq<SpecEntry>) -> Seq<Seq<char>> {
    es.map_values(|e: SpecEntry| e.0)
}

/// An entry's header fields as the traversal fixes them: the size field is
/// exactly the content's byte length, and the mode field is `0o644`.
pub open spec fn entry_fields_ok(e: SpecEntry) -> bool {
    e.2 as nat == e.1.len() && e.3 == 0o644u32
}

/// For every tree and every starting path, the set of entry paths produced
/// equals the set of root-to-leaf name-concatenations of the tree prefixed
/// by the starting path.
pub proof fn lemma_entry_paths_are_leaf_paths(t: FileSystemTree, p: Seq<char>)
    ensures
        entry_paths(entries_of(t, p)).to_set() == leaf_paths(t, p),
    decreases t,
{
    match t {
        FileSystemTree::File(data) => {
            let es = entries_of(t, p);
            assert(entry_paths(es) =~= seq![p]);
            assert forall|x: Seq<char>|
                seq![p].to_set().contains(x) <==> set![p].contains(x) by {
                if seq![p].contains(x) {
                    assert(x == p);
                }
                if x == p {
                    assert(seq![p][0] == p);
                }
            }
            assert(entry_paths(es).to_set() =~= leaf_paths(t, p));
        },
        FileSystemTree::Directory(children) => {
            lemma_entry_paths_are_leaf_paths_children(children@, p);
        },
    }
}

proof fn lemma_entry_paths_are_leaf_paths_children(cs: Seq<(String, FileSystemTree)>, p: Seq<char>)
    ensures
        entry_paths(entries_of_children(cs, p)).to_set() == leaf_paths_children(cs, p),
    decreases cs,
{
    if cs.len() == 0 {
        assert(entry_paths(entries_of_children(cs, p)) =~= Seq::<Seq<char>>::empty());
        assert(entry_paths(entries_of_children(cs, p)).to_set() =~= leaf_paths_children(cs, p));
    } else {
        let a = entries_of(cs[0].1, child_path(p, cs[0].0@));
        let b = entries_of_children(cs.drop_first(), p);
        lemma_entry_paths_are_leaf_paths(cs[0].1, child_path(p, cs[0].0@));
        lemma_entry_paths_are_leaf_paths_children(cs.drop_first(), p);
        assert(entry_paths(a + b) =~= entry_paths(a) + entry_paths(b));
        vstd::seq_lib::seq_to_set_distributes_over_add(entry_paths(a), entry_paths(b));
        assert(entry_paths(entries_of_children(cs, p)).to_set() =~= leaf_paths_children(cs, p));
    }
}

/// For every tree and every starting path, every emitted entry's size field
/// equals its content's byte length exactly, and its mode field is `0o644`.
pub proof fn lemma_entries_size_and_mode(t: FileSystemTree, p: Seq<char>)
    ensures
        forall|k: int|
            0 <= k < entries_of(t, p).len() ==> entry_fields_ok(#[trigger] entries_of(t, p)[k]),
    decreases t,
{
    match t {
        FileSystemTree::File(data) => {
            vstd::std_specs::vec::axiom_spec_len(&data);
            assert(data@.len() <= u64::MAX);
            assert(t == FileSystemTree::File(data));
            assert(entries_of(t, p) == seq![(p, data@, data@.len() as u64, 0o644u32)]);
            assert forall|k: int|
                0 <= k < entries_of(t, p).len() implies entry_fields_ok(
                #[trigger] entries_of(t, p)[k],
            ) by {
                assert(k == 0);
                assert(entries_of(t, p)[0] == (p, data@, data@.len() as u64, 0o644u32));
            }
        },
        FileSystemTree::Directory(children) => {
            lemma_entries_size_and_mode_children(children@, p);
            assert(entries_of(t, p) == entries_of_children(children@, p));
        },
    }
}

proof fn lemma_entries_size_and_mode_children(cs: Seq<(String, FileSystemTree)>, p: Seq<char>)
    ensures
        forall|k: int|
            0 <= k < entries_of_children(cs, p).len() ==> entry_fields_ok(
                #[trigger] entries_of_children(cs, p)[k],
            ),
    decreases cs,
{
    if cs.len() > 0 {
        let a = entries_of(cs[0].1, child_path(p, cs[0].0@));
        let b = entries_of_children(cs.drop_first(), p);
        lemma_entries_size_and_mode(cs[0].1, child_path(p, cs[0].0@));
        lemma_entries_size_and_mode_children(cs.drop_first(), p);
        assert forall|k: int|
            0 <= k < entries_of_children(cs, p).len() implies entry_fields_ok(
            #[trigger] entries_of_children(cs, p)[k],
        ) by {
            if k < a.len() {
                assert((a + b)[k] == a[k]);
            } else {
                assert((a + b)[k] == b[k - a.len()]);
            }
        }
    }
}

/// Appending a directory tree at the canonical root path produces the same
/// entries as appending it at any equivalent root sentinel: the empty path
/// and the single-dot path are interchangeable starting points.
pub proof fn lemma_root_start_equivalent(t: FileSystemTree, p1: Seq<char>, p2: Seq<char>)
    requires
        is_root_chars(p1),
        is_root_chars(p2),
        t is Directory,
    ensures
        entries_of(t, p1) == entries_of(t, p2),
{
    lemma_root_start_equivalent_children(t->Directory_0@, p1, p2);
}

/// Sequential accumulation during traversal denotes the same path as one
/// join of the accumulated names: descending into a directory named `a` and
/// then one named `b` from a non-root path `p` reaches `p` joined with the
/// joined name `a/b`, however the joins are grouped.
pub proof fn lemma_traversal_accumulation_joins(p: Seq<char>, a: Seq<char>, b: Seq<char>)
    requires
        !is_root_chars(p),
    ensures
        child_path(child_path(p, a), b) == crate::misc::join_path::join_chars(
            p,
            crate::misc::join_path::join_chars(a, b),
        ),
{
    assert(!is_root_chars(crate::misc::join_path::join_chars(p, a))) by {
        assert(crate::misc::join_path::join_chars(p, a)[p.len() as int] == '/');
    }
    crate::misc::join_path::lemma_join_chars_associative(p, a, b);
}

/// A directory name that keeps entry paths unambiguous: nonempty, not a
/// root sentinel, and free of the `/` separator.
pub open spec fn plain_name(n: Seq<char>) -> bool {
    n.len() > 0 && !is_root_chars(n) && (forall|i: int| 0 <= i < n.len() ==> n[i] != '/')
}

impl FileSystemTree {
    /// Whether every directory name in the tree is a plain name.
    pub open spec fn names_plain(self) -> bool
        decreases self,
    {
        match self {
            FileSystemTree::File(_) => true,
            FileSystemTree::Directory(children) => (forall|i: int|
                0 <= i < children@.len() ==> plain_name((#[trigger] children@[i]).0@)) && (forall|
                i: int,
            |
                0 <= i < children@.len() ==> (#[trigger] children@[i]).1.names_plain()),
        }
    }
}

/// A directory name that the archive builder is certain to accept inside
/// a path on every platform: a plain name that is not `..` and holds no
/// nul, backslash or colon character.
pub open spec fn safe_name(n: Seq<char>) -> bool {
    &&& plain_name(n)
    &&& !(n.len() == 2 && n[0] == '.' && n[1] == '.')
    &&& (forall|i: int|
        0 <= i < n.len() ==> n[i] != '\u{0}' && n[i] != '\\' && n[i] != ':')
}

impl FileSystemTree {
    /// Whether every directory name in the tree is a safe name.
    pub open spec fn names_safe(self) -> bool
        decreases self,
    {
        match self {
            FileSystemTree::File(_) => true,
            FileSystemTree::Directory(children) => (forall|i: int|
                0 <= i < children@.len() ==> safe_name((#[trigger] children@[i]).0@)) && (forall|
                i: int,
            |
                0 <= i < children@.len() ==> (#[trigger] children@[i]).1.names_safe()),
        }
    }
}

/// Descending into a safely named child keeps the accumulated path one the
/// builder accepts, whether the walk is still at a root sentinel or already
/// below a safe path.
pub proof fn lemma_child_path_safe(p: Seq<char>, n: Seq<char>)
    requires
        safe_name(n),
        tar_safe_path(p) || is_root_chars(p),
    ensures
        tar_safe_path(child_path(p, n)),
{
    if is_root_chars(p) {
        assert(child_path(p, n) == n);
        assert(tar_safe_path(n));
    } else {
        let q = child_path(p, n);
        assert(q =~= p + seq!['/'] + n);
        assert(q[0] == p[0]);
        assert(q.len() >= 2);
        assert(q[1] != ':') by {
            if p.len() == 1 {
                assert(q[1] == '/');
            } else {
                assert(q[1] == p[1]);
            }
        }
        assert forall|i: int| 0 <= i < q.len() implies q[i] != '\u{0}' && q[i] != '\\' by {
            if i < p.len() {
                assert(q[i] == p[i]);
            } else if i == p.len() {
                assert(q[i] == '/');
            } else {
                assert(q[i] == n[i - p.len() - 1]);
            }
        }
        assert forall|i: int|
            0 <= i < q.len() - 1 implies !(#[trigger] q[i] == '.' && q[i + 1] == '.' && (i == 0
            || q[i - 1] == '/') && (i + 2 == q.len() || q[i + 2] == '/')) by {
            if q[i] == '.' && q[i + 1] == '.' && (i == 0 || q[i - 1] == '/') && (i + 2 == q.len()
                || q[i + 2] == '/') {
                if i + 1 < p.len() {
                    // a `..` component inside `p`, which `p`'s safety forbids
                    assert(p[i] == '.' && p[i + 1] == '.');
                    assert(i == 0 || p[i - 1] == '/');
                    assert(i + 2 < q.len());
                    if i + 2 == p.len() {
                        assert(q[i + 2] == '/');
                    } else {
                        assert(q[i + 2] == p[i + 2]);
                    }
                    assert(!(i + 2 == p.len() || p[i + 2] == '/'));
                } else if i + 1 == p.len() {
                    assert(q[i + 1] == '/');
                } else if i == p.len() {
                    assert(q[i] == '/');
                } else {
                    // both dots inside `n`; `n` has no separator, so the
                    // boundaries force `n` to be exactly `..`
                    assert(q[i - 1] == '/');
                    assert(i - 1 >= p.len());
                    assert(i - 1 > p.len() ==> q[i - 1] == n[i - 1 - p.len() - 1] && q[i - 1]
                        != '/');
                    assert(i - 1 == p.len());
                    if i + 2 < q.len() {
                        assert(q[i + 2] == n[i + 2 - p.len() - 1]);
                        assert(q[i + 2] != '/');
                    }
                    assert(i + 2 == q.len());
                    assert(n.len() == 2 && n[0] == '.' && n[1] == '.');
                }
            }
        }
        assert(tar_safe_path(q));
    }
}

/// For every tree whose directory names are safe names, appended below a
/// safe path (or a directory tree appended at a root sentinel), every
/// emitted entry path is one the builder accepts — so appending and
/// building are guaranteed to succeed.
pub proof fn lemma_safe_names_entries_safe(t: FileSystemTree, p: Seq<char>)
    requires
        t.names_safe(),
        tar_safe_path(p) || (is_root_chars(p) && t is Directory),
    ensures
        entry_paths_safe(entries_of(t, p)),
    decreases t,
{
    match t {
        FileSystemTree::File(_) => {
            assert(entries_of(t, p)[0].0 == p);
        },
        FileSystemTree::Directory(children) => {
            lemma_safe_names_entries_safe_children(children@, p);
            assert(entries_of(t, p) == entries_of_children(children@, p));
        },
    }
}

proof fn lemma_safe_names_entries_safe_children(cs: Seq<(String, FileSystemTree)>, p: Seq<char>)
    requires
        forall|i: int|
            0 <= i < cs.len() ==> safe_name((#[trigger] cs[i]).0@) && cs[i].1.names_safe(),
        tar_safe_path(p) || is_root_chars(p),
    ensures
        entry_paths_safe(entries_of_children(cs, p)),
    decreases cs,
{
    if cs.len() > 0 {
        let b = child_path(p, cs[0].0@);
        lemma_child_path_safe(p, cs[0].0@);
        lemma_safe_names_entries_safe(cs[0].1, b);
        lemma_safe_names_entries_safe_children(cs.drop_first(), p);
        let a = entries_of(cs[0].1, b);
        let rest = entries_of_children(cs.drop_first(), p);
        assert forall|k: int|
            0 <= k < entries_of_children(cs, p).len() implies tar_safe_path(
            (#[trigger] entries_of_children(cs, p)[k]).0,
        ) by {
            if k < a.len() {
                assert((a + rest)[k] == a[k]);
                assert(tar_safe_path(a[k].0));
            } else {
                assert((a + rest)[k] == rest[k - a.len()]);
                assert(tar_safe_path(rest[k - a.len()].0));
            }
        }
    }
}

/// Whether `r` is `base` itself or `base` followed by a `/` and more: the
/// shape of every entry path emitted below the accumulated path `base`.
pub open spec fn path_extends(r: Seq<char>, base: Seq<char>) -> bool {
    r == base || (r.len() > base.len() && r.take(base.len() as int) == base && r[base.len() as int]
        == '/')
}

proof fn lemma_extends_take(r: Seq<char>, base: Seq<char>)
    requires
        path_extends(r, base),
    ensures
        r.len() >= base.len(),
        r.take(base.len() as int) == base,
{
    if r == base {
        assert(r.take(base.len() as int) =~= base);
    }
}

proof fn lemma_path_extends_trans(r: Seq<char>, m: Seq<char>, b: Seq<char>)
    requires
        path_extends(r, m),
        path_extends(m, b),
    ensures
        path_extends(r, b),
{
    lemma_extends_take(r, m);
    lemma_extends_take(m, b);
    if m == b {
        // extending m is extending b
    } else {
        assert(m.len() > b.len());
        assert(r.take(b.len() as int) =~= b) by {
            assert(forall|i: int|
                0 <= i < b.len() ==> r.take(m.len() as int)[i] == #[trigger] r[i]);
        }
        assert(r[b.len() as int] == m[b.len() as int]) by {
            assert(r.take(m.len() as int)[b.len() as int] == r[b.len() as int]);
        }
    }
}

proof fn lemma_entries_extend_base(t: FileSystemTree, q: Seq<char>)
    requires
        !is_root_chars(q),
    ensures
        forall|k: int|
            0 <= k < entries_of(t, q).len() ==> path_extends(
                (#[trigger] entries_of(t, q)[k]).0,
                q,
            ),
    decreases t,
{
    match t {
        FileSystemTree::File(_) => {
            assert(entries_of(t, q)[0].0 == q);
        },
        FileSystemTree::Directory(children) => {
            lemma_entries_children_extend_base(children@, q);
            assert(entries_of(t, q) == entries_of_children(children@, q));
        },
    }
}

proof fn lemma_entries_children_extend_base(cs: Seq<(String, FileSystemTree)>, q: Seq<char>)
    requires
        !is_root_chars(q),
    ensures
        forall|k: int|
            0 <= k < entries_of_children(cs, q).len() ==> path_extends(
                (#[trigger] entries_of_children(cs, q)[k]).0,
                q,
            ),
    decreases cs,
{
    if cs.len() > 0 {
        let b = child_path(q, cs[0].0@);
        assert(b == crate::misc::join_path::join_chars(q, cs[0].0@));
        assert(b[q.len() as int] == '/');
        assert(!is_root_chars(b));
        assert(path_extends(b, q)) by {
            assert(b.take(q.len() as int) =~= q);
        }
        lemma_entries_extend_base(cs[0].1, b);
        lemma_entries_children_extend_base(cs.drop_first(), q);
        let a = entries_of(cs[0].1, b);
        let rest = entries_of_children(cs.drop_first(), q);
        assert forall|k: int|
            0 <= k < entries_of_children(cs, q).len() implies path_extends(
            (#[trigger] entries_of_children(cs, q)[k]).0,
            q,
        ) by {
            if k < a.len() {
                assert((a + rest)[k] == a[k]);
                lemma_path_extends_trans(a[k].0, b, q);
            } else {
                assert((a + rest)[k] == rest[k - a.len()]);
            }
        }
    }
}

proof fn lemma_distinct_names_disjoint(
    q: Seq<char>,
    n1: Seq<char>,
    n2: Seq<char>,
    r: Seq<char>,
)
    requires
        plain_name(n1),
        plain_name(n2),
        n1 != n2,
    ensures
        !(path_extends(r, child_path(q, n1)) && path_extends(r, child_path(q, n2))),
{
    if path_extends(r, child_path(q, n1)) && path_extends(r, child_path(q, n2)) {
        let pre: Seq<char> = if is_root_chars(q) {
            Seq::empty()
        } else {
            q.push('/')
        };
        let b1 = child_path(q, n1);
        let b2 = child_path(q, n2);
        assert(b1 =~= pre + n1);
        assert(b2 =~= pre + n2);
        lemma_extends_take(r, b1);
        lemma_extends_take(r, b2);
        if b1.len() == b2.len() {
            assert(n1 =~= n2) by {
                assert(forall|i: int|
                    0 <= i < n1.len() ==> r.take(b1.len() as int)[pre.len() + i] == #[trigger] n1[
                        i
                    ]);
                assert(forall|i: int|
                    0 <= i < n2.len() ==> r.take(b2.len() as int)[pre.len() + i] == #[trigger] n2[
                        i
                    ]);
            }
        } else if b1.len() < b2.len() {
            assert(r.len() >= b2.len());
            assert(r[b1.len() as int] == '/');
            assert(r.take(b2.len() as int)[b1.len() as int] == r[b1.len() as int]);
            assert(b2[b1.len() as int] == n2[b1.len() - pre.len()]);
            assert(n2[b1.len() - pre.len()] != '/');
        } else {
            assert(r.len() >= b1.len());
            assert(r[b2.len() as int] == '/');
            assert(r.take(b1.len() as int)[b2.len() as int] == r[b2.len() as int]);
            assert(b1[b2.len() as int] == n1[b2.len() - pre.len()]);
            assert(n1[b2.len() - pre.len()] != '/');
        }
    }
}

proof fn lemma_lex_lt_irreflexive(a: Seq<char>)
    ensures
        !lex_lt(a, a),
    decreases a.len(),
{
    if a.len() > 0 {
        lemma_lex_lt_irreflexive(a.drop_first());
    }
}

/// For every well-formed tree whose directory names are plain names and
/// every starting path, the emitted entry paths hold no duplicates: names
/// are unique within each directory, and plain names keep paths of
/// different files apart.
pub proof fn lemma_entry_paths_no_duplicates(t: FileSystemTree, p: Seq<char>)
    requires
        t.wf(),
        t.names_plain(),
    ensures
        entry_paths(entries_of(t, p)).no_duplicates(),
    decreases t,
{
    match t {
        FileSystemTree::File(_) => {
            assert(entry_paths(entries_of(t, p)).len() == 1);
        },
        FileSystemTree::Directory(children) => {
            assert forall|i: int, j: int|
                0 <= i < j < children@.len() implies children@[i].0@ != children@[j].0@ by {
                assert(lex_lt(children@[i].0@, children@[j].0@));
                lemma_lex_lt_irreflexive(children@[i].0@);
            }
            assert(t == FileSystemTree::Directory(children));
            assert(names_sorted(children@));
            assert forall|i: int|
                0 <= i < children@.len() implies (#[trigger] children@[i].1).wf()
                && children@[i].1.names_plain() && plain_name(children@[i].0@) by {
                assert(children@[i].1.wf());
                assert(children@[i].1.names_plain());
                assert(plain_name(children@[i].0@));
            }
            lemma_entry_paths_children_no_duplicates(children@, p);
            assert(entries_of(t, p) == entries_of_children(children@, p));
        },
    }
}

proof fn lemma_entry_paths_children_no_duplicates(cs: Seq<(String, FileSystemTree)>, p: Seq<char>)
    requires
        forall|i: int|
            0 <= i < cs.len() ==> (#[trigger] cs[i]).1.wf() && cs[i].1.names_plain()
                && plain_name(cs[i].0@),
        forall|i: int, j: int| 0 <= i < j < cs.len() ==> cs[i].0@ != cs[j].0@,
    ensures
        entry_paths(entries_of_children(cs, p)).no_duplicates(),
        forall|k: int|
            0 <= k < entries_of_children(cs, p).len() ==> exists|j: int|
                0 <= j < cs.len() && path_extends(
                    (#[trigger] entries_of_children(cs, p)[k]).0,
                    child_path(p, cs[j].0@),
                ),
    decreases cs,
{
    if cs.len() > 0 {
        let b0 = child_path(p, cs[0].0@);
        assert(!is_root_chars(b0)) by {
            if !is_root_chars(p) {
                assert(b0[p.len() as int] == '/');
            }
        }
        let a = entries_of(cs[0].1, b0);
        let rest = entries_of_children(cs.drop_first(), p);
        lemma_entry_paths_no_duplicates(cs[0].1, b0);
        lemma_entries_extend_base(cs[0].1, b0);
        lemma_entry_paths_children_no_duplicates(cs.drop_first(), p);
        assert(entry_paths(a + rest) =~= entry_paths(a) + entry_paths(rest));
        assert forall|x: int, y: int|
            0 <= x < entry_paths(a).len() && 0 <= y < entry_paths(rest).len() implies entry_paths(
            a,
        )[x] != entry_paths(rest)[y] by {
            let xp = entry_paths(a)[x];
            let yp = entry_paths(rest)[y];
            assert(xp == a[x].0);
            assert(yp == rest[y].0);
            let j = choose|j: int|
                0 <= j < cs.drop_first().len() && path_extends(
                    rest[y].0,
                    child_path(p, cs.drop_first()[j].0@),
                );
            assert(cs.drop_first()[j] == cs[j + 1]);
            assert((cs[j + 1].1).wf() && cs[j + 1].1.names_plain() && plain_name(cs[j + 1].0@));
            assert((cs[0].1).wf() && plain_name(cs[0].0@));
            if xp == yp {
                lemma_distinct_names_disjoint(p, cs[0].0@, cs[j + 1].0@, xp);
            }
        }
        vstd::seq_lib::lemma_no_dup_in_concat(entry_paths(a), entry_paths(rest));
        assert forall|k: int|
            0 <= k < entries_of_children(cs, p).len() implies exists|j: int|
            0 <= j < cs.len() && path_extends(
                (#[trigger] entries_of_children(cs, p)[k]).0,
                child_path(p, cs[j].0@),
            ) by {
            if k < a.len() {
                assert((a + rest)[k] == a[k]);
                assert(path_extends(entries_of_children(cs, p)[k].0, child_path(p, cs[0].0@)));
            } else {
                assert((a + rest)[k] == rest[k - a.len()]);
                let j = choose|j: int|
                    0 <= j < cs.drop_first().len() && path_extends(
                        rest[k - a.len()].0,
                        child_path(p, cs.drop_first()[j].0@),
                    );
                assert(cs.drop_first()[j] == cs[j + 1]);
                assert(path_extends(
                    entries_of_children(cs, p)[k].0,
                    child_path(p, cs[j + 1].0@),
                ));
            }
        }
    }
}

proof fn lemma_root_start_equivalent_children(
    cs: Seq<(String, FileSystemTree)>,
    p1: Seq<char>,
    p2: Seq<char>,
)
    requires
        is_root_chars(p1),
        is_root_chars(p2),
    ensures
        entries_of_children(cs, p1) == entries_of_children(cs, p2),
    decreases cs,
{
    if cs.len() > 0 {
        assert(child_path(p1, cs[0].0@) == child_path(p2, cs[0].0@));
        lemma_root_start_equivalent_children(cs.drop_first(), p1, p2);
    }
}

} // verus!
