//! Joining two path-like values into one owned path.

use vstd::prelude::*;
use vstd::string::StringExecFns;

verus! {

/// The characters of `a` joined to the characters of `b` with the `/`
/// separator in between.  This is what [`JoinPath::join`] computes for
/// every string-like path representation.
pub open spec fn join_chars(a: Seq<char>, b: Seq<char>) -> Seq<char> {
    a + seq!['/'] + b
}

/// A trait for joining two path-like values together.
///
/// This trait provides a unified interface for concatenating paths across
/// different path representations, returning an owned version of the
/// resulting path.  Ownership wrappers (`Box`, `Rc`, `Arc`) delegate to the
/// wrapped representation's join and re-wrap the result.
pub trait JoinPath: Sized {
    /// The mathematical value of this path: the sequence of its characters.
    spec fn path_chars(&self) -> Seq<char>;

    /// Joins two path components, returning an owned path whose characters
    /// are the two operands' characters separated by `/`.
    fn join(&self, other: &Self) -> (r: Self)
        ensures
            r.path_chars() == join_chars(self.path_chars(), other.path_chars()),
    ;
}

/// Joins two string slices with the `/` separator; the common core of the
/// string-like [`JoinPath`] implementations.
pub fn join_str(base: &str, child: &str) -> (r: String)
    ensures
        r@ == join_chars(base@, child@),
{
    proof {
        reveal_strlit("/");
    }
    let r = base.to_owned().concat("/").concat(child);
    proof {
        assert(r@ =~= join_chars(base@, child@));
    }
    r
}

impl JoinPath for String {
    open spec fn path_chars(&self) -> Seq<char> {
        self@
    }

    fn join(&self, other: &Self) -> (r: Self) {
        join_str(self.as_str(), other.as_str())
    }
}

impl<P: JoinPath> JoinPath for Box<P> {
    open spec fn path_chars(&self) -> Seq<char> {
        (**self).path_chars()
    }

    fn join(&self, other: &Self) -> (r: Self) {
        Box::new((**self).join(&**other))
    }
}

impl<P: JoinPath> JoinPath for std::rc::Rc<P> {
    open spec fn path_chars(&self) -> Seq<char> {
        (**self).path_chars()
    }

    fn join(&self, other: &Self) -> (r: Self) {
        std::rc::Rc::new((**self).join(&**other))
    }
}

impl<P: JoinPath> JoinPath for std::sync::Arc<P> {
    open spec fn path_chars(&self) -> Seq<char> {
        (**self).path_chars()
    }

    fn join(&self, other: &Self) -> (r: Self) {
        std::sync::Arc::new((**self).join(&**other))
    }
}

/// Joining is associative: grouping does not change the denoted path.
/// Accumulating a path top-down through nested directories therefore yields
/// the same final path regardless of how the joins are bracketed.
pub proof fn lemma_join_chars_associative(a: Seq<char>, b: Seq<char>, c: Seq<char>)
    ensures
        join_chars(join_chars(a, b), c) == join_chars(a, join_chars(b, c)),
{
    assert(join_chars(join_chars(a, b), c) =~= join_chars(a, join_chars(b, c)));
}

} // verus!
