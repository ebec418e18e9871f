//! File-system paths as text. Paths are composed and taken apart by the
//! standard library; this module gives the two operations the crate uses a
//! name, so that contracts can say which path a function returns.

use vstd::prelude::*;

verus! {

/// The path that `std::path::Path::join` makes of the path `base` and the
/// path `part`, as text.
pub uninterp spec fn joined_path(base: Seq<char>, part: Seq<char>) -> Seq<char>;

/// The path that `std::path::PathBuf::pop` leaves of `path`, as text: the
/// parent of `path`, or `path` itself where it has none.
pub uninterp spec fn parent_path(path: Seq<char>) -> Seq<char>;

/// `std::path::Path::join` on two paths given as text. The result is the
/// text of the joined path; which text that is, is left to the standard
/// library and named [`joined_path`].
#[verifier::external_body]
pub(crate) fn join_path(base: &str, part: &str) -> (r: String)
    ensures
        r@ == joined_path(base@, part@),
{
    std::path::Path::new(base).join(part).to_string_lossy().into_owned()
}

/// `std::path::PathBuf::pop` on a path given as text. The result is the text
/// of what `pop` leaves; which text that is, is left to the standard library
/// and named [`parent_path`].
#[verifier::external_body]
pub(crate) fn pop_path(path: &str) -> (r: String)
    ensures
        r@ == parent_path(path@),
{
    let mut buf = std::path::PathBuf::from(path);
    buf.pop();
    buf.to_string_lossy().into_owned()
}

} // verus!
