//! The two path operations that chunk keys are built from, taken from
//! `std::path::Path`.
use vstd::prelude::*;

verus! {

/// The path without its final component, as `std::path::Path::parent` gives it.
pub uninterp spec fn parent_of(p: Seq<char>) -> Option<Seq<char>>;

/// The final component of a path, as `std::path::Path::file_name` gives it.
pub uninterp spec fn file_name_of(p: Seq<char>) -> Option<Seq<char>>;

/// How a path is shown by its `Debug` form: in double quotes, with quotes,
/// backslashes and control characters escaped.
pub uninterp spec fn debug_of(p: Seq<char>) -> Seq<char>;

/// The characters of an optional string.
pub open spec fn opt_view(o: Option<String>) -> Option<Seq<char>> {
    match o {
        Some(s) => Some(s@),
        None => None,
    }
}

/// Relies on `std::path::Path::parent`: the parent of a path depends on the
/// path's text alone. A parent is a leading part of the path, so it is valid
/// UTF-8 and the lossy conversion keeps it unchanged.
#[verifier::external_body]
pub(crate) fn path_parent(p: &str) -> (r: Option<String>)
    ensures
        opt_view(r) == parent_of(p@),
{
    match std::path::Path::new(p).parent() {
        Some(q) => Some(q.to_string_lossy().into_owned()),
        None => None,
    }
}

/// Relies on `std::path::Path::file_name`: the final component of a path
/// depends on the path's text alone. It is a part of the path, so it is valid
/// UTF-8 and the lossy conversion keeps it unchanged. A path with a file name
/// ends in a normal component, so it is neither empty nor a root or prefix,
/// and `Path::parent` gives it a parent.
#[verifier::external_body]
pub(crate) fn path_file_name(p: &str) -> (r: Option<String>)
    ensures
        opt_view(r) == file_name_of(p@),
        r is Some ==> parent_of(p@) is Some,
{
    match std::path::Path::new(p).file_name() {
        Some(n) => Some(n.to_string_lossy().into_owned()),
        None => None,
    }
}

/// Relies on the `Debug` impl of `std::path::Path`: the quoted, escaped form
/// of a path depends on the path's text alone.
#[verifier::external_body]
pub(crate) fn path_debug(p: &str) -> (r: String)
    ensures
        r@ == debug_of(p@),
{
    format!("{:?}", std::path::Path::new(p))
}

} // verus!
