//! The few facts about `std::path::Path` that the library relies on.
//!
//! Path parsing belongs to std; the library names its results and works
//! with them as strings.

use vstd::prelude::*;
use std::path::Path;
use crate::text::strings_view;

verus! {

/// What `Path::components` yields for `p`, each component as its string
/// (`"/"` for the root, `"."`, `".."`, or a name).
pub uninterp spec fn components_of(p: Seq<char>) -> Seq<Seq<char>>;

/// What `Path::file_name` returns for `p`.
pub uninterp spec fn file_name_of(p: Seq<char>) -> Option<Seq<char>>;

/// What `Path::extension` returns for `p`.
pub uninterp spec fn extension_of(p: Seq<char>) -> Option<Seq<char>>;

/// What `Path::parent` returns for `p`.
pub uninterp spec fn parent_of(p: Seq<char>) -> Option<Seq<char>>;

/// Calls `Path::components`; each component is converted to its string.
#[verifier::external_body]
pub(crate) fn path_components(p: &str) -> (r: Vec<String>)
    ensures
        strings_view(r@) == components_of(p@),
{
    Path::new(p).components().map(|c| c.as_os_str().to_string_lossy().into_owned()).collect()
}

/// Calls `Path::file_name`.
#[verifier::external_body]
pub(crate) fn path_file_name(p: &str) -> (r: Option<String>)
    ensures
        match r {
            Some(s) => file_name_of(p@) == Some(s@),
            None => file_name_of(p@) is None,
        },
{
    Path::new(p).file_name().map(|n| n.to_string_lossy().into_owned())
}

/// Calls `Path::extension`.
#[verifier::external_body]
pub(crate) fn path_extension(p: &str) -> (r: Option<String>)
    ensures
        match r {
            Some(s) => extension_of(p@) == Some(s@),
            None => extension_of(p@) is None,
        },
{
    Path::new(p).extension().map(|n| n.to_string_lossy().into_owned())
}

/// Calls `Path::parent`.
#[verifier::external_body]
pub(crate) fn path_parent(p: &str) -> (r: Option<String>)
    ensures
        match r {
            Some(s) => parent_of(p@) == Some(s@),
            None => parent_of(p@) is None,
        },
{
    Path::new(p).parent().map(|n| n.to_string_lossy().into_owned())
}

} // verus!

verus! {

/// What `Path::strip_prefix` returns for `p` without `base` (as a string),
/// `None` where `base` is not a prefix of `p`.
pub uninterp spec fn strip_prefix_of(p: Seq<char>, base: Seq<char>) -> Option<Seq<char>>;

/// Calls `Path::strip_prefix`; named [`strip_prefix_of`].
#[verifier::external_body]
pub(crate) fn path_strip_prefix(p: &str, base: &str) -> (r: Option<String>)
    ensures
        match r {
            Some(s) => strip_prefix_of(p@, base@) == Some(s@),
            None => strip_prefix_of(p@, base@) is None,
        },
{
    Path::new(p).strip_prefix(base).ok().map(|r| r.to_string_lossy().into_owned())
}

} // verus!

verus! {

/// What `Path`'s order (`<`, component by component) answers for `a` and
/// `b`.
pub uninterp spec fn path_before(a: Seq<char>, b: Seq<char>) -> bool;

/// Compares two paths with `Path`'s `<`; named [`path_before`].
#[verifier::external_body]
pub(crate) fn path_lt(a: &str, b: &str) -> (r: bool)
    ensures
        r == path_before(a@, b@),
{
    Path::new(a) < Path::new(b)
}

} // verus!
