//! Which files and directories a transformer may touch.
//!
//! Hidden entries and build or metadata directories are never traversed,
//! and nothing inside `.git` is ever modified.

use vstd::prelude::*;
use crate::path::{components_of, path_components};
use crate::text::{chars_of, join, join_strings, str_eq, strings_view, texts, TextLike};

verus! {

/// Directory names that are never traversed: version-control metadata,
/// dependency trees, and build output.
pub const DEFAULT_SKIP_DIRS: [&'static str; 9] = [
    ".git",
    "node_modules",
    "target",
    "build",
    "dist",
    "vendor",
    "__pycache__",
    "venv",
    ".venv",
];

/// A hidden name (leading `.`) or one of `skip`.
pub open spec fn excluded_name(name: Seq<char>, skip: Seq<Seq<char>>) -> bool {
    (name.len() > 0 && name[0] == '.') || skip.contains(name)
}

/// A path component that names an entry, as opposed to the root, `.` or `..`.
pub open spec fn is_normal(c: Seq<char>) -> bool {
    c != seq!['/'] && c != seq!['.'] && c != seq!['.', '.']
}

/// Some named component of `p` is hidden or one of `skip`.
pub open spec fn excluded_path(p: Seq<char>, skip: Seq<Seq<char>>) -> bool {
    exists|k: int|
        0 <= k < components_of(p).len() && is_normal(#[trigger] components_of(p)[k])
            && excluded_name(components_of(p)[k], skip)
}

/// Some component of `p` is `.git`.
pub open spec fn git_path(p: Seq<char>) -> bool {
    exists|k: int| 0 <= k < components_of(p).len() && #[trigger] components_of(p)[k] == seq!['.', 'g', 'i', 't']
}

/// Whether `name` occurs in `list`.
pub fn contains_text<S: TextLike>(list: &[S], name: &str) -> (r: bool)
    ensures
        r == texts(list@).contains(name@),
{
    let mut i: usize = 0;
    while i < list.len()
        invariant
            i <= list@.len(),
            forall|j: int| 0 <= j < i ==> list@[j].text() != name@,
        decreases list.len() - i,
    {
        if str_eq(list[i].as_text(), name) {
            assert(texts(list@)[i as int] == name@);
            return true;
        }
        i += 1;
    }
    assert(!texts(list@).contains(name@)) by {
        if texts(list@).contains(name@) {
            let j = choose|j: int| 0 <= j < texts(list@).len() && texts(list@)[j] == name@;
            assert(list@[j].text() == name@);
        }
    }
    false
}

/// Returns true if `name` -- a single path component, not a whole path --
/// is a hidden entry or a skipped directory name.
pub fn is_excluded_component<S: TextLike>(name: &str, skip_dirs: &[S]) -> (r: bool)
    ensures
        r == excluded_name(name@, texts(skip_dirs@)),
{
    let chars = chars_of(name);
    let hidden = chars.len() > 0 && chars[0] == '.';
    hidden || contains_text(skip_dirs, name)
}

/// Whether a walk enters an entry called `name` (`None` when the name is
/// not valid Unicode) found at `depth`: the root is refused only when it is
/// a skipped directory, so a hidden root the user named is still walked;
/// below it, hidden entries and skipped directories are pruned.
pub fn include_entry<S: TextLike>(name: Option<&str>, depth: usize, skip_dirs: &[S]) -> (r: bool)
    ensures
        r == match name {
            None => false,
            Some(n) => if depth == 0 {
                !texts(skip_dirs@).contains(n@)
            } else {
                !excluded_name(n@, texts(skip_dirs@))
            },
        },
{
    match name {
        None => false,
        Some(n) => if depth == 0 {
            !contains_text(skip_dirs, n)
        } else {
            !is_excluded_component(n, skip_dirs)
        },
    }
}

/// Executable [`is_normal`].
fn is_normal_component(c: &str) -> (r: bool)
    ensures
        r == is_normal(c@),
{
    proof {
        reveal_strlit("/");
        reveal_strlit(".");
        reveal_strlit("..");
        assert("/"@ =~= seq!['/']);
        assert("."@ =~= seq!['.']);
        assert(".."@ =~= seq!['.', '.']);
    }
    !str_eq(c, "/") && !str_eq(c, ".") && !str_eq(c, "..")
}

/// Returns true if any *named* component of `path` is hidden or a skipped
/// directory. `.` and `..` are navigation, not names, so `./src/main.rs` is
/// not hidden.
pub fn is_excluded<S: TextLike>(path: &str, skip_dirs: &[S]) -> (r: bool)
    ensures
        r == excluded_path(path@, texts(skip_dirs@)),
{
    let comps = path_components(path);
    let ghost cs = components_of(path@);
    let mut i: usize = 0;
    while i < comps.len()
        invariant
            i <= comps@.len(),
            strings_view(comps@) == cs,
            forall|j: int|
                0 <= j < i ==> !(is_normal(#[trigger] cs[j]) && excluded_name(
                    cs[j],
                    texts(skip_dirs@),
                )),
            cs == components_of(path@),
        decreases comps.len() - i,
    {
        assert(cs[i as int] == comps@[i as int]@);
        if is_normal_component(comps[i].as_str()) && is_excluded_component(
            comps[i].as_str(),
            skip_dirs,
        ) {
            assert(is_normal(components_of(path@)[i as int]));
            return true;
        }
        i += 1;
    }
    false
}

/// Returns true if any component of `path` is `.git`. Such paths are never
/// modified, whatever the caller selected.
pub fn in_git_dir(path: &str) -> (r: bool)
    ensures
        r == git_path(path@),
{
    proof {
        reveal_strlit(".git");
        assert(".git"@ =~= seq!['.', 'g', 'i', 't']);
    }
    let comps = path_components(path);
    let ghost cs = components_of(path@);
    let mut i: usize = 0;
    while i < comps.len()
        invariant
            i <= comps@.len(),
            strings_view(comps@) == cs,
            forall|j: int| 0 <= j < i ==> #[trigger] cs[j] != seq!['.', 'g', 'i', 't'],
            ".git"@ == seq!['.', 'g', 'i', 't'],
            cs == components_of(path@),
        decreases comps.len() - i,
    {
        assert(cs[i as int] == comps@[i as int]@);
        if str_eq(comps[i].as_str(), ".git") {
            assert(components_of(path@)[i as int] == seq!['.', 'g', 'i', 't']);
            return true;
        }
        i += 1;
    }
    false
}

/// Renders `path` with `/` separators: its components joined by `/`.
/// Recorded paths are written into source files as references, where `\`
/// is wrong.
pub fn to_slash(path: &str) -> (r: String)
    ensures
        r@ == join(components_of(path@), seq!['/']),
{
    proof {
        reveal_strlit("/");
        assert("/"@ =~= seq!['/']);
    }
    let comps = path_components(path);
    join_strings(&comps, "/")
}

} // verus!
