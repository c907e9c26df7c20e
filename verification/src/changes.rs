//! The record of what a restructuring run did (directories created, files
//! moved or renamed), kept so that references to the old paths can be
//! repaired afterwards.

use vstd::prelude::*;
use crate::text::{owned, push_char, chars_of};

verus! {

/// `p` with every `\` turned into `/`.
pub open spec fn slashed(p: Seq<char>) -> Seq<char> {
    p.map_values(|c: char| if c == '\\' { '/' } else { c })
}

/// The platform's main path separator (`std::path::MAIN_SEPARATOR`).
#[verifier::external_body]
pub(crate) fn main_separator() -> char {
    std::path::MAIN_SEPARATOR
}

/// `path` with every `\` turned into `/`.
pub(crate) fn slash_all(path: &str) -> (r: String)
    ensures
        r@ == slashed(path@),
{
    let cs = chars_of(path);
    let mut out = String::new();
    let mut i: usize = 0;
    while i < cs.len()
        invariant
            i <= cs@.len(),
            cs@ == path@,
            out@ == slashed(cs@.take(i as int)),
        decreases cs.len() - i,
    {
        let c = cs[i];
        push_char(&mut out, if c == '\\' { '/' } else { c });
        assert(slashed(cs@.take(i + 1)) =~= slashed(cs@.take(i as int)).push(
            if c == '\\' { '/' } else { c },
        ));
        i += 1;
    }
    assert(cs@.take(cs@.len() as int) == cs@);
    out
}

/// Renders `path` with `/` separators. Recorded paths are written into
/// source files as references, where a Windows `\` separator is wrong;
/// elsewhere `\` is an ordinary file-name character and is kept.
pub fn to_slash(path: &str) -> (r: String)
    ensures
        r@ == path@ || r@ == slashed(path@),
        !path@.contains('\\') ==> r@ == path@,
{
    if main_separator() != '\\' {
        return owned(path);
    }
    let out = slash_all(path);
    proof {
        if !path@.contains('\\') {
            assert forall|j: int| 0 <= j < path@.len() implies slashed(path@)[j] == path@[j] by {
                if path@[j] == '\\' {
                    assert(path@.contains('\\'));
                }
            }
            assert(slashed(path@) =~= path@);
        }
    }
    out
}

/// One change made by a restructuring run.
#[derive(Debug, Clone)]
pub enum Change {
    /// A directory was created
    DirectoryCreated {
        /// Path to the created directory (relative to the base directory)
        path: String,
    },
    /// A file was moved (and optionally renamed)
    FileMoved {
        /// Original path (relative to the base directory)
        from: String,
        /// New path (relative to the base directory)
        to: String,
    },
    /// A file was renamed in place
    FileRenamed {
        /// Original file name
        from: String,
        /// New file name
        to: String,
        /// Directory containing the file
        directory: String,
    },
}

/// A change, by the characters of its paths.
pub ghost enum ChangeView {
    DirectoryCreated { path: Seq<char> },
    FileMoved { from: Seq<char>, to: Seq<char> },
    FileRenamed { from: Seq<char>, to: Seq<char>, directory: Seq<char> },
}

impl View for Change {
    type V = ChangeView;

    open spec fn view(&self) -> ChangeView {
        match self {
            Change::DirectoryCreated { path } => ChangeView::DirectoryCreated { path: path@ },
            Change::FileMoved { from, to } => ChangeView::FileMoved { from: from@, to: to@ },
            Change::FileRenamed { from, to, directory } => ChangeView::FileRenamed {
                from: from@,
                to: to@,
                directory: directory@,
            },
        }
    }
}

/// The changes of a list, by their views.
pub open spec fn change_views(s: Seq<Change>) -> Seq<ChangeView> {
    s.map_values(|c: Change| c@)
}

/// The moves among `s`, in order, as (from, to) pairs.
pub open spec fn moves_of(s: Seq<ChangeView>) -> Seq<(Seq<char>, Seq<char>)>
    decreases s.len(),
{
    if s.len() == 0 {
        seq![]
    } else {
        let rest = moves_of(s.drop_last());
        match s.last() {
            ChangeView::FileMoved { from, to } => rest.push((from, to)),
            _ => rest,
        }
    }
}

/// The current time in UTC, in RFC 3339 form, from `chrono::Utc::now()`
/// and `DateTime::to_rfc3339`. The clock decides the value, so nothing is
/// stated of it.
#[verifier::external_body]
pub(crate) fn utc_now_rfc3339() -> String {
    chrono::Utc::now().to_rfc3339()
}

/// Record of all changes from a restructuring run.
#[derive(Debug, Clone)]
pub struct ChangeRecord {
    /// Name of the operation (e.g., "group", "rename_files")
    pub operation: String,
    /// RFC 3339 timestamp of when the operation occurred
    pub timestamp: String,
    /// Base directory where the operation was performed
    pub base_dir: String,
    /// Options used for the operation, as JSON text
    pub options: Option<String>,
    /// List of changes made
    pub changes: Vec<Change>,
}

impl ChangeRecord {
    /// Creates an empty record for `operation` run in `base_dir`, stamped
    /// with the current time.
    pub fn new(operation: &str, base_dir: &str) -> (r: ChangeRecord)
        ensures
            r.operation@ == operation@,
            r.base_dir@ == base_dir@,
            r.options is None,
            r.changes@.len() == 0,
    {
        ChangeRecord {
            operation: owned(operation),
            timestamp: utc_now_rfc3339(),
            base_dir: owned(base_dir),
            options: None,
            changes: Vec::new(),
        }
    }

    /// Attaches the options the operation ran with (their JSON text; `None`
    /// where they could not be rendered).
    pub fn with_options(self, options: Option<String>) -> (r: ChangeRecord)
        ensures
            r.options == options,
            r.operation == self.operation,
            r.timestamp == self.timestamp,
            r.base_dir == self.base_dir,
            r.changes@ == self.changes@,
    {
        let mut r = self;
        r.options = options;
        r
    }

    /// Adds a directory creation, stored with `/` separators.
    pub fn add_directory_created(&mut self, path: &str)
        ensures
            final(self).operation == old(self).operation,
            final(self).timestamp == old(self).timestamp,
            final(self).base_dir == old(self).base_dir,
            final(self).options == old(self).options,
            final(self).changes@.len() == old(self).changes@.len() + 1,
            final(self).changes@.take(old(self).changes@.len() as int) == old(self).changes@,
            final(self).changes@.last() matches Change::DirectoryCreated { path: p } && (p@
                == path@ || p@ == slashed(path@)),
            !path@.contains('\\') ==> change_views(final(self).changes@) == change_views(
                old(self).changes@,
            ).push(ChangeView::DirectoryCreated { path: path@ }),
    {
        let p = to_slash(path);
        self.changes.push(Change::DirectoryCreated { path: p });
        proof {
            assert(final(self).changes@.take(old(self).changes@.len() as int) =~= old(self).changes@);
            assert(change_views(self.changes@) =~= change_views(old(self).changes@).push(
                self.changes@.last()@,
            ));
        }
    }

    /// Adds a file move, stored with `/` separators.
    pub fn add_file_moved(&mut self, from: &str, to: &str)
        ensures
            final(self).operation == old(self).operation,
            final(self).timestamp == old(self).timestamp,
            final(self).base_dir == old(self).base_dir,
            final(self).options == old(self).options,
            final(self).changes@.len() == old(self).changes@.len() + 1,
            final(self).changes@.take(old(self).changes@.len() as int) == old(self).changes@,
            final(self).changes@.last() matches Change::FileMoved { from: f, to: t } && (f@
                == from@ || f@ == slashed(from@)) && (t@ == to@ || t@ == slashed(to@)),
            !from@.contains('\\') && !to@.contains('\\') ==> change_views(final(self).changes@)
                == change_views(old(self).changes@).push(
                ChangeView::FileMoved { from: from@, to: to@ },
            ),
    {
        let f = to_slash(from);
        let t = to_slash(to);
        self.changes.push(Change::FileMoved { from: f, to: t });
        proof {
            assert(final(self).changes@.take(old(self).changes@.len() as int) =~= old(self).changes@);
            assert(change_views(self.changes@) =~= change_views(old(self).changes@).push(
                self.changes@.last()@,
            ));
        }
    }

    /// Adds an in-place rename, stored with `/` separators.
    pub fn add_file_renamed(&mut self, from: &str, to: &str, directory: &str)
        ensures
            final(self).operation == old(self).operation,
            final(self).timestamp == old(self).timestamp,
            final(self).base_dir == old(self).base_dir,
            final(self).options == old(self).options,
            final(self).changes@.len() == old(self).changes@.len() + 1,
            final(self).changes@.take(old(self).changes@.len() as int) == old(self).changes@,
            final(self).changes@.last() matches Change::FileRenamed { from: f, to: t, directory: d }
                && (f@ == from@ || f@ == slashed(from@)) && (t@ == to@ || t@ == slashed(to@)) && (
            d@ == directory@ || d@ == slashed(directory@)),
            !from@.contains('\\') && !to@.contains('\\') && !directory@.contains('\\')
                ==> change_views(final(self).changes@) == change_views(old(self).changes@).push(
                ChangeView::FileRenamed { from: from@, to: to@, directory: directory@ },
            ),
    {
        let f = to_slash(from);
        let t = to_slash(to);
        let d = to_slash(directory);
        self.changes.push(Change::FileRenamed { from: f, to: t, directory: d });
        proof {
            assert(final(self).changes@.take(old(self).changes@.len() as int) =~= old(self).changes@);
            assert(change_views(self.changes@) =~= change_views(old(self).changes@).push(
                self.changes@.last()@,
            ));
        }
    }

    /// Returns true if there are no changes recorded.
    pub fn is_empty(&self) -> (r: bool)
        ensures
            r == (self.changes@.len() == 0),
    {
        self.changes.len() == 0
    }

    /// Returns the number of changes.
    pub fn len(&self) -> (r: usize)
        ensures
            r == self.changes@.len(),
    {
        self.changes.len()
    }

    /// Returns only the file moves, in order.
    pub fn file_moves(&self) -> (r: Vec<(&str, &str)>)
        ensures
            r@.map_values(|m: (&str, &str)| (m.0@, m.1@)) == moves_of(change_views(self.changes@)),
    {
        let mut out: Vec<(&str, &str)> = Vec::new();
        let mut i: usize = 0;
        while i < self.changes.len()
            invariant
                i <= self.changes@.len(),
                out@.map_values(|m: (&str, &str)| (m.0@, m.1@)) == moves_of(
                    change_views(self.changes@.take(i as int)),
                ),
            decreases self.changes.len() - i,
        {
            let ghost before = change_views(self.changes@.take(i as int));
            let ghost after = change_views(self.changes@.take(i + 1));
            assert(after.drop_last() =~= before);
            assert(after.last() == self.changes@[i as int]@);
            let ghost old_out = out@;
            match &self.changes[i] {
                Change::FileMoved { from, to } => {
                    out.push((from.as_str(), to.as_str()));
                    assert(out@.map_values(|m: (&str, &str)| (m.0@, m.1@)) =~= old_out.map_values(
                        |m: (&str, &str)| (m.0@, m.1@),
                    ).push((from@, to@)));
                },
                _ => {},
            }
            i += 1;
        }
        assert(self.changes@.take(self.changes@.len() as int) == self.changes@);
        out
    }
}

} // verus!
