//! File renaming: the name a file gets under a set of rename options.
//!
//! Deciding the new name is pure; performing the rename is left to the
//! caller.

use vstd::prelude::*;
use crate::whitespace::sat;
use crate::step::{default_skip_dirs, skipped_by_name};
use crate::path::file_name_of;
use crate::text::{
    all_ascii, ascii_lower, ascii_upper, char_to_uppercase, char_upper_of, chars_of, concat2, concat3, ends_with, has_prefix,
    has_suffix, lower_of, push_char, push_str, starts_with, str_eq, string_of, string_of_range,
    to_lowercase, to_uppercase, upper_of,
};
use crate::walk::{excluded_name, git_path, in_git_dir};

verus! {

/// Case transformation options.
#[derive(Debug, Clone, Copy, PartialEq, Eq, Structural)]
pub enum CaseTransform {
    /// Convert to lowercase
    Lowercase,
    /// Convert to UPPERCASE
    Uppercase,
    /// Capitalize first letter only
    Capitalize,
    /// No case transformation
    Keep,
}

/// Space replacement options.
#[derive(Debug, Clone, Copy, PartialEq, Eq, Structural)]
pub enum SpaceReplace {
    /// Replace spaces and hyphens with underscores
    Underscore,
    /// Replace spaces and underscores with hyphens
    Hyphen,
    /// No space replacement
    Keep,
}

/// Timestamp format options.
#[derive(Debug, Clone, Copy, PartialEq, Eq, Structural)]
pub enum TimestampFormat {
    /// YYYYMMDD format (e.g., 20250915)
    Long,
    /// YYMMDD format (e.g., 250915)
    Short,
    /// No timestamp
    Omit,
}

/// Options for file renaming.
#[derive(Debug, Clone)]
pub struct RenameOptions {
    /// Case transformation to apply
    pub case_transform: CaseTransform,
    /// Space replacement to apply
    pub space_replace: SpaceReplace,
    /// Prefix to add
    pub add_prefix: Option<String>,
    /// Prefix to remove
    pub remove_prefix: Option<String>,
    /// Suffix to add (before extension)
    pub add_suffix: Option<String>,
    /// Suffix to remove (before extension)
    pub remove_suffix: Option<String>,
    /// Replace prefix (old, new)
    pub replace_prefix: Option<(String, String)>,
    /// Replace suffix (old, new)
    pub replace_suffix: Option<(String, String)>,
    /// Timestamp format for prefix (based on file creation time)
    pub timestamp_format: TimestampFormat,
    /// Process directories recursively
    pub recursive: bool,
    /// Dry run mode (don't rename files)
    pub dry_run: bool,
    /// Include symbolic links in processing
    pub include_symlinks: bool,
}

impl Default for RenameOptions {
    fn default() -> (r: RenameOptions)
        ensures
            r.case_transform == CaseTransform::Keep,
            r.space_replace == SpaceReplace::Keep,
            r.add_prefix is None,
            r.remove_prefix is None,
            r.add_suffix is None,
            r.remove_suffix is None,
            r.replace_prefix is None,
            r.replace_suffix is None,
            r.timestamp_format == TimestampFormat::Omit,
            r.recursive,
            !r.dry_run,
            !r.include_symlinks,
    {
        RenameOptions {
            case_transform: CaseTransform::Keep,
            space_replace: SpaceReplace::Keep,
            add_prefix: None,
            remove_prefix: None,
            add_suffix: None,
            remove_suffix: None,
            replace_prefix: None,
            replace_suffix: None,
            timestamp_format: TimestampFormat::Omit,
            recursive: true,
            dry_run: false,
            include_symlinks: false,
        }
    }
}

/// Outcome of a rename run: failures are collected so that the run
/// completes and reports what it could not do.
#[derive(Debug, Clone, Default)]
pub struct RenameStats {
    /// Files successfully renamed
    pub renamed: usize,
    /// Files left alone because renaming them would have failed
    pub skipped: usize,
    /// One message per skipped file
    pub errors: Vec<String>,
}

impl RenameStats {
    /// Folds one file's outcome into the statistics: a rename counts as
    /// renamed, a failure (its message) as skipped, an untouched file as
    /// nothing.
    pub fn record(&mut self, outcome: Result<bool, String>)
        ensures
            match outcome {
                Ok(true) => final(self).renamed == sat((old(self).renamed + 1) as nat) && final(self).skipped
                    == old(self).skipped && final(self).errors@ == old(self).errors@,
                Ok(false) => *final(self) == *old(self),
                Err(m) => final(self).renamed == old(self).renamed && final(self).skipped
                    == sat((old(self).skipped + 1) as nat) && final(self).errors@ == old(self).errors@.push(m),
            },
    {
        match outcome {
            Ok(true) => self.renamed = self.renamed.saturating_add(1),
            Ok(false) => {},
            Err(m) => {
                self.errors.push(m);
                self.skipped = self.skipped.saturating_add(1);
            },
        }
    }
}

/// How often `c` occurs in `s`.
pub open spec fn count_char(s: Seq<char>, c: char) -> nat
    decreases s.len(),
{
    if s.len() == 0 {
        0
    } else {
        count_char(s.drop_last(), c) + if s.last() == c { 1nat } else { 0nat }
    }
}

/// The separator a name uses: `-` when it has spaces, otherwise the more
/// frequent of `-` and `_`, with `-` on a tie.
pub open spec fn detect_separator_spec(name: Seq<char>) -> char {
    if count_char(name, ' ') > 0 {
        '-'
    } else if count_char(name, '-') > count_char(name, '_') {
        '-'
    } else if count_char(name, '_') > count_char(name, '-') {
        '_'
    } else {
        '-'
    }
}

/// `s` with every character in `from` replaced by `to`.
pub open spec fn replace_chars(s: Seq<char>, a: char, b: char, to: char) -> Seq<char> {
    s.map_values(|c: char| if c == a || c == b { to } else { c })
}

/// The name after steps 1 to 4: prefix and suffix removal and replacement.
pub open spec fn affixed(o: RenameOptions, name: Seq<char>) -> Seq<char> {
    let r1 = match o.remove_prefix {
        Some(p) => if starts_with(name, p@) { name.skip(p@.len() as int) } else { name },
        None => name,
    };
    let r2 = match o.remove_suffix {
        Some(p) => if ends_with(r1, p@) { r1.take(r1.len() - p@.len()) } else { r1 },
        None => r1,
    };
    let r3 = match o.replace_prefix {
        Some((old, new)) => if starts_with(r2, old@) { new@ + r2.skip(old@.len() as int) } else { r2 },
        None => r2,
    };
    match o.replace_suffix {
        Some((old, new)) => if ends_with(r3, old@) { r3.take(r3.len() - old@.len()) + new@ } else { r3 },
        None => r3,
    }
}

/// The name after separator replacement (step 5).
pub open spec fn separated(o: RenameOptions, s: Seq<char>) -> Seq<char> {
    match o.space_replace {
        SpaceReplace::Underscore => replace_chars(s, ' ', '-', '_'),
        SpaceReplace::Hyphen => replace_chars(s, ' ', '_', '-'),
        SpaceReplace::Keep => s,
    }
}

/// The name after case transformation (step 6).
pub open spec fn cased(o: RenameOptions, s: Seq<char>) -> Seq<char> {
    match o.case_transform {
        CaseTransform::Lowercase => lower_of(s),
        CaseTransform::Uppercase => upper_of(s),
        CaseTransform::Capitalize => if s.len() == 0 {
            s
        } else {
            char_upper_of(s[0]) + lower_of(s.skip(1))
        },
        CaseTransform::Keep => s,
    }
}

/// Case transformation of an ASCII name, letter by letter: lowercase,
/// uppercase, or the first letter raised and the rest lowered.
pub open spec fn ascii_cased(t: CaseTransform, s: Seq<char>) -> Seq<char> {
    match t {
        CaseTransform::Lowercase => s.map_values(|c: char| ascii_lower(c)),
        CaseTransform::Uppercase => s.map_values(|c: char| ascii_upper(c)),
        CaseTransform::Capitalize => if s.len() == 0 {
            s
        } else {
            seq![ascii_upper(s[0])] + s.skip(1).map_values(|c: char| ascii_lower(c))
        },
        CaseTransform::Keep => s,
    }
}

/// The new file name: affixes removed or replaced, separators replaced,
/// case changed, then timestamp, added prefix and added suffix, and finally
/// the extension back after a dot.
pub open spec fn transform_name_spec(
    o: RenameOptions,
    name: Seq<char>,
    extension: Option<Seq<char>>,
    timestamp: Option<Seq<char>>,
) -> Seq<char> {
    let r6 = cased(o, separated(o, affixed(o, name)));
    let r7 = match timestamp {
        Some(t) => t + r6,
        None => r6,
    };
    let r8 = match o.add_prefix {
        Some(p) => p@ + r7,
        None => r7,
    };
    let r9 = match o.add_suffix {
        Some(p) => r8 + p@,
        None => r8,
    };
    match extension {
        Some(e) => r9 + seq!['.'] + e,
        None => r9,
    }
}

/// The position of the last `.` in `s`, if any.
pub open spec fn last_dot(s: Seq<char>) -> Option<int>
    decreases s.len(),
{
    if s.len() == 0 {
        None
    } else if s.last() == '.' {
        Some(s.len() - 1)
    } else {
        last_dot(s.drop_last())
    }
}

proof fn lemma_last_dot(s: Seq<char>)
    ensures
        last_dot(s) matches Some(i) ==> 0 <= i < s.len() && s[i] == '.',
    decreases s.len(),
{
    if s.len() > 0 && s.last() != '.' {
        lemma_last_dot(s.drop_last());
    }
}

/// A file name split at its last dot into stem and extension.
pub open spec fn split_ext(f: Seq<char>) -> (Seq<char>, Option<Seq<char>>) {
    match last_dot(f) {
        Some(i) => (f.take(i), Some(f.skip(i + 1))),
        None => (f, None),
    }
}

/// The name a file called `file_name` gets, when it changes: the stem is
/// transformed as [`transform_name_spec`] says, with the timestamp `date`
/// (when the options ask for one) followed by the separator the stem uses.
pub open spec fn planned_name_spec(o: RenameOptions, file_name: Seq<char>, date: Option<Seq<char>>) -> Option<Seq<char>> {
    let (name, ext) = split_ext(file_name);
    let ts = match o.timestamp_format {
        TimestampFormat::Omit => None,
        _ => match date {
            Some(d) => Some(d.push(detect_separator_spec(name))),
            None => None,
        },
    };
    let new_name = transform_name_spec(o, name, ext, ts);
    if new_name == file_name {
        None
    } else {
        Some(new_name)
    }
}

/// Whether a path may be renamed: a symbolic link only when links are
/// included, otherwise only a regular file; never anything inside `.git`;
/// and, when `skip_hidden`, not a hidden or build-directory name.
pub open spec fn should_process_spec(o: RenameOptions, path: Seq<char>, is_symlink: bool, is_file: bool, skip_hidden: bool) -> bool {
    &&& !(is_symlink && !o.include_symlinks)
    &&& (is_symlink || is_file)
    &&& !git_path(path)
    &&& !(skip_hidden && match file_name_of(path) {
        Some(n) => excluded_name(n, default_skip_dirs()),
        None => true,
    })
}

/// `s` with each `a` or `b` replaced by `to`.
fn replace_chars_vec(s: &Vec<char>, a: char, b: char, to: char) -> (r: Vec<char>)
    ensures
        r@ == replace_chars(s@, a, b, to),
{
    let mut out: Vec<char> = Vec::new();
    let mut i: usize = 0;
    while i < s.len()
        invariant
            i <= s@.len(),
            out@ == replace_chars(s@.take(i as int), a, b, to),
        decreases s.len() - i,
    {
        let c = s[i];
        out.push(if c == a || c == b { to } else { c });
        assert(out@ =~= replace_chars(s@.take(i + 1), a, b, to));
        i += 1;
    }
    assert(s@.take(s@.len() as int) == s@);
    out
}

/// File renamer for transforming file names.
pub struct FileRenamer {
    options: RenameOptions,
}

impl View for FileRenamer {
    type V = RenameOptions;

    closed spec fn view(&self) -> RenameOptions {
        self.options
    }
}

impl FileRenamer {
    /// Creates a new file renamer with the given options.
    pub fn new(options: RenameOptions) -> (r: FileRenamer)
        ensures
            r@ == options,
    {
        FileRenamer { options }
    }

    /// Creates a renamer with default options, which change no name.
    pub fn with_defaults() -> (r: FileRenamer)
        ensures
            r@.case_transform == CaseTransform::Keep,
            r@.space_replace == SpaceReplace::Keep,
            r@.add_prefix is None,
            r@.remove_prefix is None,
            r@.add_suffix is None,
            r@.remove_suffix is None,
            r@.replace_prefix is None,
            r@.replace_suffix is None,
            r@.timestamp_format == TimestampFormat::Omit,
            r@.recursive,
            !r@.dry_run,
            !r@.include_symlinks,
    {
        FileRenamer { options: RenameOptions::default() }
    }

    /// The options this renamer was made with.
    pub fn options(&self) -> (r: &RenameOptions)
        ensures
            *r == self@,
    {
        &self.options
    }

    /// Whether `path` may be renamed. `is_symlink` and `is_file` describe
    /// what is on disk at `path`.
    pub fn should_process(&self, path: &str, is_symlink: bool, is_file: bool, skip_hidden: bool) -> (r: bool)
        ensures
            r == should_process_spec(self@, path@, is_symlink, is_file, skip_hidden),
    {
        if is_symlink && !self.options.include_symlinks {
            return false;
        }
        if !is_symlink && !is_file {
            return false;
        }
        if in_git_dir(path) {
            return false;
        }
        if skip_hidden && skipped_by_name(path) {
            return false;
        }
        true
    }

    /// Detects the separator style used in a file name: `-` for hyphenated
    /// or space-separated names, `_` for underscored ones, `-` by default.
    pub fn detect_separator(name: &str) -> (r: char)
        ensures
            r == detect_separator_spec(name@),
    {
        let c = chars_of(name);
        let mut hyphens: usize = 0;
        let mut underscores: usize = 0;
        let mut spaces: usize = 0;
        let mut i: usize = 0;
        while i < c.len()
            invariant
                i <= c@.len(),
                hyphens == count_char(c@.take(i as int), '-'),
                underscores == count_char(c@.take(i as int), '_'),
                spaces == count_char(c@.take(i as int), ' '),
                hyphens <= i && underscores <= i && spaces <= i,
            decreases c.len() - i,
        {
            assert(c@.take(i + 1).drop_last() == c@.take(i as int));
            assert(c@.take(i + 1).last() == c@[i as int]);
            if c[i] == '-' {
                hyphens += 1;
            } else if c[i] == '_' {
                underscores += 1;
            } else if c[i] == ' ' {
                spaces += 1;
            }
            i += 1;
        }
        assert(c@.take(c@.len() as int) == c@);
        if spaces > 0 {
            '-'
        } else if hyphens > underscores {
            '-'
        } else if underscores > hyphens {
            '_'
        } else {
            '-'
        }
    }

    /// Applies all transformations to a file name stem: (1) remove prefix,
    /// (2) remove suffix, (3) replace prefix, (4) replace suffix, (5)
    /// replace separators, (6) change case, (7) add timestamp, (8) add
    /// prefix, (9) add suffix, (10) put the extension back.
    pub fn transform_name(&self, name: &str, extension: Option<&str>, timestamp: Option<String>) -> (r: String)
        ensures
            r@ == transform_name_spec(
                self@,
                name@,
                match extension {
                    Some(e) => Some(e@),
                    None => None,
                },
                match timestamp {
                    Some(t) => Some(t@),
                    None => None,
                },
            ),
            all_ascii(separated(self@, affixed(self@, name@))) ==> cased(
                self@,
                separated(self@, affixed(self@, name@)),
            ) == ascii_cased(self@.case_transform, separated(self@, affixed(self@, name@))),
    {
        let o = &self.options;
        let mut r = chars_of(name);
        match &o.remove_prefix {
            Some(p) => {
                let pc = chars_of(p.as_str());
                if has_prefix(&r, &pc) {
                    let n = r.len();
                    r = chars_of(string_of_range(&r, pc.len(), n).as_str());
                }
            },
            None => {},
        }
        match &o.remove_suffix {
            Some(p) => {
                let pc = chars_of(p.as_str());
                if has_suffix(&r, &pc) {
                    let n = r.len();
                    r = chars_of(string_of_range(&r, 0, n - pc.len()).as_str());
                }
            },
            None => {},
        }
        match &o.replace_prefix {
            Some((old, new)) => {
                let pc = chars_of(old.as_str());
                if has_prefix(&r, &pc) {
                    let n = r.len();
                    let tail = string_of_range(&r, pc.len(), n);
                    r = chars_of(concat2(new.as_str(), tail.as_str()).as_str());
                }
            },
            None => {},
        }
        match &o.replace_suffix {
            Some((old, new)) => {
                let pc = chars_of(old.as_str());
                if has_suffix(&r, &pc) {
                    let n = r.len();
                    let head = string_of_range(&r, 0, n - pc.len());
                    r = chars_of(concat2(head.as_str(), new.as_str()).as_str());
                }
            },
            None => {},
        }
        assert(r@ == affixed(*o, name@));
        match o.space_replace {
            SpaceReplace::Underscore => {
                r = replace_chars_vec(&r, ' ', '-', '_');
            },
            SpaceReplace::Hyphen => {
                r = replace_chars_vec(&r, ' ', '_', '-');
            },
            SpaceReplace::Keep => {},
        }
        let sep = string_of(&r);
        let mut result: String = match o.case_transform {
            CaseTransform::Lowercase => to_lowercase(sep.as_str()),
            CaseTransform::Uppercase => to_uppercase(sep.as_str()),
            CaseTransform::Capitalize => {
                if r.len() == 0 {
                    sep
                } else {
                    let first = char_to_uppercase(r[0]);
                    let mut out = string_of(&first);
                    let rest = string_of_range(&r, 1, r.len());
                    let low = to_lowercase(rest.as_str());
                    push_str(&mut out, low.as_str());
                    assert(r@.subrange(1, r@.len() as int) == r@.skip(1));
                    out
                }
            },
            CaseTransform::Keep => sep,
        };
        match timestamp {
            Some(ts) => {
                result = concat2(ts.as_str(), result.as_str());
            },
            None => {},
        }
        match &o.add_prefix {
            Some(p) => {
                result = concat2(p.as_str(), result.as_str());
            },
            None => {},
        }
        match &o.add_suffix {
            Some(p) => {
                push_str(&mut result, p.as_str());
            },
            None => {},
        }
        match extension {
            Some(e) => {
                proof {
                    reveal_strlit(".");
                    assert("."@ =~= seq!['.']);
                }
                push_str(&mut result, ".");
                push_str(&mut result, e);
            },
            None => {},
        }
        result
    }

    /// The new name for a file called `file_name`, or `None` when the
    /// options leave it unchanged. `date` is the file's date as the
    /// timestamp options render it (e.g. `20250915`); it is used only when
    /// a timestamp is requested.
    pub fn planned_name(&self, file_name: &str, date: Option<String>) -> (r: Option<String>)
        ensures
            match r {
                Some(n) => planned_name_spec(
                    self@,
                    file_name@,
                    match date {
                        Some(d) => Some(d@),
                        None => None,
                    },
                ) == Some(n@),
                None => planned_name_spec(
                    self@,
                    file_name@,
                    match date {
                        Some(d) => Some(d@),
                        None => None,
                    },
                ) is None,
            },
    {
        let f = chars_of(file_name);
        let mut k: usize = f.len();
        while k > 0 && f[k - 1] != '.'
            invariant
                k <= f@.len(),
                forall|j: int| k <= j < f@.len() ==> f@[j] != '.',
            decreases k,
        {
            k -= 1;
        }
        proof {
            lemma_last_dot_at(f@, k as int);
        }
        let (name, ext): (String, Option<String>) = if k == 0 {
            assert(f@.subrange(0, f@.len() as int) == f@);
            (string_of(&f), None)
        } else {
            assert(f@.subrange(0, k - 1) == f@.take(k - 1));
            assert(f@.subrange(k as int, f@.len() as int) == f@.skip(k as int));
            (string_of_range(&f, 0, k - 1), Some(string_of_range(&f, k, f.len())))
        };
        let sep = Self::detect_separator(name.as_str());
        let ts: Option<String> = match self.options.timestamp_format {
            TimestampFormat::Omit => None,
            _ => match date {
                Some(d) => {
                    let mut t = d;
                    push_char(&mut t, sep);
                    Some(t)
                },
                None => None,
            },
        };
        let new_name = match &ext {
            Some(e) => self.transform_name(name.as_str(), Some(e.as_str()), ts),
            None => self.transform_name(name.as_str(), None, ts),
        };
        if str_eq(new_name.as_str(), file_name) {
            None
        } else {
            Some(new_name)
        }
    }
}

/// The last dot of `s` is just before index `k`, or there is none when `k`
/// is zero.
proof fn lemma_last_dot_at(s: Seq<char>, k: int)
    requires
        0 <= k <= s.len(),
        forall|j: int| k <= j < s.len() ==> s[j] != '.',
        k == 0 || s[k - 1] == '.',
    ensures
        last_dot(s) == if k == 0 { None } else { Some(k - 1) },
    decreases s.len(),
{
    if s.len() > 0 && s.len() > k {
        let t = s.drop_last();
        assert forall|j: int| k <= j < t.len() implies t[j] != '.' by {
            assert(t[j] == s[j]);
        }
        if k > 0 {
            assert(t[k - 1] == s[k - 1]);
        }
        assert(s.last() == s[s.len() - 1]);
        lemma_last_dot_at(t, k);
    }
}

} // verus!

verus! {

/// With separators replaced by underscores, and no case change, timestamp
/// or added affix, the new name is the name after its affixes are
/// removed or replaced, with every space and every hyphen turned into an
/// underscore and every other character kept; so it holds no space and no
/// hyphen.
pub proof fn lemma_underscores_replace_spaces_and_hyphens(o: RenameOptions, name: Seq<char>)
    requires
        o.space_replace == SpaceReplace::Underscore,
        o.case_transform == CaseTransform::Keep,
        o.add_prefix is None,
        o.add_suffix is None,
    ensures
        ({
            let before = affixed(o, name);
            let after = transform_name_spec(o, name, None, None);
            &&& after.len() == before.len()
            &&& forall|j: int| 0 <= j < after.len() ==> #[trigger] after[j] != ' ' && after[j] != '-'
            &&& forall|j: int|
                0 <= j < after.len() ==> #[trigger] after[j] == if before[j] == ' ' || before[j]
                    == '-' {
                    '_'
                } else {
                    before[j]
                }
        }),
{
}

/// With separators replaced by hyphens, and no case change, timestamp or
/// added affix, the new name is the name after its affixes are removed or
/// replaced, with every space and every underscore turned into a hyphen
/// and every other character kept; so it holds no space and no
/// underscore.
pub proof fn lemma_hyphens_replace_spaces_and_underscores(o: RenameOptions, name: Seq<char>)
    requires
        o.space_replace == SpaceReplace::Hyphen,
        o.case_transform == CaseTransform::Keep,
        o.add_prefix is None,
        o.add_suffix is None,
    ensures
        ({
            let before = affixed(o, name);
            let after = transform_name_spec(o, name, None, None);
            &&& after.len() == before.len()
            &&& forall|j: int| 0 <= j < after.len() ==> #[trigger] after[j] != ' ' && after[j] != '_'
            &&& forall|j: int|
                0 <= j < after.len() ==> #[trigger] after[j] == if before[j] == ' ' || before[j]
                    == '_' {
                    '-'
                } else {
                    before[j]
                }
        }),
{
}


/// The text an optional string stands for: itself, or nothing.
pub open spec fn or_empty(p: Option<String>) -> Seq<char> {
    match p {
        Some(t) => t@,
        None => seq![],
    }
}

/// With no affix option, no separator replacement and no case change, a
/// name keeps its stem.
pub proof fn lemma_plain_options_keep_name(o: RenameOptions, name: Seq<char>)
    requires
        o.space_replace == SpaceReplace::Keep,
        o.case_transform == CaseTransform::Keep,
        o.remove_prefix is None,
        o.remove_suffix is None,
        o.replace_prefix is None,
        o.replace_suffix is None,
        o.add_prefix is None,
        o.add_suffix is None,
    ensures
        transform_name_spec(o, name, None, None) == name,
{
}

/// The extension comes back after the transformed stem, behind a dot, and
/// takes no part in the transformation.
pub proof fn lemma_extension_follows(o: RenameOptions, name: Seq<char>, ext: Seq<char>, timestamp: Option<Seq<char>>)
    ensures
        transform_name_spec(o, name, Some(ext), timestamp) == transform_name_spec(o, name, None, timestamp)
            + seq!['.'] + ext,
{
}

/// Removing a prefix and a suffix: a stem made of the prefix to remove,
/// any text, and the suffix to remove becomes that text.
pub proof fn lemma_removed_affixes(o: RenameOptions, rest: Seq<char>)
    requires
        o.space_replace == SpaceReplace::Keep,
        o.case_transform == CaseTransform::Keep,
        o.replace_prefix is None,
        o.replace_suffix is None,
        o.add_prefix is None,
        o.add_suffix is None,
    ensures
        transform_name_spec(o, or_empty(o.remove_prefix) + rest + or_empty(o.remove_suffix), None, None)
            == rest,
{
    let p = or_empty(o.remove_prefix);
    let q = or_empty(o.remove_suffix);
    let name = p + rest + q;
    assert(name.take(p.len() as int) =~= p);
    assert(name.skip(p.len() as int) =~= rest + q);
    let r1 = rest + q;
    assert(r1.skip(r1.len() - q.len()) =~= q);
    assert(r1.take(r1.len() - q.len()) =~= rest);
    if o.remove_prefix is None {
        assert(name =~= rest + q);
    }
    if o.remove_suffix is None {
        assert(r1 =~= rest);
    }
    assert(affixed(o, name) == rest);
}

/// Replacing a prefix and a suffix: a stem made of the old prefix, any
/// text, and the old suffix becomes the new prefix, that text, and the new
/// suffix.
pub proof fn lemma_replaced_affixes(o: RenameOptions, rest: Seq<char>)
    requires
        o.space_replace == SpaceReplace::Keep,
        o.case_transform == CaseTransform::Keep,
        o.remove_prefix is None,
        o.remove_suffix is None,
        o.add_prefix is None,
        o.add_suffix is None,
    ensures
        ({
            let (a, b) = match o.replace_prefix {
                Some((x, y)) => (x@, y@),
                None => (seq![], seq![]),
            };
            let (c, d) = match o.replace_suffix {
                Some((x, y)) => (x@, y@),
                None => (seq![], seq![]),
            };
            transform_name_spec(o, a + rest + c, None, None) == b + rest + d
        }),
{
    let (a, b) = match o.replace_prefix {
        Some((x, y)) => (x@, y@),
        None => (seq![], seq![]),
    };
    let (c, d) = match o.replace_suffix {
        Some((x, y)) => (x@, y@),
        None => (seq![], seq![]),
    };
    let name = a + rest + c;
    assert(name.take(a.len() as int) =~= a);
    assert(name.skip(a.len() as int) =~= rest + c);
    let r3 = b + rest + c;
    assert(r3.skip(r3.len() - c.len()) =~= c);
    assert(r3.take(r3.len() - c.len()) =~= b + rest);
    if o.replace_prefix is None {
        assert(name =~= r3);
    } else {
        assert(starts_with(name, a));
        assert(b + name.skip(a.len() as int) =~= r3);
    }
    if o.replace_suffix is None {
        assert(r3 =~= b + rest + d);
    } else {
        assert(ends_with(r3, c));
        assert(r3.take(r3.len() - c.len()) + d =~= b + rest + d);
    }
    assert(affixed(o, name) =~= b + rest + d);
}

/// Added affixes and the timestamp: the new stem is the prefix to add,
/// the timestamp, the stem, and the suffix to add, in that order.
pub proof fn lemma_added_affixes(o: RenameOptions, name: Seq<char>, timestamp: Option<Seq<char>>)
    requires
        o.space_replace == SpaceReplace::Keep,
        o.case_transform == CaseTransform::Keep,
        o.remove_prefix is None,
        o.remove_suffix is None,
        o.replace_prefix is None,
        o.replace_suffix is None,
    ensures
        transform_name_spec(o, name, None, timestamp) == or_empty(o.add_prefix) + match timestamp {
            Some(t) => t,
            None => seq![],
        } + name + or_empty(o.add_suffix),
{
    let t = match timestamp {
        Some(t) => t,
        None => seq![],
    };
    assert(transform_name_spec(o, name, None, timestamp) =~= or_empty(o.add_prefix) + t + name
        + or_empty(o.add_suffix));
}


/// A file name splits at its last dot: what follows it, holding no dot, is
/// the extension and everything before it, dots included, the stem; a name
/// without a dot is all stem.
pub proof fn lemma_split_at_last_dot(stem: Seq<char>, ext: Seq<char>)
    requires
        forall|j: int| 0 <= j < ext.len() ==> ext[j] != '.',
    ensures
        split_ext(stem + seq!['.'] + ext) == (stem, Some(ext)),
        (forall|j: int| 0 <= j < stem.len() ==> stem[j] != '.') ==> split_ext(stem) == (stem, None::<
            Seq<char>,
        >),
{
    let f = stem + seq!['.'] + ext;
    let k: int = stem.len() as int + 1;
    assert forall|j: int| k <= j < f.len() implies f[j] != '.' by {
        assert(f[j] == ext[j - k]);
    }
    assert(f[k - 1] == '.');
    lemma_last_dot_at(f, k);
    assert(f.take(k - 1) =~= stem);
    assert(f.skip(k) =~= ext);
    if forall|j: int| 0 <= j < stem.len() ==> stem[j] != '.' {
        lemma_last_dot_at(stem, 0);
    }
}

} // verus!
