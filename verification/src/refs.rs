//! Finding and repairing references to files that a grouping or renaming
//! run moved.
//!
//! Scanning reports each standalone occurrence of an old file name (or old
//! path) with its position; applying edits exactly those positions, after
//! checking that the recorded text is still there, so that a stale record
//! or one applied twice changes nothing.

use vstd::prelude::*;
use vstd::string::StringSliceAdditionalSpecFns;
use vstd::utf8::{encode_utf8, is_char_boundary};
use crate::text::{
    owned, concat2, concat3, chars_of, str_eq, strings_view, texts, strs, usize_text, decimal,
    push_str, is_ws, char_is_alphanumeric, is_alnum, string_of_range,
};
use crate::whitespace::{trim_end, trim_end_str, sat};
use crate::changes::{
    ChangeRecord, moves_of, change_views, main_separator, slash_all, slashed, utc_now_rfc3339,
};
use crate::path::{file_name_of, path_file_name};
use crate::order::{lex_lt, strictly_sorted, sorted_unique, str_lt};
use crate::matching::{
    ac_valid, ac_matches, ac_check, ac_error_text, ac_find_all, char_before_of, char_after_of,
    slice_of, char_before, char_after, str_slice,
};
use crate::step::{ext_matches, matches_extension};
use crate::error::ReformatError;

verus! {

/// A proposed fix for a broken reference.
#[derive(Debug, Clone)]
pub struct ReferenceFix {
    /// File containing the reference
    pub file: String,
    /// Line number (1-indexed)
    pub line: usize,
    /// Column number (1-indexed, in bytes)
    pub column: usize,
    /// Byte offset of the reference within the file: the position used when
    /// applying the fix. Records without it fall back to line and column.
    pub offset: Option<usize>,
    /// The line holding the reference, trimmed
    pub context: String,
    /// The old reference that needs to be fixed
    pub old_reference: String,
    /// The new reference to replace it with
    pub new_reference: String,
}

/// A fix by the characters of its strings.
pub ghost struct FixView {
    pub file: Seq<char>,
    pub line: usize,
    pub column: usize,
    pub offset: Option<usize>,
    pub context: Seq<char>,
    pub old_reference: Seq<char>,
    pub new_reference: Seq<char>,
}

impl View for ReferenceFix {
    type V = FixView;

    open spec fn view(&self) -> FixView {
        FixView {
            file: self.file@,
            line: self.line,
            column: self.column,
            offset: self.offset,
            context: self.context@,
            old_reference: self.old_reference@,
            new_reference: self.new_reference@,
        }
    }
}

/// A list of fixes by their views.
pub open spec fn fix_views(s: Seq<ReferenceFix>) -> Seq<FixView> {
    s.map_values(|f: ReferenceFix| f@)
}

impl ReferenceFix {
    /// A copy of the fix.
    pub fn copy(&self) -> (r: ReferenceFix)
        ensures
            r@ == self@,
    {
        ReferenceFix {
            file: owned(self.file.as_str()),
            line: self.line,
            column: self.column,
            offset: self.offset,
            context: owned(self.context.as_str()),
            old_reference: owned(self.old_reference.as_str()),
            new_reference: owned(self.new_reference.as_str()),
        }
    }
}

/// The fixes proposed by one scan.
#[derive(Debug, Clone)]
pub struct FixRecord {
    /// Source of the changes that caused these fixes
    pub generated_from: String,
    /// RFC 3339 timestamp of when the scan was performed
    pub timestamp: String,
    /// Directories that were scanned
    pub scan_directories: Vec<String>,
    /// List of proposed fixes
    pub fixes: Vec<ReferenceFix>,
}

impl FixRecord {
    /// Creates an empty record, stamped with the current time.
    pub fn new(generated_from: &str, scan_directories: &[String]) -> (r: FixRecord)
        ensures
            r.generated_from@ == generated_from@,
            strings_view(r.scan_directories@) == strings_view(scan_directories@),
            r.fixes@.len() == 0,
    {
        FixRecord {
            generated_from: owned(generated_from),
            timestamp: utc_now_rfc3339(),
            scan_directories: crate::config::clone_strings(scan_directories),
            fixes: Vec::new(),
        }
    }

    /// Returns true if there are no fixes.
    pub fn is_empty(&self) -> (r: bool)
        ensures
            r == (self.fixes@.len() == 0),
    {
        self.fixes.len() == 0
    }

    /// Returns the number of fixes.
    pub fn len(&self) -> (r: usize)
        ensures
            r == self.fixes@.len(),
    {
        self.fixes.len()
    }

    /// Writes every new reference with `/` separators, as a record read
    /// from a file needs (older Windows builds wrote `\`).
    pub fn normalize_separators(&mut self)
        ensures
            final(self).fixes@.len() == old(self).fixes@.len(),
            forall|k: int|
                0 <= k < final(self).fixes@.len() ==> {
                    let a = old(self).fixes@[k]@;
                    let b = (#[trigger] final(self).fixes@[k])@;
                    &&& b.file == a.file && b.line == a.line && b.column == a.column
                    &&& b.offset == a.offset && b.context == a.context
                    &&& b.old_reference == a.old_reference
                    &&& (b.new_reference == a.new_reference || b.new_reference == slashed(
                        a.new_reference,
                    ))
                },
            forall|j: int, k: int|
                0 <= j < final(self).fixes@.len() && 0 <= k < final(self).fixes@.len()
                    && (#[trigger] final(self).fixes@[j])@.new_reference
                    != old(self).fixes@[j]@.new_reference ==> (
                #[trigger] final(self).fixes@[k])@.new_reference == slashed(
                    old(self).fixes@[k]@.new_reference,
                ),
            final(self).generated_from == old(self).generated_from,
            final(self).timestamp == old(self).timestamp,
            final(self).scan_directories == old(self).scan_directories,
    {
        let windows = main_separator() == '\\';
        let mut out: Vec<ReferenceFix> = Vec::new();
        let mut k: usize = 0;
        while k < self.fixes.len()
            invariant
                k <= self.fixes@.len(),
                self.fixes == old(self).fixes,
                out@.len() == k,
                forall|j: int|
                    0 <= j < k ==> (#[trigger] out@[j])@.new_reference == if windows {
                        slashed(old(self).fixes@[j]@.new_reference)
                    } else {
                        old(self).fixes@[j]@.new_reference
                    },
                forall|j: int|
                    0 <= j < k ==> {
                        let a = old(self).fixes@[j]@;
                        let b = (#[trigger] out@[j])@;
                        &&& b.file == a.file && b.line == a.line && b.column == a.column
                        &&& b.offset == a.offset && b.context == a.context
                        &&& b.old_reference == a.old_reference
                        &&& (b.new_reference == a.new_reference || b.new_reference == slashed(
                            a.new_reference,
                        ))
                    },
            decreases self.fixes.len() - k,
        {
            let mut f = self.fixes[k].copy();
            if windows {
                f.new_reference = slash_all(self.fixes[k].new_reference.as_str());
            }
            out.push(f);
            k += 1;
        }
        self.fixes = out;
    }
}

/// Options for reference scanning.
#[derive(Debug, Clone)]
pub struct ScanOptions {
    /// File extensions to scan (empty means all text files)
    pub extensions: Vec<String>,
    /// Directories/patterns to exclude from scanning
    pub exclude_patterns: Vec<String>,
    /// Whether to scan recursively
    pub recursive: bool,
    /// Whether to print verbose output during scanning
    pub verbose: bool,
}

/// The extensions scanned by default.
pub open spec fn default_scan_extensions() -> Seq<Seq<char>> {
    texts(
        seq![
            ".go", ".py", ".js", ".ts", ".jsx", ".tsx", ".rs", ".java", ".c", ".cpp", ".h", ".hpp",
            ".html", ".tmpl", ".yaml", ".yml", ".json", ".toml", ".xml", ".md", ".txt", ".cfg",
            ".conf", ".ini",
        ],
    )
}

/// The directory names excluded by default.
pub open spec fn default_scan_excludes() -> Seq<Seq<char>> {
    texts(
        seq![".git", "node_modules", "target", "vendor", "__pycache__", ".venv", "dist", "build"],
    )
}

impl Default for ScanOptions {
    fn default() -> (r: ScanOptions)
        ensures
            strings_view(r.extensions@) == default_scan_extensions(),
            strings_view(r.exclude_patterns@) == default_scan_excludes(),
            r.recursive,
            !r.verbose,
    {
        let exts = [
            ".go", ".py", ".js", ".ts", ".jsx", ".tsx", ".rs", ".java", ".c", ".cpp", ".h", ".hpp",
            ".html", ".tmpl", ".yaml", ".yml", ".json", ".toml", ".xml", ".md", ".txt", ".cfg",
            ".conf", ".ini",
        ];
        assert(exts@ =~= seq![
            ".go", ".py", ".js", ".ts", ".jsx", ".tsx", ".rs", ".java", ".c", ".cpp", ".h", ".hpp",
            ".html", ".tmpl", ".yaml", ".yml", ".json", ".toml", ".xml", ".md", ".txt", ".cfg",
            ".conf", ".ini",
        ]);
        let excl = [".git", "node_modules", "target", "vendor", "__pycache__", ".venv", "dist", "build"];
        assert(excl@ =~= seq![
            ".git", "node_modules", "target", "vendor", "__pycache__", ".venv", "dist", "build",
        ]);
        ScanOptions {
            extensions: strs(&exts),
            exclude_patterns: strs(&excl),
            recursive: true,
            verbose: false,
        }
    }
}

/// The byte offsets at which the lines of the first `n` bytes start: 0,
/// and one past each line feed.
pub open spec fn line_starts_upto(b: Seq<u8>, n: int) -> Seq<int>
    decreases n,
{
    if n <= 0 {
        seq![0]
    } else {
        let r = line_starts_upto(b, n - 1);
        if b[n - 1] == 10u8 {
            r.push(n)
        } else {
            r
        }
    }
}

/// The line starts of a text's bytes.
pub open spec fn line_starts_of(b: Seq<u8>) -> Seq<int> {
    line_starts_upto(b, b.len() as int)
}

/// A list of offsets as integers.
pub open spec fn ints(v: Seq<usize>) -> Seq<int> {
    v.map_values(|x: usize| x as int)
}

/// Byte offsets at which each line of `content` starts.
pub fn line_starts(content: &str) -> (r: Vec<usize>)
    ensures
        ints(r@) == line_starts_of(content.spec_bytes()),
{
    let b = content.as_bytes();
    let mut out: Vec<usize> = Vec::new();
    out.push(0);
    let mut i: usize = 0;
    assert(ints(out@) =~= seq![0int]);
    while i < b.len()
        invariant
            i <= b@.len(),
            b@ == content.spec_bytes(),
            ints(out@) == line_starts_upto(b@, i as int),
        decreases b.len() - i,
    {
        if b[i] == 10u8 {
            out.push(i + 1);
            assert(ints(out@) =~= line_starts_upto(b@, i as int).push(i + 1));
        }
        i += 1;
    }
    out
}

/// Characters that can form part of a file name: a match flanked by one
/// of these is part of a longer name. `/` is not one of them: a match after
/// a path separator is a genuine reference.
pub open spec fn name_char(c: char) -> bool {
    is_alnum(c) || c == '_' || c == '-' || c == '.'
}

/// Executable [`name_char`].
pub fn is_name_char(c: char) -> (r: bool)
    ensures
        r == name_char(c),
{
    char_is_alphanumeric(c) || c == '_' || c == '-' || c == '.'
}

/// Whether the bytes `start..end` of `s` stand alone as a reference: no
/// name character right before or right after.
pub open spec fn standalone(s: Seq<char>, start: usize, end: usize) -> bool {
    &&& !(char_before_of(s, start) matches Some(c) && name_char(c))
    &&& !(char_after_of(s, end) matches Some(c) && name_char(c))
}

/// True if `content[start..end]` stands alone as a path reference rather
/// than being embedded in a longer file name.
pub fn is_standalone_reference(content: &str, start: usize, end: usize) -> (r: bool)
    ensures
        r == standalone(content@, start, end),
{
    let before_ok = match char_before(content, start) {
        None => true,
        Some(c) => !is_name_char(c),
    };
    let after_ok = match char_after(content, end) {
        None => true,
        Some(c) => !is_name_char(c),
    };
    before_ok && after_ok
}

/// `s` without leading whitespace.
pub open spec fn trim_start(s: Seq<char>) -> Seq<char>
    decreases s.len(),
{
    if s.len() > 0 && is_ws(s[0]) {
        trim_start(s.drop_first())
    } else {
        s
    }
}

/// `s` without leading or trailing whitespace, as `str::trim` returns it.
pub open spec fn trim(s: Seq<char>) -> Seq<char> {
    trim_end(trim_start(s))
}

/// `s` without leading or trailing whitespace.
pub fn trim_str(s: &str) -> (r: String)
    ensures
        r@ == trim(s@),
{
    let c = chars_of(s);
    let mut k: usize = 0;
    assert(c@.skip(0) =~= c@);
    while k < c.len() && crate::text::is_whitespace(c[k])
        invariant
            k <= c@.len(),
            c@ == s@,
            trim_start(s@) == trim_start(c@.skip(k as int)),
        decreases c.len() - k,
    {
        assert(c@.skip(k as int).drop_first() =~= c@.skip(k + 1));
        k += 1;
    }
    let rest = string_of_range(c.as_slice(), k, c.len());
    assert(c@.subrange(k as int, c@.len() as int) =~= c@.skip(k as int));
    trim_end_str(rest.as_str())
}

/// How many of the leading offsets are at most `pos`.
pub open spec fn lead_le(starts: Seq<int>, pos: int) -> nat
    decreases starts.len(),
{
    if starts.len() > 0 && starts[0] <= pos {
        1 + lead_le(starts.drop_first(), pos)
    } else {
        0
    }
}

/// A map from old references to new ones, filled in order (a later entry
/// for the same old reference wins).
pub open spec fn moves_map(s: Seq<(Seq<char>, Seq<char>)>) -> Map<Seq<char>, Seq<char>>
    decreases s.len(),
{
    if s.len() == 0 {
        Map::empty()
    } else {
        moves_map(s.drop_last()).insert(s.last().0, s.last().1)
    }
}

/// The fix one match yields, if the match stands alone.
pub open spec fn fix_at(
    file: Seq<char>,
    content: Seq<char>,
    pats: Seq<Seq<char>>,
    moves: Map<Seq<char>, Seq<char>>,
    m: (usize, usize, usize),
) -> Option<FixView> {
    let old = pats[m.0 as int];
    let b = encode_utf8(content);
    let starts = line_starts_of(b);
    if !moves.dom().contains(old) || !standalone(content, m.1, m.2) {
        None
    } else {
        let idx = lead_le(starts, m.1 as int) - 1;
        let ls = starts[idx];
        let le = if idx + 1 < starts.len() {
            if starts[idx + 1] >= 1 {
                starts[idx + 1] - 1
            } else {
                0
            }
        } else {
            b.len() as int
        };
        Some(
            FixView {
                file,
                line: (idx + 1) as usize,
                column: if m.1 - ls + 1 > usize::MAX {
                    usize::MAX
                } else {
                    (m.1 - ls + 1) as usize
                },
                offset: Some(m.1),
                context: match slice_of(content, ls as usize, le as usize) {
                    Some(t) => trim(t),
                    None => seq![],
                },
                old_reference: old,
                new_reference: moves[old],
            },
        )
    }
}

/// The fixes for the matches, in order.
pub open spec fn fixes_from(
    file: Seq<char>,
    content: Seq<char>,
    pats: Seq<Seq<char>>,
    moves: Map<Seq<char>, Seq<char>>,
    ms: Seq<(usize, usize, usize)>,
) -> Seq<FixView>
    decreases ms.len(),
{
    if ms.len() == 0 {
        seq![]
    } else {
        let r = fixes_from(file, content, pats, moves, ms.drop_last());
        match fix_at(file, content, pats, moves, ms.last()) {
            Some(f) => r.push(f),
            None => r,
        }
    }
}

/// The fix's old reference stands in the text's bytes `b` at its offset.
pub open spec fn fix_in_place(b: Seq<u8>, f: FixView) -> bool {
    &&& f.offset is Some
    &&& f.offset.unwrap() + encode_utf8(f.old_reference).len() <= b.len()
    &&& b.subrange(
        f.offset.unwrap() as int,
        f.offset.unwrap() + encode_utf8(f.old_reference).len(),
    ) == encode_utf8(f.old_reference)
}

/// Each match covers the bytes of the pattern it names.
pub open spec fn matches_in_place(b: Seq<u8>, pats: Seq<Seq<char>>, ms: Seq<(usize, usize, usize)>) -> bool {
    forall|k: int|
        0 <= k < ms.len() ==> (#[trigger] ms[k]).0 < pats.len() && ms[k].1 <= ms[k].2 <= b.len()
            && b.subrange(ms[k].1 as int, ms[k].2 as int) == encode_utf8(pats[ms[k].0 as int])
}

/// Fixes made from matches that cover their patterns' bytes stand where
/// their offsets say.
proof fn lemma_fixes_in_place(
    file: Seq<char>,
    content: Seq<char>,
    pats: Seq<Seq<char>>,
    moves: Map<Seq<char>, Seq<char>>,
    ms: Seq<(usize, usize, usize)>,
)
    requires
        matches_in_place(encode_utf8(content), pats, ms),
    ensures
        forall|k: int|
            0 <= k < fixes_from(file, content, pats, moves, ms).len() ==> fix_in_place(
                encode_utf8(content),
                #[trigger] fixes_from(file, content, pats, moves, ms)[k],
            ),
    decreases ms.len(),
{
    if ms.len() > 0 {
        let b = encode_utf8(content);
        let init = ms.drop_last();
        assert forall|k: int| 0 <= k < init.len() implies (#[trigger] init[k]).0 < pats.len()
            && init[k].1 <= init[k].2 <= b.len() && b.subrange(init[k].1 as int, init[k].2 as int)
            == encode_utf8(pats[init[k].0 as int]) by {
            assert(init[k] == ms[k]);
        }
        lemma_fixes_in_place(file, content, pats, moves, init);
        let m = ms.last();
        assert(m == ms[ms.len() - 1]);
        let r = fixes_from(file, content, pats, moves, init);
        match fix_at(file, content, pats, moves, m) {
            Some(f) => {
                assert(f.offset == Some(m.1));
                assert(f.old_reference == pats[m.0 as int]);
                assert(b.subrange(m.1 as int, m.2 as int).len() == m.2 - m.1);
                assert forall|k: int| 0 <= k < r.push(f).len() implies fix_in_place(
                    b,
                    #[trigger] r.push(f)[k],
                ) by {
                    if k < r.len() {
                        assert(r.push(f)[k] == r[k]);
                    }
                }
            },
            None => {},
        }
    }
}

/// Finds references to moved files.
pub struct ReferenceScanner {
    options: ScanOptions,
    moves: Vec<(String, String)>,
    map: Ghost<Map<Seq<char>, Seq<char>>>,
    patterns: Vec<String>,
}

/// What a scanner holds: its options, the moves as a map, and the old
/// references it looks for, sorted.
pub ghost struct ScannerView {
    pub options: ScanOptions,
    pub moves: Map<Seq<char>, Seq<char>>,
    pub patterns: Seq<Seq<char>>,
}

/// The pairs of a list of moves, by their characters.
pub open spec fn pair_list(v: Seq<(String, String)>) -> Seq<(Seq<char>, Seq<char>)> {
    v.map_values(|p: (String, String)| (p.0@, p.1@))
}

impl View for ReferenceScanner {
    type V = ScannerView;

    closed spec fn view(&self) -> ScannerView {
        ScannerView { options: self.options, moves: self.map@, patterns: strings_view(self.patterns@) }
    }
}

/// The scanner's patterns are the old references, sorted, each once.
pub open spec fn scanner_ok(v: ScannerView) -> bool {
    &&& strictly_sorted(v.patterns)
    &&& forall|x: Seq<char>| v.patterns.contains(x) <==> v.moves.dom().contains(x)
    &&& ac_valid(v.patterns)
}

/// The (old, new) pairs a change record's moves give: each file name, and
/// the whole old path where it differs from the name.
pub open spec fn record_pairs(m: Seq<(Seq<char>, Seq<char>)>) -> Seq<(Seq<char>, Seq<char>)>
    decreases m.len(),
{
    if m.len() == 0 {
        seq![]
    } else {
        let rest = record_pairs(m.drop_last());
        let (from, to) = m.last();
        let name = match file_name_of(from) {
            Some(n) => n,
            None => from,
        };
        if from != name {
            rest.push((name, to)).push((from, to))
        } else {
            rest.push((name, to))
        }
    }
}

/// Position of `key` among the keys of `entries`.
fn find_key(entries: &Vec<(String, String)>, key: &str) -> (r: Option<usize>)
    ensures
        match r {
            Some(k) => k < entries@.len() && entries@[k as int].0@ == key@,
            None => forall|k: int| 0 <= k < entries@.len() ==> entries@[k].0@ != key@,
        },
{
    let mut k: usize = 0;
    while k < entries.len()
        invariant
            k <= entries@.len(),
            forall|j: int| 0 <= j < k ==> entries@[j].0@ != key@,
        decreases entries.len() - k,
    {
        if str_eq(entries[k].0.as_str(), key) {
            return Some(k);
        }
        k += 1;
    }
    None
}

/// Entries with distinct keys that hold the map `m`.
pub open spec fn entries_hold(e: Seq<(Seq<char>, Seq<char>)>, m: Map<Seq<char>, Seq<char>>) -> bool {
    &&& forall|a: int, b: int| 0 <= a < b < e.len() ==> e[a].0 != e[b].0
    &&& forall|x: Seq<char>| m.dom().contains(x) <==> exists|k: int| 0 <= k < e.len() && e[k].0 == x
    &&& forall|k: int| 0 <= k < e.len() ==> m[e[k].0] == #[trigger] e[k].1
}

impl ReferenceScanner {
    #[verifier::type_invariant]
    spec fn well_formed(self) -> bool {
        &&& scanner_ok(self@)
        &&& entries_hold(pair_list(self.moves@), self@.moves)
    }

    /// Creates a scanner from (old, new) reference pairs; a later pair for
    /// the same old reference replaces an earlier one. Fails when the
    /// matcher cannot be built.
    pub fn new(file_moves: Vec<(String, String)>, options: ScanOptions) -> (r: Result<ReferenceScanner, ReformatError>)
        ensures
            r matches Ok(s) ==> s@.options == options && s@.moves == moves_map(pair_list(file_moves@))
                && scanner_ok(s@),
            r is Err ==> exists|p: Seq<Seq<char>>|
                strictly_sorted(p) && (forall|x: Seq<char>| p.contains(x) <==> moves_map(
                    pair_list(file_moves@),
                ).dom().contains(x)) && !ac_valid(p),
    {
        let ghost input = pair_list(file_moves@);
        let mut entries: Vec<(String, String)> = Vec::new();
        let mut i: usize = 0;
        while i < file_moves.len()
            invariant
                i <= file_moves@.len(),
                input == pair_list(file_moves@),
                entries_hold(pair_list(entries@), moves_map(input.take(i as int))),
            decreases file_moves.len() - i,
        {
            let (k, v) = (file_moves[i].0.as_str(), file_moves[i].1.as_str());
            let ghost before = pair_list(entries@);
            let ghost m0 = moves_map(input.take(i as int));
            assert(input.take(i + 1).drop_last() =~= input.take(i as int));
            assert(input.take(i + 1).last() == (k@, v@));
            assert(moves_map(input.take(i + 1)) == m0.insert(k@, v@));
            match find_key(&entries, k) {
                Some(p) => {
                    entries.set(p, (owned(k), owned(v)));
                    proof {
                        let after = pair_list(entries@);
                        assert(after =~= before.update(p as int, (k@, v@)));
                        let m1 = m0.insert(k@, v@);
                        assert forall|x: Seq<char>| m1.dom().contains(x) <==> exists|j: int|
                            0 <= j < after.len() && after[j].0 == x by {
                            if m0.dom().contains(x) {
                                let j = choose|j: int| 0 <= j < before.len() && before[j].0 == x;
                                assert(after[j].0 == x);
                            }
                            if x == k@ {
                                assert(after[p as int].0 == x);
                            }
                            if exists|j: int| 0 <= j < after.len() && after[j].0 == x {
                                let j = choose|j: int| 0 <= j < after.len() && after[j].0 == x;
                                if j != p {
                                    assert(before[j].0 == x);
                                }
                            }
                        }
                        assert forall|a: int, b: int| 0 <= a < b < after.len() implies after[a].0
                            != after[b].0 by {
                            assert(after[a].0 == before[a].0 && after[b].0 == before[b].0);
                        }
                        assert forall|j: int| 0 <= j < after.len() implies m1[after[j].0]
                            == #[trigger] after[j].1 by {
                            if j != p {
                                assert(after[j] == before[j]);
                                if j < p {
                                    assert(before[j].0 != before[p as int].0);
                                } else {
                                    assert(before[p as int].0 != before[j].0);
                                }
                            }
                        }
                    }
                },
                None => {
                    entries.push((owned(k), owned(v)));
                    proof {
                        let after = pair_list(entries@);
                        assert(after =~= before.push((k@, v@)));
                        let m1 = m0.insert(k@, v@);
                        assert forall|x: Seq<char>| m1.dom().contains(x) <==> exists|j: int|
                            0 <= j < after.len() && after[j].0 == x by {
                            if m0.dom().contains(x) {
                                let j = choose|j: int| 0 <= j < before.len() && before[j].0 == x;
                                assert(after[j].0 == x);
                            }
                            if x == k@ {
                                assert(after[before.len() as int].0 == x);
                            }
                            if exists|j: int| 0 <= j < after.len() && after[j].0 == x {
                                let j = choose|j: int| 0 <= j < after.len() && after[j].0 == x;
                                if j < before.len() {
                                    assert(before[j].0 == x);
                                }
                            }
                        }
                        assert forall|a: int, b: int| 0 <= a < b < after.len() implies after[a].0
                            != after[b].0 by {
                            if b == before.len() {
                                assert(after[a] == before[a]);
                            } else {
                                assert(after[a] == before[a] && after[b] == before[b]);
                            }
                        }
                        assert forall|j: int| 0 <= j < after.len() implies m1[after[j].0]
                            == #[trigger] after[j].1 by {
                            if j < before.len() {
                                assert(after[j] == before[j]);
                                assert(before[j].0 != k@);
                            }
                        }
                    }
                },
            }
            i += 1;
        }
        assert(input.take(input.len() as int) =~= input);
        let keys = key_list(&entries);
        let patterns = sorted_unique(keys.as_slice());
        proof {
            let ks = strings_view(keys@);
            let pl = pair_list(entries@);
            assert forall|x: Seq<char>| strings_view(patterns@).contains(x) <==> moves_map(
                input,
            ).dom().contains(x) by {
                if ks.contains(x) {
                    let j = choose|j: int| 0 <= j < ks.len() && ks[j] == x;
                    assert(pl[j].0 == x);
                }
                if moves_map(input).dom().contains(x) {
                    let j = choose|j: int| 0 <= j < pl.len() && pl[j].0 == x;
                    assert(ks[j] == x);
                }
            }
        }
        match ac_check(patterns.as_slice()) {
            Err(e) => {
                let m = concat2("failed to build reference matcher: ", ac_error_text(&e).as_str());
                Err(ReformatError::new(m))
            },
            Ok(()) => Ok(
                ReferenceScanner { options, moves: entries, map: Ghost(moves_map(input)), patterns },
            ),
        }
    }

    /// Creates a scanner from the moves of a change record: each moved
    /// file's name, and its whole old path where that differs.
    pub fn from_change_record(record: &ChangeRecord, options: ScanOptions) -> (r: Result<ReferenceScanner, ReformatError>)
        ensures
            r matches Ok(s) ==> s@.options == options && s@.moves == moves_map(
                record_pairs(moves_of(change_views(record.changes@))),
            ) && scanner_ok(s@),
            r is Err ==> exists|p: Seq<Seq<char>>|
                strictly_sorted(p) && (forall|x: Seq<char>| p.contains(x) <==> moves_map(
                    record_pairs(moves_of(change_views(record.changes@))),
                ).dom().contains(x)) && !ac_valid(p),
            r matches Ok(s) ==> forall|k: int|
                0 <= k < moves_of(change_views(record.changes@)).len() ==> {
                    &&& s@.moves.dom().contains(
                        (#[trigger] moves_of(change_views(record.changes@))[k]).0,
                    )
                    &&& s@.moves.dom().contains(
                        moved_name(moves_of(change_views(record.changes@))[k].0),
                    )
                    &&& !set_later(
                        moves_of(change_views(record.changes@)),
                        k,
                        moves_of(change_views(record.changes@))[k].0,
                    ) ==> s@.moves[moves_of(change_views(record.changes@))[k].0] == moves_of(
                        change_views(record.changes@),
                    )[k].1
                },
    {
        proof {
            lemma_record_keys(moves_of(change_views(record.changes@)));
        }
        let moves = record.file_moves();
        let ghost mv = moves_of(change_views(record.changes@));
        let mut pairs: Vec<(String, String)> = Vec::new();
        let mut i: usize = 0;
        while i < moves.len()
            invariant
                i <= moves@.len(),
                moves@.map_values(|m: (&str, &str)| (m.0@, m.1@)) == mv,
                pair_list(pairs@) == record_pairs(mv.take(i as int)),
            decreases moves.len() - i,
        {
            let (from, to) = moves[i];
            let name = match path_file_name(from) {
                Some(n) => n,
                None => owned(from),
            };
            let ghost before = pair_list(pairs@);
            assert(mv.take(i + 1).drop_last() =~= mv.take(i as int));
            assert(mv.take(i + 1).last() == (from@, to@));
            let differs = !str_eq(from, name.as_str());
            pairs.push((name, owned(to)));
            if differs {
                pairs.push((owned(from), owned(to)));
            }
            assert(pair_list(pairs@) =~= record_pairs(mv.take(i + 1)));
            i += 1;
        }
        assert(mv.take(mv.len() as int) =~= mv);
        ReferenceScanner::new(pairs, options)
    }

    /// Whether a file is scanned, by its extension.
    pub fn should_scan_file(&self, path: &str) -> (r: bool)
        ensures
            r == ext_matches(path@, strings_view(self@.options.extensions@)),
    {
        matches_extension(path, self.options.extensions.as_slice())
    }

    /// The options this scanner runs with.
    pub fn options(&self) -> (r: &ScanOptions)
        ensures
            *r == self@.options,
    {
        &self.options
    }

    /// The references to moved files in `content`, the text of `file`, in
    /// the order they occur: each standalone match of an old reference
    /// with its line, column, byte offset and trimmed line.
    pub fn scan_content(&self, file: &str, content: &str) -> (r: Vec<ReferenceFix>)
        ensures
            self@.patterns.len() == 0 ==> r@.len() == 0,
            self@.patterns.len() > 0 ==> fix_views(r@) == fixes_from(
                file@,
                content@,
                self@.patterns,
                self@.moves,
                ac_matches(self@.patterns, content@),
            ),
            forall|k: int| 0 <= k < r@.len() ==> fix_in_place(content.spec_bytes(), (#[trigger] r@[k])@),
    {
        proof {
            use_type_invariant(self);
        }
        if self.patterns.len() == 0 {
            return Vec::new();
        }
        let found = ac_find_all(self.patterns.as_slice(), content);
        let r = self.fixes_for_matches(file, content, found.as_slice());
        proof {
            lemma_fixes_in_place(file@, content@, self@.patterns, self@.moves, found@);
            assert forall|k: int| 0 <= k < r@.len() implies fix_in_place(
                content.spec_bytes(),
                (#[trigger] r@[k])@,
            ) by {
                assert(fix_views(r@)[k] == r@[k]@);
            }
        }
        r
    }

    /// The fixes for the matches `found` in `content`, the text of `file`,
    /// each given as (pattern index, start byte, end byte) in the order
    /// they occur: one for each standalone match of an old reference, with
    /// its line, column, byte offset and trimmed line.
    pub fn fixes_for_matches(&self, file: &str, content: &str, found: &[(usize, usize, usize)]) -> (r: Vec<ReferenceFix>)
        requires
            forall|k: int|
                0 <= k < found@.len() ==> (#[trigger] found@[k]).0 < self@.patterns.len()
                    && found@[k].1 <= found@[k].2 <= content.spec_bytes().len(),
        ensures
            fix_views(r@) == fixes_from(file@, content@, self@.patterns, self@.moves, found@),
    {
        proof {
            use_type_invariant(self);
        }
        let starts = line_starts(content);
        let ghost ms = found@;
        let mut out: Vec<ReferenceFix> = Vec::new();
        let mut i: usize = 0;
        while i < found.len()
            invariant
                i <= found@.len(),
                ms == found@,
                forall|k: int|
                    0 <= k < found@.len() ==> (#[trigger] found@[k]).0 < self.patterns@.len()
                        && found@[k].1 <= found@[k].2 <= content.spec_bytes().len(),
                ints(starts@) == line_starts_of(content.spec_bytes()),
                fix_views(out@) == fixes_from(
                    file@,
                    content@,
                    self@.patterns,
                    self@.moves,
                    ms.take(i as int),
                ),
                scanner_ok(self@),
                entries_hold(pair_list(self.moves@), self@.moves),
            decreases found.len() - i,
        {
            let (pi, start, end) = found[i];
            assert(ms.take(i + 1).drop_last() =~= ms.take(i as int));
            assert(ms.take(i + 1).last() == found@[i as int]);
            let old_ref = self.patterns[pi].as_str();
            let ghost before = fix_views(out@);
            match find_key(&self.moves, old_ref) {
                None => {
                    proof {
                        if self@.moves.dom().contains(old_ref@) {
                            let k = choose|k: int|
                                0 <= k < pair_list(self.moves@).len() && pair_list(self.moves@)[k].0
                                    == old_ref@;
                            assert(self.moves@[k].0@ == old_ref@);
                        }
                    }
                },
                Some(mk) => {
                    assert(pair_list(self.moves@)[mk as int].0 == old_ref@);
                    assert(self@.moves.dom().contains(old_ref@));
                    assert(pair_list(self.moves@)[mk as int].1 == self.moves@[mk as int].1@);
                    assert(self@.moves[old_ref@] == self.moves@[mk as int].1@);
                    if is_standalone_reference(content, start, end) {
                        let fix = self.make_fix(file, content, &starts, start, old_ref, self.moves[mk].1.as_str());
                        out.push(fix);
                        assert(fix_views(out@) =~= before.push(fix@));
                    }
                },
            }
            i += 1;
        }
        assert(ms.take(ms.len() as int) =~= ms);
        out
    }

    /// The fix for a standalone match at byte `pos`.
    fn make_fix(
        &self,
        file: &str,
        content: &str,
        starts: &Vec<usize>,
        pos: usize,
        old_ref: &str,
        new_ref: &str,
    ) -> (r: ReferenceFix)
        requires
            ints(starts@) == line_starts_of(content.spec_bytes()),
            pos <= content.spec_bytes().len(),
        ensures
            ({
                let b = encode_utf8(content@);
                let st = line_starts_of(b);
                let idx = lead_le(st, pos as int) - 1;
                let ls = st[idx];
                let le = if idx + 1 < st.len() {
                    if st[idx + 1] >= 1 {
                        st[idx + 1] - 1
                    } else {
                        0
                    }
                } else {
                    b.len() as int
                };
                r@ == FixView {
                    file: file@,
                    line: (idx + 1) as usize,
                    column: if pos - ls + 1 > usize::MAX {
                        usize::MAX
                    } else {
                        (pos - ls + 1) as usize
                    },
                    offset: Some(pos),
                    context: match slice_of(content@, ls as usize, le as usize) {
                        Some(t) => trim(t),
                        None => seq![],
                    },
                    old_reference: old_ref@,
                    new_reference: new_ref@,
                }
            }),
    {
        proof {
            lemma_line_starts_facts(content.spec_bytes(), content.spec_bytes().len() as int);
        }
        let mut p: usize = 0;
        assert(ints(starts@).skip(0) =~= ints(starts@));
        assert(ints(starts@)[0] == 0);
        assert(starts@[0] == 0);
        while p < starts.len() && starts[p] <= pos
            invariant
                p <= starts@.len(),
                starts@.len() >= 1,
                starts@[0] == 0,
                ints(starts@) == line_starts_of(content.spec_bytes()),
                lead_le(ints(starts@), pos as int) == p + lead_le(ints(starts@).skip(p as int), pos as int),
                forall|j: int| 0 <= j < p ==> starts@[j] <= pos,
            decreases starts.len() - p,
        {
            assert(ints(starts@).skip(p as int).drop_first() =~= ints(starts@).skip(p + 1));
            p += 1;
        }
        assert(ints(starts@).skip(p as int).len() == 0 || ints(starts@).skip(p as int)[0] > pos);
        assert(p >= 1);
        let idx = p - 1;
        let ls = starts[idx];
        assert(ls <= pos);
        let le = if idx + 1 < starts.len() {
            if starts[idx + 1] >= 1 {
                starts[idx + 1] - 1
            } else {
                0
            }
        } else {
            content.len()
        };
        let context = match str_slice(content, ls, le) {
            Some(t) => trim_str(t.as_str()),
            None => String::new(),
        };
        ReferenceFix {
            file: owned(file),
            line: idx + 1,
            column: (pos - ls).saturating_add(1),
            offset: Some(pos),
            context,
            old_reference: owned(old_ref),
            new_reference: owned(new_ref),
        }
    }
}

proof fn lemma_line_starts_facts(b: Seq<u8>, n: int)
    requires
        0 <= n <= b.len(),
    ensures
        line_starts_upto(b, n).len() >= 1,
        line_starts_upto(b, n)[0] == 0,
        forall|k: int| 0 <= k < line_starts_upto(b, n).len() ==> 0 <= #[trigger] line_starts_upto(b, n)[k] <= n,
    decreases n,
{
    if n > 0 {
        lemma_line_starts_facts(b, n - 1);
    }
}

/// The keys of a list of entries.
fn key_list(entries: &Vec<(String, String)>) -> (r: Vec<String>)
    ensures
        strings_view(r@) == pair_list(entries@).map_values(|p: (Seq<char>, Seq<char>)| p.0),
{
    let mut out: Vec<String> = Vec::new();
    let mut k: usize = 0;
    while k < entries.len()
        invariant
            k <= entries@.len(),
            strings_view(out@) == pair_list(entries@.take(k as int)).map_values(
                |p: (Seq<char>, Seq<char>)| p.0,
            ),
        decreases entries.len() - k,
    {
        let ghost before = out@;
        out.push(owned(entries[k].0.as_str()));
        assert(entries@.take(k + 1) =~= entries@.take(k as int).push(entries@[k as int]));
        assert(out@ =~= before.push(out@.last()));
        assert(strings_view(out@) =~= strings_view(before).push(entries@[k as int].0@));
        assert(pair_list(entries@.take(k + 1)) =~= pair_list(entries@.take(k as int)).push(
            (entries@[k as int].0@, entries@[k as int].1@),
        ));
        assert(strings_view(out@) =~= pair_list(entries@.take(k + 1)).map_values(
            |p: (Seq<char>, Seq<char>)| p.0,
        ));
        k += 1;
    }
    assert(entries@.take(entries@.len() as int) =~= entries@);
    out
}


/// `a` comes no later than `b` in scan order: by file, then line, then
/// column.
pub open spec fn fix_le(a: FixView, b: FixView) -> bool {
    ||| lex_lt(a.file, b.file)
    ||| (a.file == b.file && (a.line < b.line || (a.line == b.line && a.column <= b.column)))
}

/// `x` inserted into `s` after every fix that does not sort after it.
pub open spec fn insert_fix(s: Seq<FixView>, x: FixView) -> Seq<FixView>
    decreases s.len(),
{
    if s.len() == 0 {
        seq![x]
    } else if fix_le(s[0], x) {
        seq![s[0]] + insert_fix(s.drop_first(), x)
    } else {
        seq![x] + s
    }
}

/// The fixes in scan order, equal keys keeping their order (a stable
/// sort).
pub open spec fn sort_fixes(s: Seq<FixView>) -> Seq<FixView>
    decreases s.len(),
{
    if s.len() == 0 {
        s
    } else {
        insert_fix(sort_fixes(s.drop_last()), s.last())
    }
}

/// Two fixes at the same place for the same reference.
pub open spec fn same_fix(a: FixView, b: FixView) -> bool {
    a.file == b.file && a.line == b.line && a.column == b.column && a.old_reference
        == b.old_reference
}

/// The fixes with every fix equal (as [`same_fix`]) to the one kept just
/// before it dropped.
pub open spec fn dedup_fixes(s: Seq<FixView>) -> Seq<FixView>
    decreases s.len(),
{
    if s.len() == 0 {
        s
    } else {
        let r = dedup_fixes(s.drop_last());
        if r.len() > 0 && same_fix(r.last(), s.last()) {
            r
        } else {
            r.push(s.last())
        }
    }
}

proof fn lemma_insert_fix_at(s: Seq<FixView>, x: FixView, p: int)
    requires
        0 <= p <= s.len(),
        forall|j: int| 0 <= j < p ==> fix_le(#[trigger] s[j], x),
        p == s.len() || !fix_le(s[p], x),
    ensures
        insert_fix(s, x) == s.take(p).push(x) + s.skip(p),
    decreases s.len(),
{
    if s.len() == 0 {
        assert(s.take(p).push(x) + s.skip(p) =~= seq![x]);
    } else if p == 0 {
        assert(s.take(0).push(x) + s.skip(0) =~= seq![x] + s);
    } else {
        let t = s.drop_first();
        assert forall|j: int| 0 <= j < p - 1 implies fix_le(#[trigger] t[j], x) by {
            assert(t[j] == s[j + 1]);
        }
        if p < s.len() {
            assert(t[p - 1] == s[p]);
        }
        lemma_insert_fix_at(t, x, p - 1);
        assert(seq![s[0]] + (t.take(p - 1).push(x) + t.skip(p - 1)) =~= s.take(p).push(x) + s.skip(
            p,
        ));
    }
}

fn fix_le_exec(a: &ReferenceFix, b: &ReferenceFix) -> (r: bool)
    ensures
        r == fix_le(a@, b@),
{
    if str_lt(a.file.as_str(), b.file.as_str()) {
        return true;
    }
    if !str_eq(a.file.as_str(), b.file.as_str()) {
        return false;
    }
    a.line < b.line || (a.line == b.line && a.column <= b.column)
}

/// The fixes of a scan in order (by file, line and column; equal places
/// keep their order), with exact repeats of a place and reference dropped.
pub fn finish_fixes(fixes: &[ReferenceFix]) -> (r: Vec<ReferenceFix>)
    ensures
        fix_views(r@) == dedup_fixes(sort_fixes(fix_views(fixes@))),
{
    let mut sorted: Vec<ReferenceFix> = Vec::new();
    let mut i: usize = 0;
    while i < fixes.len()
        invariant
            i <= fixes@.len(),
            fix_views(sorted@) == sort_fixes(fix_views(fixes@.take(i as int))),
        decreases fixes.len() - i,
    {
        let x = &fixes[i];
        let ghost before = fix_views(sorted@);
        let mut p: usize = 0;
        while p < sorted.len() && fix_le_exec(&sorted[p], x)
            invariant
                p <= sorted@.len(),
                before == fix_views(sorted@),
                forall|j: int| 0 <= j < p ==> fix_le(#[trigger] before[j], x@),
            decreases sorted.len() - p,
        {
            p += 1;
        }
        proof {
            lemma_insert_fix_at(before, x@, p as int);
            assert(fix_views(fixes@.take(i + 1)).drop_last() =~= fix_views(fixes@.take(i as int)));
            assert(fix_views(fixes@.take(i + 1)).last() == x@);
        }
        sorted.insert(p, x.copy());
        assert(fix_views(sorted@) =~= before.take(p as int).push(x@) + before.skip(p as int));
        i += 1;
    }
    assert(fixes@.take(fixes@.len() as int) =~= fixes@);
    let ghost all = fix_views(sorted@);
    let mut out: Vec<ReferenceFix> = Vec::new();
    let mut k: usize = 0;
    while k < sorted.len()
        invariant
            k <= sorted@.len(),
            all == fix_views(sorted@),
            fix_views(out@) == dedup_fixes(all.take(k as int)),
        decreases sorted.len() - k,
    {
        let x = &sorted[k];
        assert(all.take(k + 1).drop_last() =~= all.take(k as int));
        assert(all.take(k + 1).last() == x@);
        let dup = out.len() > 0 && {
            let last = &out[out.len() - 1];
            str_eq(last.file.as_str(), x.file.as_str()) && last.line == x.line && last.column
                == x.column && str_eq(last.old_reference.as_str(), x.old_reference.as_str())
        };
        if !dup {
            let ghost before = fix_views(out@);
            out.push(x.copy());
            assert(fix_views(out@) =~= before.push(x@));
        } else {
            assert(fix_views(out@).last() == out@[out@.len() - 1]@);
        }
        k += 1;
    }
    assert(all.take(all.len() as int) =~= all);
    out
}

/// Per-file outcome of applying fixes.
#[derive(Debug, Clone)]
pub struct FileOutcome {
    /// The new content of the file
    pub content: Vec<u8>,
    /// Occurrences actually rewritten
    pub replaced: usize,
    /// Recorded fixes that no longer matched, or overlapped an edit, and
    /// were skipped
    pub skipped: usize,
    /// Whether the content changed (and the file is to be written)
    pub modified: bool,
}

/// Result of applying fixes.
#[derive(Debug)]
pub struct ApplyResult {
    /// Number of files modified
    pub files_modified: usize,
    /// Number of references fixed
    pub references_fixed: usize,
    /// Number of recorded fixes that no longer matched the file and were
    /// skipped (a stale record, or one that has already been applied)
    pub references_skipped: usize,
    /// Errors encountered
    pub errors: Vec<String>,
}

impl Default for ApplyResult {
    fn default() -> (r: ApplyResult)
        ensures
            r.files_modified == 0,
            r.references_fixed == 0,
            r.references_skipped == 0,
            r.errors@.len() == 0,
    {
        ApplyResult { files_modified: 0, references_fixed: 0, references_skipped: 0, errors: Vec::new() }
    }
}

impl ApplyResult {
    /// Counts one file's outcome (saturating).
    pub fn record_outcome(&mut self, outcome: &FileOutcome)
        ensures
            final(self).files_modified == if outcome.modified {
                sat((old(self).files_modified + 1) as nat)
            } else {
                old(self).files_modified
            },
            final(self).references_fixed == sat((old(self).references_fixed + outcome.replaced) as nat),
            final(self).references_skipped == sat((old(self).references_skipped + outcome.skipped) as nat),
            final(self).errors@ == old(self).errors@,
    {
        if outcome.modified {
            self.files_modified = self.files_modified.saturating_add(1);
        }
        self.references_fixed = self.references_fixed.saturating_add(outcome.replaced);
        self.references_skipped = self.references_skipped.saturating_add(outcome.skipped);
    }

    /// Records that a file could not be processed: "{file}: {message}".
    pub fn record_error(&mut self, file: &str, message: &str)
        ensures
            final(self).errors@.len() == old(self).errors@.len() + 1,
            final(self).errors@.take(old(self).errors@.len() as int) == old(self).errors@,
            final(self).errors@.last()@ == file@ + ": "@ + message@,
            final(self).files_modified == old(self).files_modified,
            final(self).references_fixed == old(self).references_fixed,
            final(self).references_skipped == old(self).references_skipped,
    {
        self.errors.push(concat3(file, ": ", message));
        assert(self.errors@.take(old(self).errors@.len() as int) =~= old(self).errors@);
    }
}

/// Where a recorded fix points in the bytes `b` (with line starts
/// `starts`): its offset, or for records without one its line and column;
/// `None` unless the recorded old reference is exactly there, between
/// character boundaries.
pub open spec fn resolve_spec(b: Seq<u8>, starts: Seq<int>, f: FixView) -> Option<int> {
    let start: Option<int> = match f.offset {
        Some(o) => Some(o as int),
        None => if f.line >= 1 && f.line - 1 < starts.len() && f.column >= 1 && starts[f.line - 1]
            + f.column - 1 <= usize::MAX {
            Some(starts[f.line - 1] + f.column - 1)
        } else {
            None
        },
    };
    match start {
        None => None,
        Some(s) => {
            let old = encode_utf8(f.old_reference);
            let e = s + old.len();
            if e <= usize::MAX && e <= b.len() && is_char_boundary(b, s) && is_char_boundary(b, e)
                && b.subrange(s, e) == old {
                Some(s)
            } else {
                None
            }
        },
    }
}

/// A resolved fix: (start, end, replacement bytes).
pub open spec fn span_of(b: Seq<u8>, starts: Seq<int>, f: FixView) -> Option<(int, int, Seq<u8>)> {
    match resolve_spec(b, starts, f) {
        Some(s) => Some((s, s + encode_utf8(f.old_reference).len(), encode_utf8(f.new_reference))),
        None => None,
    }
}

/// The resolved spans of the fixes, in order.
pub open spec fn spans_of(b: Seq<u8>, starts: Seq<int>, fs: Seq<FixView>) -> Seq<(int, int, Seq<u8>)>
    decreases fs.len(),
{
    if fs.len() == 0 {
        seq![]
    } else {
        let r = spans_of(b, starts, fs.drop_last());
        match span_of(b, starts, fs.last()) {
            Some(sp) => r.push(sp),
            None => r,
        }
    }
}

/// How many fixes do not resolve.
pub open spec fn unresolved(b: Seq<u8>, starts: Seq<int>, fs: Seq<FixView>) -> nat
    decreases fs.len(),
{
    if fs.len() == 0 {
        0
    } else {
        unresolved(b, starts, fs.drop_last()) + if span_of(b, starts, fs.last()) is None {
            1nat
        } else {
            0nat
        }
    }
}

/// `x` inserted into `s` after every span that starts at or after it.
pub open spec fn insert_span(s: Seq<(int, int, Seq<u8>)>, x: (int, int, Seq<u8>)) -> Seq<(int, int, Seq<u8>)>
    decreases s.len(),
{
    if s.len() == 0 {
        seq![x]
    } else if s[0].0 >= x.0 {
        seq![s[0]] + insert_span(s.drop_first(), x)
    } else {
        seq![x] + s
    }
}

/// The spans from the last start to the first, equal starts keeping
/// their order.
pub open spec fn sort_spans(s: Seq<(int, int, Seq<u8>)>) -> Seq<(int, int, Seq<u8>)>
    decreases s.len(),
{
    if s.len() == 0 {
        s
    } else {
        insert_span(sort_spans(s.drop_last()), s.last())
    }
}

/// The spans applied from the end of the file backwards: each replaces its
/// bytes unless it reaches into an edit already made. Gives the new bytes
/// and the numbers of edits made and skipped.
pub open spec fn apply_spans(b: Seq<u8>, spans: Seq<(int, int, Seq<u8>)>, next: int) -> (Seq<u8>, nat, nat)
    decreases spans.len(),
{
    if spans.len() == 0 {
        (b, 0, 0)
    } else {
        let (s, e, rep) = spans[0];
        if e > next {
            let r = apply_spans(b, spans.drop_first(), next);
            (r.0, r.1, r.2 + 1)
        } else {
            let r = apply_spans(b.take(s) + rep + b.skip(e), spans.drop_first(), s);
            (r.0, r.1 + 1, r.2)
        }
    }
}

/// What fixing the content gives: the new bytes, the edits made, the fixes
/// skipped (unresolved or overlapping) and whether anything changed.
pub open spec fn fix_content_spec(content: Seq<char>, fs: Seq<FixView>) -> (Seq<u8>, nat, nat, bool) {
    let b = encode_utf8(content);
    let starts = line_starts_of(b);
    let r = apply_spans(b, sort_spans(spans_of(b, starts, fs)), b.len() as int);
    (r.0, r.1, unresolved(b, starts, fs) + r.2, r.0 != b)
}

/// Whether an edit that put `after` at a fix's position would bring the
/// fix's old reference back there: `old` begins `after`.
pub open spec fn brings_back(old: Seq<u8>, after: Seq<u8>) -> bool {
    old.len() <= after.len() && after.take(old.len() as int) == old
}

/// The line starts of the first `m` bytes are the first of those of the
/// first `n`; the ones that follow lie past `m`.
proof fn lemma_line_starts_prefix(b: Seq<u8>, m: int, n: int)
    requires
        0 <= m <= n <= b.len(),
    ensures
        line_starts_upto(b, m).len() <= line_starts_upto(b, n).len(),
        line_starts_upto(b, n).take(line_starts_upto(b, m).len() as int) == line_starts_upto(b, m),
        forall|i: int|
            line_starts_upto(b, m).len() <= i < line_starts_upto(b, n).len()
                ==> #[trigger] line_starts_upto(b, n)[i] > m,
    decreases n - m,
{
    if n > m {
        lemma_line_starts_prefix(b, m, n - 1);
        let r = line_starts_upto(b, n - 1);
        let l = line_starts_upto(b, m).len() as int;
        if b[n - 1] == 10u8 {
            assert(r.push(n).take(l) =~= r.take(l));
        }
    } else {
        assert(line_starts_upto(b, n).take(line_starts_upto(b, n).len() as int) =~= line_starts_upto(b, n));
    }
}

/// Texts that agree on their first `m` bytes agree on the line starts
/// found there.
proof fn lemma_line_starts_agree(b: Seq<u8>, b2: Seq<u8>, m: int)
    requires
        0 <= m <= b.len(),
        m <= b2.len(),
        b.take(m) == b2.take(m),
    ensures
        line_starts_upto(b, m) == line_starts_upto(b2, m),
    decreases m,
{
    if m > 0 {
        assert(b.take(m - 1) =~= b.take(m).take(m - 1));
        assert(b2.take(m - 1) =~= b2.take(m).take(m - 1));
        lemma_line_starts_agree(b, b2, m - 1);
        assert(b[m - 1] == b.take(m)[m - 1]);
        assert(b2[m - 1] == b2.take(m)[m - 1]);
    }
}

/// A fix finds the same position in a text that keeps every byte before
/// that position.
proof fn lemma_same_position(b: Seq<u8>, b2: Seq<u8>, f: FixView, s: int)
    requires
        resolve_spec(b, line_starts_of(b), f) == Some(s),
        s <= b2.len(),
        b.take(s) == b2.take(s),
    ensures
        f.offset is None ==> f.line >= 1 && f.line - 1 < line_starts_of(b2).len() && f.column >= 1
            && line_starts_of(b2)[f.line - 1] == line_starts_of(b)[f.line - 1],
{
    if f.offset is None {
        let starts = line_starts_of(b);
        let k = f.line - 1;
        lemma_line_starts_facts(b, b.len() as int);
        lemma_line_starts_prefix(b, s, b.len() as int);
        lemma_line_starts_prefix(b2, s, b2.len() as int);
        lemma_line_starts_agree(b, b2, s);
        let pre = line_starts_upto(b, s);
        assert(k < pre.len()) by {
            if k >= pre.len() {
                assert(starts[k] > s);
            }
        }
        assert(starts[k] == starts.take(pre.len() as int)[k]);
        assert(line_starts_of(b2)[k] == line_starts_of(b2).take(pre.len() as int)[k]);
    }
}

/// Applying a single recorded fix twice does not compound it: once the
/// fix has been made, the second application finds the old reference gone
/// from its position and changes nothing, reporting the fix as skipped.
/// This holds unless the replacement, followed by the rest of the file,
/// itself begins with the old reference (as `a` moved to `ab` does).
pub proof fn lemma_single_fix_applies_once(content: Seq<char>, f: FixView, content2: Seq<char>)
    requires
        resolve_spec(encode_utf8(content), line_starts_of(encode_utf8(content)), f) is Some,
        !brings_back(
            encode_utf8(f.old_reference),
            encode_utf8(f.new_reference) + encode_utf8(content).skip(
                resolve_spec(encode_utf8(content), line_starts_of(encode_utf8(content)), f).unwrap()
                    + encode_utf8(f.old_reference).len(),
            ),
        ),
        encode_utf8(content2) == fix_content_spec(content, seq![f]).0,
    ensures
        fix_content_spec(content, seq![f]).1 == 1,
        fix_content_spec(content2, seq![f]) == (encode_utf8(content2), 0nat, 1nat, false),
{
    let b = encode_utf8(content);
    let starts = line_starts_of(b);
    let s = resolve_spec(b, starts, f).unwrap();
    let old = encode_utf8(f.old_reference);
    let newb = encode_utf8(f.new_reference);
    let e = s + old.len();
    let fs = seq![f];
    lemma_line_starts_facts(b, b.len() as int);
    assert(0 <= s);
    assert(fs.drop_last().len() == 0);
    assert(fs.last() == f);
    assert(spans_of(b, starts, fs.drop_last()) == Seq::<(int, int, Seq<u8>)>::empty());
    assert(span_of(b, starts, f) == Some((s, e, newb)));
    assert(spans_of(b, starts, fs) =~= seq![(s, e, newb)]);
    let one = seq![(s, e, newb)];
    assert(one.drop_last().len() == 0);
    assert(sort_spans(one.drop_last()) == one.drop_last());
    assert(sort_spans(one) == insert_span(seq![], (s, e, newb)));
    assert(sort_spans(one) == one);
    let b1 = b.take(s) + newb + b.skip(e);
    assert(one.drop_first().len() == 0);
    assert(e <= b.len());
    assert(apply_spans(b1, one.drop_first(), s) == (b1, 0nat, 0nat));
    assert(apply_spans(b, one, b.len() as int) == (b1, 1nat, 0nat));
    assert(unresolved(b, starts, fs.drop_last()) == 0);
    assert(unresolved(b, starts, fs) == 0);
    let b2 = encode_utf8(content2);
    assert(b2 == b1);
    assert(b2.take(s) =~= b.take(s));
    lemma_same_position(b, b2, f, s);
    let starts2 = line_starts_of(b2);
    let e2 = s + old.len();
    if e2 <= b2.len() {
        assert(b2.subrange(s, e2) =~= (newb + b.skip(e)).take(old.len() as int));
    }
    assert(resolve_spec(b2, starts2, f) is None);
    assert(spans_of(b2, starts2, fs.drop_last()) == Seq::<(int, int, Seq<u8>)>::empty());
    assert(spans_of(b2, starts2, fs) == Seq::<(int, int, Seq<u8>)>::empty());
    assert(unresolved(b2, starts2, fs.drop_last()) == 0);
    assert(sort_spans(Seq::<(int, int, Seq<u8>)>::empty()) == Seq::<(int, int, Seq<u8>)>::empty());
    assert(unresolved(b2, starts2, fs) == 1);
}

/// No fix of `fs` finds its old reference where it points in `b`.
pub open spec fn none_resolve(b: Seq<u8>, fs: Seq<FixView>) -> bool {
    forall|j: int| 0 <= j < fs.len() ==> resolve_spec(b, line_starts_of(b), #[trigger] fs[j]) is None
}

proof fn lemma_none_resolve_spans(b: Seq<u8>, fs: Seq<FixView>)
    requires
        none_resolve(b, fs),
    ensures
        spans_of(b, line_starts_of(b), fs) == Seq::<(int, int, Seq<u8>)>::empty(),
        unresolved(b, line_starts_of(b), fs) == fs.len(),
    decreases fs.len(),
{
    if fs.len() > 0 {
        let init = fs.drop_last();
        assert forall|j: int| 0 <= j < init.len() implies resolve_spec(
            b,
            line_starts_of(b),
            #[trigger] init[j],
        ) is None by {
            assert(init[j] == fs[j]);
        }
        lemma_none_resolve_spans(b, init);
        assert(fs.last() == fs[fs.len() - 1]);
    }
}

/// Applying a fix record to a text a second time changes nothing and
/// reports every fix as skipped, unless some fix finds its old reference
/// again where it points in the fixed text (a replacement that begins with
/// the old reference, or a position shifted by an earlier edit in the same
/// file, can bring that about).
pub proof fn lemma_record_applies_once(content: Seq<char>, fs: Seq<FixView>, content2: Seq<char>)
    requires
        encode_utf8(content2) == fix_content_spec(content, fs).0,
        none_resolve(encode_utf8(content2), fs),
    ensures
        fix_content_spec(content2, fs) == (encode_utf8(content2), 0nat, fs.len(), false),
{
    let b2 = encode_utf8(content2);
    lemma_none_resolve_spans(b2, fs);
    assert(sort_spans(Seq::<(int, int, Seq<u8>)>::empty()) == Seq::<(int, int, Seq<u8>)>::empty());
    assert(apply_spans(b2, Seq::<(int, int, Seq<u8>)>::empty(), b2.len() as int) == (b2, 0nat, 0nat));
}

/// The file names of groups.
pub open spec fn group_names(r: Seq<(String, Vec<ReferenceFix>)>) -> Seq<Seq<char>> {
    r.map_values(|g: (String, Vec<ReferenceFix>)| g.0@)
}

/// The files the fixes are in, in order.
pub open spec fn fix_files(fs: Seq<ReferenceFix>) -> Seq<Seq<char>> {
    fix_views(fs).map_values(|f: FixView| f.file)
}

/// Applies fixes, grouped per file.
pub struct ReferenceFixer;

proof fn lemma_insert_span_at(s: Seq<(int, int, Seq<u8>)>, x: (int, int, Seq<u8>), p: int)
    requires
        0 <= p <= s.len(),
        forall|j: int| 0 <= j < p ==> (#[trigger] s[j]).0 >= x.0,
        p == s.len() || s[p].0 < x.0,
    ensures
        insert_span(s, x) == s.take(p).push(x) + s.skip(p),
    decreases s.len(),
{
    if s.len() == 0 {
        assert(s.take(p).push(x) + s.skip(p) =~= seq![x]);
    } else if p == 0 {
        assert(s.take(0).push(x) + s.skip(0) =~= seq![x] + s);
    } else {
        let t = s.drop_first();
        assert forall|j: int| 0 <= j < p - 1 implies (#[trigger] t[j]).0 >= x.0 by {
            assert(t[j] == s[j + 1]);
        }
        if p < s.len() {
            assert(t[p - 1] == s[p]);
        }
        lemma_insert_span_at(t, x, p - 1);
        assert(seq![s[0]] + (t.take(p - 1).push(x) + t.skip(p - 1)) =~= s.take(p).push(x) + s.skip(
            p,
        ));
    }
}

/// Whether `b[from..to]` holds exactly `t`.
fn bytes_range_eq(b: &[u8], from: usize, to: usize, t: &[u8]) -> (r: bool)
    requires
        from <= to <= b@.len(),
    ensures
        r == (b@.subrange(from as int, to as int) == t@),
{
    if to - from != t.len() {
        assert(b@.subrange(from as int, to as int).len() != t@.len());
        return false;
    }
    let mut i: usize = 0;
    while i < t.len()
        invariant
            i <= t@.len(),
            from + t@.len() == to,
            to <= b@.len(),
            b@.len() == b.len(),
            forall|j: int| 0 <= j < i ==> b@[from + j] == t@[j],
        decreases t.len() - i,
    {
        if b[from + i] != t[i] {
            assert(b@.subrange(from as int, to as int)[i as int] != t@[i as int]);
            return false;
        }
        i += 1;
    }
    assert(b@.subrange(from as int, to as int) =~= t@);
    true
}

/// `b[..s] + rep + b[e..]`.
fn splice(b: &Vec<u8>, s: usize, e: usize, rep: &[u8]) -> (r: Vec<u8>)
    requires
        s <= e <= b@.len(),
    ensures
        r@ == b@.take(s as int) + rep@ + b@.skip(e as int),
{
    let mut out: Vec<u8> = Vec::new();
    let mut i: usize = 0;
    while i < s
        invariant
            i <= s <= e <= b@.len(),
            out@ == b@.take(i as int),
        decreases s - i,
    {
        out.push(b[i]);
        assert(b@.take(i + 1) =~= b@.take(i as int).push(b@[i as int]));
        i += 1;
    }
    let mut j: usize = 0;
    while j < rep.len()
        invariant
            j <= rep@.len(),
            out@ == b@.take(s as int) + rep@.take(j as int),
        decreases rep.len() - j,
    {
        out.push(rep[j]);
        assert(rep@.take(j + 1) =~= rep@.take(j as int).push(rep@[j as int]));
        j += 1;
    }
    assert(rep@.take(rep@.len() as int) =~= rep@);
    let mut k: usize = e;
    while k < b.len()
        invariant
            e <= k <= b@.len(),
            out@ == b@.take(s as int) + rep@ + b@.subrange(e as int, k as int),
        decreases b.len() - k,
    {
        out.push(b[k]);
        assert(b@.subrange(e as int, k + 1) =~= b@.subrange(e as int, k as int).push(b@[k as int]));
        k += 1;
    }
    assert(b@.subrange(e as int, b@.len() as int) =~= b@.skip(e as int));
    out
}

impl ReferenceFixer {
    /// Where a recorded fix points in the current content, or `None` if the
    /// text there is not what was recorded: a stale record, a file edited
    /// since the scan, or a record already applied all fail this check and
    /// are skipped rather than corrupting the file.
    pub fn resolve_span(content: &str, starts: &[usize], fix: &ReferenceFix) -> (r: Option<usize>)
        requires
            ints(starts@) == line_starts_of(content.spec_bytes()),
        ensures
            match r {
                Some(s) => resolve_spec(content.spec_bytes(), ints(starts@), fix@) == Some(s as int),
                None => resolve_spec(content.spec_bytes(), ints(starts@), fix@) is None,
            },
    {
        let b = content.as_bytes();
        let start: usize = match fix.offset {
            Some(o) => o,
            None => {
                if fix.line < 1 || fix.line - 1 >= starts.len() || fix.column < 1 {
                    return None;
                }
                let ls = starts[fix.line - 1];
                match ls.checked_add(fix.column - 1) {
                    Some(s) => s,
                    None => return None,
                }
            },
        };
        let old = fix.old_reference.as_str().as_bytes();
        let end = match start.checked_add(old.len()) {
            Some(e) => e,
            None => return None,
        };
        if end <= b.len() && content.is_char_boundary(start) && content.is_char_boundary(end)
            && bytes_range_eq(b, start, end, old) {
            Some(start)
        } else {
            None
        }
    }

    /// Applies the fixes of one file to its content, by position: every
    /// fix that resolves is an edit, made from the end of the file
    /// backwards; an edit reaching into one already made is skipped.
    pub fn fix_content(content: &str, fixes: &[ReferenceFix]) -> (r: FileOutcome)
        ensures
            ({
                let spec = fix_content_spec(content@, fix_views(fixes@));
                &&& r.content@ == spec.0
                &&& r.replaced == sat(spec.1)
                &&& r.skipped == sat(spec.2)
                &&& r.modified == spec.3
            }),
    {
        let starts = line_starts(content);
        let b = content.as_bytes();
        let ghost bs = content.spec_bytes();
        let ghost st = ints(starts@);
        let ghost fv = fix_views(fixes@);
        let mut spans: Vec<(usize, usize, usize)> = Vec::new();
        let mut skipped: usize = 0;
        let ghost mut unres: nat = 0;
        let mut i: usize = 0;
        while i < fixes.len()
            invariant
                i <= fixes@.len(),
                bs == content.spec_bytes(),
                st == ints(starts@),
                st == line_starts_of(bs),
                fv == fix_views(fixes@),
                spans@.map_values(|t: (usize, usize, usize)| (t.0 as int, t.1 as int, encode_utf8(fixes@[t.2 as int].new_reference@)))
                    == spans_of(bs, st, fv.take(i as int)),
                forall|k: int| 0 <= k < spans@.len() ==> (#[trigger] spans@[k]).2 < fixes@.len(),
                forall|k: int| 0 <= k < spans@.len() ==> (#[trigger] spans@[k]).0 <= spans@[k].1 <= bs.len(),
                unres == unresolved(bs, st, fv.take(i as int)),
                skipped == sat(unres),
            decreases fixes.len() - i,
        {
            assert(fv.take(i + 1).drop_last() =~= fv.take(i as int));
            assert(fv.take(i + 1).last() == fixes@[i as int]@);
            let ghost before = spans@;
            match ReferenceFixer::resolve_span(content, starts.as_slice(), &fixes[i]) {
                Some(s) => {
                    let e = s + fixes[i].old_reference.as_str().len();
                    spans.push((s, e, i));
                    assert(spans@.map_values(|t: (usize, usize, usize)| (t.0 as int, t.1 as int, encode_utf8(fixes@[t.2 as int].new_reference@)))
                        =~= before.map_values(|t: (usize, usize, usize)| (t.0 as int, t.1 as int, encode_utf8(fixes@[t.2 as int].new_reference@))).push(
                        (s as int, e as int, encode_utf8(fixes@[i as int].new_reference@)),
                    ));
                },
                None => {
                    skipped = skipped.saturating_add(1);
                    proof {
                        unres = unres + 1;
                    }
                },
            }
            i += 1;
        }
        assert(fv.take(fv.len() as int) =~= fv);
        let ghost view_of = |t: (usize, usize, usize)| (t.0 as int, t.1 as int, encode_utf8(fixes@[t.2 as int].new_reference@));
        let ghost all_spans = spans@.map_values(view_of);
        assert(all_spans == spans_of(bs, st, fv));
        // order the spans from the end of the file backwards (stable)
        let mut sorted: Vec<(usize, usize, usize)> = Vec::new();
        let mut k: usize = 0;
        while k < spans.len()
            invariant
                k <= spans@.len(),
                all_spans == spans@.map_values(view_of),
                view_of == (|t: (usize, usize, usize)| (t.0 as int, t.1 as int, encode_utf8(fixes@[t.2 as int].new_reference@))),
                sorted@.map_values(view_of) == sort_spans(all_spans.take(k as int)),
                forall|j: int| 0 <= j < spans@.len() ==> (#[trigger] spans@[j]).2 < fixes@.len(),
                forall|j: int| 0 <= j < spans@.len() ==> (#[trigger] spans@[j]).0 <= spans@[j].1 <= bs.len(),
                forall|j: int| 0 <= j < sorted@.len() ==> (#[trigger] sorted@[j]).2 < fixes@.len(),
                forall|j: int| 0 <= j < sorted@.len() ==> (#[trigger] sorted@[j]).0 <= sorted@[j].1 <= bs.len(),
            decreases spans.len() - k,
        {
            let x = spans[k];
            let ghost before = sorted@.map_values(view_of);
            let ghost bsorted = sorted@;
            let mut p: usize = 0;
            while p < sorted.len() && sorted[p].0 >= x.0
                invariant
                    p <= sorted@.len(),
                    bsorted == sorted@,
                    forall|j: int| 0 <= j < p ==> (#[trigger] sorted@[j]).0 >= x.0,
                decreases sorted.len() - p,
            {
                p += 1;
            }
            proof {
                assert forall|j: int| 0 <= j < p implies (#[trigger] before[j]).0 >= view_of(x).0 by {
                    assert(before[j] == view_of(sorted@[j]));
                }
                if p < before.len() {
                    assert(before[p as int] == view_of(sorted@[p as int]));
                }
                lemma_insert_span_at(before, view_of(x), p as int);
                assert(all_spans.take(k + 1).drop_last() =~= all_spans.take(k as int));
                assert(all_spans.take(k + 1).last() == view_of(x));
            }
            sorted.insert(p, x);
            assert(sorted@.map_values(view_of) =~= before.take(p as int).push(view_of(x)) + before.skip(p as int));
            k += 1;
        }
        assert(all_spans.take(all_spans.len() as int) =~= all_spans);
        let ghost ordered = sorted@.map_values(view_of);
        // apply from the end backwards
        let mut cur: Vec<u8> = crate::step::copy_bytes(b);
        let mut next: usize = b.len();
        let mut replaced: usize = 0;
        let mut overlaps: usize = 0;
        let ghost mut rep_n: nat = 0;
        let ghost mut ov_n: nat = 0;
        let mut j: usize = 0;
        assert(ordered.skip(0) =~= ordered);
        assert(cur@ == bs);
        while j < sorted.len()
            invariant
                j <= sorted@.len(),
                ordered == sorted@.map_values(view_of),
                view_of == (|t: (usize, usize, usize)| (t.0 as int, t.1 as int, encode_utf8(fixes@[t.2 as int].new_reference@))),
                forall|q: int| 0 <= q < sorted@.len() ==> (#[trigger] sorted@[q]).2 < fixes@.len(),
                forall|q: int| 0 <= q < sorted@.len() ==> (#[trigger] sorted@[q]).0 <= sorted@[q].1 <= bs.len(),
                next <= cur@.len(),
                next <= bs.len(),
                apply_spans(bs, ordered, bs.len() as int) == ({
                    let r = apply_spans(cur@, ordered.skip(j as int), next as int);
                    (r.0, r.1 + rep_n, r.2 + ov_n)
                }),
                replaced == sat(rep_n),
                overlaps == sat(ov_n),
            decreases sorted.len() - j,
        {
            let (s, e, fi) = sorted[j];
            assert(ordered.skip(j as int)[0] == view_of(sorted@[j as int]));
            assert(ordered.skip(j as int).drop_first() =~= ordered.skip(j + 1));
            if e > next {
                overlaps = overlaps.saturating_add(1);
                proof {
                    ov_n = ov_n + 1;
                }
            } else {
                let rep = fixes[fi].new_reference.as_str().as_bytes();
                cur = splice(&cur, s, e, rep);
                next = s;
                replaced = replaced.saturating_add(1);
                proof {
                    rep_n = rep_n + 1;
                }
            }
            j += 1;
        }
        assert(ordered.skip(j as int).len() == 0);
        let modified = !crate::step::bytes_eq(cur.as_slice(), b);
        FileOutcome { content: cur, replaced, skipped: skipped.saturating_add(overlaps), modified }
    }

    /// The fixes grouped by file: files in order, each with its fixes in
    /// record order.
    pub fn group_by_file(fix_record: &FixRecord) -> (r: Vec<(String, Vec<ReferenceFix>)>)
        ensures
            strictly_sorted(group_names(r@)),
            forall|x: Seq<char>|
                #[trigger] group_names(r@).contains(x) <==> fix_files(fix_record.fixes@).contains(x),
            forall|k: int|
                0 <= k < r@.len() ==> fix_views((#[trigger] r@[k]).1@) == fix_views(
                    fix_record.fixes@,
                ).filter(|f: FixView| f.file == r@[k].0@),
    {
        let mut names: Vec<String> = Vec::new();
        let mut i: usize = 0;
        while i < fix_record.fixes.len()
            invariant
                i <= fix_record.fixes@.len(),
                strings_view(names@) == fix_views(fix_record.fixes@.take(i as int)).map_values(
                    |f: FixView| f.file,
                ),
            decreases fix_record.fixes.len() - i,
        {
            let ghost before = names@;
            names.push(owned(fix_record.fixes[i].file.as_str()));
            assert(fix_record.fixes@.take(i + 1) =~= fix_record.fixes@.take(i as int).push(
                fix_record.fixes@[i as int],
            ));
            assert(strings_view(names@) =~= strings_view(before).push(fix_record.fixes@[i as int].file@));
            assert(strings_view(names@) =~= fix_views(fix_record.fixes@.take(i + 1)).map_values(
                |f: FixView| f.file,
            ));
            i += 1;
        }
        assert(fix_record.fixes@.take(fix_record.fixes@.len() as int) =~= fix_record.fixes@);
        let files = sorted_unique(names.as_slice());
        let ghost all = fix_views(fix_record.fixes@);
        let mut out: Vec<(String, Vec<ReferenceFix>)> = Vec::new();
        let mut k: usize = 0;
        while k < files.len()
            invariant
                k <= files@.len(),
                all == fix_views(fix_record.fixes@),
                out@.len() == k,
                forall|q: int| 0 <= q < k ==> (#[trigger] out@[q]).0@ == files@[q]@,
                forall|q: int|
                    0 <= q < k ==> fix_views((#[trigger] out@[q]).1@) == all.filter(
                        |f: FixView| f.file == out@[q].0@,
                    ),
            decreases files.len() - k,
        {
            let name = files[k].as_str();
            let ghost pred = |f: FixView| f.file == name@;
            let mut group: Vec<ReferenceFix> = Vec::new();
            let mut j: usize = 0;
            while j < fix_record.fixes.len()
                invariant
                    j <= fix_record.fixes@.len(),
                    all == fix_views(fix_record.fixes@),
                    pred == (|f: FixView| f.file == name@),
                    fix_views(group@) == all.take(j as int).filter(pred),
                decreases fix_record.fixes.len() - j,
            {
                let f = &fix_record.fixes[j];
                proof {
                    all.take(j as int).lemma_filter_push(f@, pred);
                    assert(all.take(j + 1) =~= all.take(j as int).push(f@));
                }
                if str_eq(f.file.as_str(), name) {
                    let ghost before = fix_views(group@);
                    group.push(f.copy());
                    assert(fix_views(group@) =~= before.push(f@));
                }
                j += 1;
            }
            assert(all.take(all.len() as int) =~= all);
            out.push((owned(name), group));
            k += 1;
        }
        proof {
            assert(group_names(out@) =~= strings_view(files@));
            assert(strings_view(names@) == fix_files(fix_record.fixes@));
        }
        out
    }

    /// What would be changed, one line per fix:
    /// "{file}:{line}: '{old}' -> '{new}'".
    pub fn dry_run(fix_record: &FixRecord) -> (r: Vec<String>)
        ensures
            r@.len() == fix_record.fixes@.len(),
            forall|k: int|
                0 <= k < r@.len() ==> (#[trigger] r@[k])@ == fix_record.fixes@[k].file@ + ":"@
                    + decimal(fix_record.fixes@[k].line as nat) + ": '"@
                    + fix_record.fixes@[k].old_reference@ + "' -> '"@
                    + fix_record.fixes@[k].new_reference@ + "'"@,
    {
        let mut out: Vec<String> = Vec::new();
        let mut k: usize = 0;
        while k < fix_record.fixes.len()
            invariant
                k <= fix_record.fixes@.len(),
                out@.len() == k,
                forall|q: int|
                    0 <= q < k ==> (#[trigger] out@[q])@ == fix_record.fixes@[q].file@ + ":"@
                        + decimal(fix_record.fixes@[q].line as nat) + ": '"@
                        + fix_record.fixes@[q].old_reference@ + "' -> '"@
                        + fix_record.fixes@[q].new_reference@ + "'"@,
            decreases fix_record.fixes.len() - k,
        {
            let f = &fix_record.fixes[k];
            let n = usize_text(f.line);
            let mut line = concat3(f.file.as_str(), ":", n.as_str());
            push_str(&mut line, ": '");
            push_str(&mut line, f.old_reference.as_str());
            push_str(&mut line, "' -> '");
            push_str(&mut line, f.new_reference.as_str());
            push_str(&mut line, "'");
            out.push(line);
            k += 1;
        }
        out
    }
}

} // verus!

verus! {

/// The file name of a moved file's old path (the whole path where it has
/// none).
pub open spec fn moved_name(from: Seq<char>) -> Seq<char> {
    match file_name_of(from) {
        Some(n) => n,
        None => from,
    }
}

/// Whether a move after position `k` of `mv` also sets `key`, by its old
/// path or by its file name.
pub open spec fn set_later(mv: Seq<(Seq<char>, Seq<char>)>, k: int, key: Seq<char>) -> bool {
    exists|j: int| k < j < mv.len() && (mv[j].0 == key || moved_name(mv[j].0) == key)
}

/// The map of old references a change record's moves give: each moved
/// file's whole old path and its file name are keys, and each leads to the
/// file's new path unless a later move sets the same key.
pub proof fn lemma_record_keys(mv: Seq<(Seq<char>, Seq<char>)>)
    ensures
        forall|k: int|
            0 <= k < mv.len() ==> {
                let m = moves_map(record_pairs(mv));
                &&& m.dom().contains((#[trigger] mv[k]).0)
                &&& m.dom().contains(moved_name(mv[k].0))
                &&& !set_later(mv, k, mv[k].0) ==> m[mv[k].0] == mv[k].1
                &&& !set_later(mv, k, moved_name(mv[k].0)) ==> m[moved_name(mv[k].0)] == mv[k].1
            },
    decreases mv.len(),
{
    if mv.len() > 0 {
        let init = mv.drop_last();
        lemma_record_keys(init);
        let (from, to) = mv.last();
        let name = moved_name(from);
        let prev = moves_map(record_pairs(init));
        let m = moves_map(record_pairs(mv));
        assert(record_pairs(mv) == if from != name {
            record_pairs(init).push((name, to)).push((from, to))
        } else {
            record_pairs(init).push((name, to))
        });
        if from != name {
            let p1 = record_pairs(init).push((name, to));
            assert(p1.drop_last() == record_pairs(init));
            assert(p1.push((from, to)).drop_last() == p1);
            assert(p1.last() == (name, to));
            assert(p1.push((from, to)).last() == (from, to));
            assert(moves_map(p1) == prev.insert(name, to));
            assert(m == moves_map(p1).insert(from, to));
            assert(m == prev.insert(name, to).insert(from, to));
        } else {
            assert(record_pairs(init).push((name, to)).drop_last() == record_pairs(init));
            assert(m == prev.insert(name, to));
        }
        assert forall|k: int| 0 <= k < mv.len() implies {
            &&& m.dom().contains((#[trigger] mv[k]).0)
            &&& m.dom().contains(moved_name(mv[k].0))
            &&& !set_later(mv, k, mv[k].0) ==> m[mv[k].0] == mv[k].1
            &&& !set_later(mv, k, moved_name(mv[k].0)) ==> m[moved_name(mv[k].0)] == mv[k].1
        } by {
            if k < mv.len() - 1 {
                assert(mv[k] == init[k]);
                let last = mv.len() - 1;
                if !set_later(mv, k, mv[k].0) {
                    assert(!set_later(init, k, init[k].0)) by {
                        if set_later(init, k, init[k].0) {
                            let j = choose|j: int| k < j < init.len() && (init[j].0 == init[k].0
                                || moved_name(init[j].0) == init[k].0);
                            assert(init[j] == mv[j]);
                        }
                    }
                    assert(mv[last].0 != mv[k].0 && moved_name(mv[last].0) != mv[k].0);
                }
                if !set_later(mv, k, moved_name(mv[k].0)) {
                    assert(!set_later(init, k, moved_name(init[k].0))) by {
                        if set_later(init, k, moved_name(init[k].0)) {
                            let j = choose|j: int| k < j < init.len() && (init[j].0 == moved_name(
                                init[k].0,
                            ) || moved_name(init[j].0) == moved_name(init[k].0));
                            assert(init[j] == mv[j]);
                        }
                    }
                    assert(mv[last].0 != moved_name(mv[k].0) && moved_name(mv[last].0)
                        != moved_name(mv[k].0));
                }
            } else {
                assert(mv[k] == mv.last());
            }
        }
    }
}

} // verus!
