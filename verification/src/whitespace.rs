//! Whitespace cleaning: trailing whitespace, trailing blank lines, and a
//! missing final line terminator.

use vstd::prelude::*;
use crate::lines::{first_term_spec, first_terminator, flatten, lines_view, split_lines, split_spec};
use crate::step::{accepted_by_extension, accepts_by_extension, ContentStep, FileTarget};
use crate::text::{
    chars_of, concat3, decimal, is_whitespace, is_ws, owned, push_str, str_eq, string_of_range,
    strings_view, strs, texts, usize_text,
};

verus! {

/// Options for whitespace cleaning.
#[derive(Debug, Clone)]
pub struct WhitespaceOptions {
    /// Remove trailing whitespace from lines
    pub remove_trailing: bool,
    /// Append a line terminator to a non-empty file that lacks one
    pub insert_final_newline: bool,
    /// Remove whitespace-only lines at the end of the file
    pub trim_trailing_blank_lines: bool,
    /// File extensions to process; empty matches every file
    pub file_extensions: Vec<String>,
    /// Process directories recursively
    pub recursive: bool,
    /// Dry run mode (don't modify files)
    pub dry_run: bool,
}

/// The extensions the whitespace cleaner handles by default.
pub open spec fn default_clean_extensions() -> Seq<Seq<char>> {
    texts(
        seq![
            ".py", ".pyx", ".pxd", ".pxi", ".c", ".h", ".cpp", ".hpp", ".rs", ".go", ".java", ".js",
            ".ts", ".jsx", ".tsx", ".md", ".qmd", ".txt",
        ],
    )
}

impl Default for WhitespaceOptions {
    fn default() -> (r: WhitespaceOptions)
        ensures
            r.remove_trailing,
            !r.insert_final_newline,
            !r.trim_trailing_blank_lines,
            strings_view(r.file_extensions@) == default_clean_extensions(),
            r.recursive,
            !r.dry_run,
    {
        let list = [
            ".py", ".pyx", ".pxd", ".pxi", ".c", ".h", ".cpp", ".hpp", ".rs", ".go", ".java", ".js",
            ".ts", ".jsx", ".tsx", ".md", ".qmd", ".txt",
        ];
        assert(list@ =~= seq![
            ".py", ".pyx", ".pxd", ".pxi", ".c", ".h", ".cpp", ".hpp", ".rs", ".go", ".java", ".js",
            ".ts", ".jsx", ".tsx", ".md", ".qmd", ".txt",
        ]);
        WhitespaceOptions {
            remove_trailing: true,
            insert_final_newline: false,
            trim_trailing_blank_lines: false,
            file_extensions: strs(&list),
            recursive: true,
            dry_run: false,
        }
    }
}

/// `s` without trailing whitespace, as `str::trim_end` returns it.
pub open spec fn trim_end(s: Seq<char>) -> Seq<char>
    decreases s.len(),
{
    if s.len() > 0 && is_ws(s.last()) {
        trim_end(s.drop_last())
    } else {
        s
    }
}

/// Every character of `s` is whitespace (`s.trim()` is empty).
pub open spec fn is_blank(s: Seq<char>) -> bool {
    forall|i: int| 0 <= i < s.len() ==> is_ws(s[i])
}

/// The lines with trailing whitespace removed from each body when `remove`.
pub open spec fn trim_bodies(lines: Seq<(Seq<char>, Seq<char>)>, remove: bool) -> Seq<(Seq<char>, Seq<char>)> {
    lines.map_values(
        |p: (Seq<char>, Seq<char>)|
            if remove {
                (trim_end(p.0), p.1)
            } else {
                p
            },
    )
}

/// How many bodies lose trailing whitespace when `remove`.
pub open spec fn trimmed_count(lines: Seq<(Seq<char>, Seq<char>)>, remove: bool) -> nat
    decreases lines.len(),
{
    if lines.len() == 0 || !remove {
        0
    } else {
        trimmed_count(lines.drop_last(), remove) + if trim_end(lines.last().0) != lines.last().0 {
            1nat
        } else {
            0nat
        }
    }
}

/// The lines without their trailing run of whitespace-only lines.
pub open spec fn drop_blank_tail(lines: Seq<(Seq<char>, Seq<char>)>) -> Seq<(Seq<char>, Seq<char>)>
    decreases lines.len(),
{
    if lines.len() > 0 && is_blank(lines.last().0) {
        drop_blank_tail(lines.drop_last())
    } else {
        lines
    }
}

/// How many lines [`drop_blank_tail`] removes.
pub open spec fn blank_tail_count(lines: Seq<(Seq<char>, Seq<char>)>) -> nat
    decreases lines.len(),
{
    if lines.len() > 0 && is_blank(lines.last().0) {
        blank_tail_count(lines.drop_last()) + 1
    } else {
        0
    }
}

/// Whether the last line exists and lacks a terminator.
pub open spec fn lacks_final_newline(lines: Seq<(Seq<char>, Seq<char>)>) -> bool {
    lines.len() > 0 && lines.last().1.len() == 0
}

/// The lines with `term` given to a last line that lacks a terminator.
pub open spec fn with_final_newline(lines: Seq<(Seq<char>, Seq<char>)>, term: Seq<char>) -> Seq<(Seq<char>, Seq<char>)> {
    if lacks_final_newline(lines) {
        lines.update(lines.len() - 1, (lines.last().0, term))
    } else {
        lines
    }
}

/// What the cleaner does, as far as the text is concerned.
pub ghost struct CleanMode {
    pub remove_trailing: bool,
    pub insert_final_newline: bool,
    pub trim_trailing_blank_lines: bool,
}

/// The cleaning mode of a set of options.
pub open spec fn clean_mode(o: WhitespaceOptions) -> CleanMode {
    CleanMode {
        remove_trailing: o.remove_trailing,
        insert_final_newline: o.insert_final_newline,
        trim_trailing_blank_lines: o.trim_trailing_blank_lines,
    }
}

/// The lines after trailing whitespace is removed.
pub open spec fn clean_stage1(o: CleanMode, text: Seq<char>) -> Seq<(Seq<char>, Seq<char>)> {
    trim_bodies(split_spec(text), o.remove_trailing)
}

/// The lines after trailing blank lines are dropped.
pub open spec fn clean_stage2(o: CleanMode, text: Seq<char>) -> Seq<(Seq<char>, Seq<char>)> {
    if o.trim_trailing_blank_lines {
        drop_blank_tail(clean_stage1(o, text))
    } else {
        clean_stage1(o, text)
    }
}

/// The cleaned lines of `text` under `o`.
pub open spec fn clean_lines(o: CleanMode, text: Seq<char>) -> Seq<(Seq<char>, Seq<char>)> {
    if o.insert_final_newline {
        with_final_newline(clean_stage2(o, text), first_term_spec(text))
    } else {
        clean_stage2(o, text)
    }
}

/// The change count: lines trimmed, blank lines dropped, and one for an
/// added final terminator.
pub open spec fn clean_count(o: CleanMode, text: Seq<char>) -> nat {
    trimmed_count(split_spec(text), o.remove_trailing) + (if o.trim_trailing_blank_lines {
        blank_tail_count(clean_stage1(o, text))
    } else {
        0
    }) + (if o.insert_final_newline && lacks_final_newline(clean_stage2(o, text)) {
        1nat
    } else {
        0nat
    })
}

/// A count as a `usize`, saturating at `usize::MAX`.
pub open spec fn sat(n: nat) -> usize {
    if n > usize::MAX {
        usize::MAX
    } else {
        n as usize
    }
}

/// Removing trailing whitespace keeps every line's terminator: only the
/// bodies change.
pub proof fn lemma_trim_keeps_terminators(text: Seq<char>, remove: bool)
    ensures
        trim_bodies(split_spec(text), remove).len() == split_spec(text).len(),
        forall|k: int|
            0 <= k < split_spec(text).len() ==> (#[trigger] trim_bodies(split_spec(text), remove)[k]).1
                == split_spec(text)[k].1,
{
}

/// What cleaning `text` yields as a step.
pub open spec fn clean_transform(o: CleanMode, text: Seq<char>) -> Option<(Seq<char>, usize)> {
    let out = flatten(clean_lines(o, text));
    if out != text {
        Some((out, sat(clean_count(o, text))))
    } else {
        None
    }
}

pub proof fn lemma_flatten_push(l: Seq<(Seq<char>, Seq<char>)>, x: (Seq<char>, Seq<char>))
    ensures
        flatten(l.push(x)) == flatten(l) + x.0 + x.1,
    decreases l.len(),
{
    if l.len() == 0 {
        assert(l.push(x).drop_first() =~= Seq::<(Seq<char>, Seq<char>)>::empty());
        assert(l.push(x)[0] == x);
        assert(flatten(l.push(x).drop_first()) == Seq::<char>::empty());
        assert(flatten(l.push(x)) =~= x.0 + x.1 + Seq::<char>::empty());
        assert(flatten(l.push(x)) =~= flatten(l) + x.0 + x.1);
    } else {
        assert(l.push(x).drop_first() == l.drop_first().push(x));
        lemma_flatten_push(l.drop_first(), x);
        assert(l.push(x)[0] == l[0]);
        assert(flatten(l.push(x)) =~= flatten(l) + x.0 + x.1);
    }
}

proof fn lemma_trim_end_take(s: Seq<char>, k: int)
    requires
        0 <= k <= s.len(),
        forall|j: int| k <= j < s.len() ==> is_ws(#[trigger] s[j]),
        k == 0 || !is_ws(s[k - 1]),
    ensures
        trim_end(s) == s.take(k),
    decreases s.len() - k,
{
    if k == s.len() {
        assert(s.take(k) == s);
    } else {
        let t = s.drop_last();
        assert forall|j: int| k <= j < t.len() implies is_ws(#[trigger] t[j]) by {
            assert(t[j] == s[j]);
        }
        if k > 0 {
            assert(t[k - 1] == s[k - 1]);
        }
        lemma_trim_end_take(t, k);
        assert(t.take(k) == s.take(k));
    }
}

/// `s` without trailing whitespace.
pub fn trim_end_str(s: &str) -> (r: String)
    ensures
        r@ == trim_end(s@),
{
    let c = chars_of(s);
    let mut k: usize = c.len();
    while k > 0 && is_whitespace(c[k - 1])
        invariant
            k <= c@.len(),
            forall|j: int| k <= j < c@.len() ==> is_ws(#[trigger] c@[j]),
        decreases k,
    {
        k -= 1;
    }
    proof {
        lemma_trim_end_take(c@, k as int);
    }
    string_of_range(&c, 0, k)
}

/// Whether every character of `s` is whitespace.
pub fn is_blank_str(s: &str) -> (r: bool)
    ensures
        r == is_blank(s@),
{
    let c = chars_of(s);
    let mut i: usize = 0;
    while i < c.len()
        invariant
            i <= c@.len(),
            forall|j: int| 0 <= j < i ==> is_ws(#[trigger] c@[j]),
            c@ == s@,
        decreases c.len() - i,
    {
        if !is_whitespace(c[i]) {
            assert(!is_ws(s@[i as int]));
            return false;
        }
        i += 1;
    }
    true
}

/// Every body followed by its terminator, in order.
pub fn join_lines(lines: &Vec<(String, String)>) -> (r: String)
    ensures
        r@ == flatten(lines_view(lines@)),
{
    let mut out = String::new();
    let mut i: usize = 0;
    while i < lines.len()
        invariant
            i <= lines@.len(),
            out@ == flatten(lines_view(lines@).take(i as int)),
        decreases lines.len() - i,
    {
        proof {
            assert(lines_view(lines@).take(i + 1) == lines_view(lines@).take(i as int).push(
                lines_view(lines@)[i as int],
            ));
            lemma_flatten_push(lines_view(lines@).take(i as int), lines_view(lines@)[i as int]);
        }
        push_str(&mut out, lines[i].0.as_str());
        push_str(&mut out, lines[i].1.as_str());
        i += 1;
    }
    assert(lines_view(lines@).take(lines@.len() as int) == lines_view(lines@));
    out
}

/// Whitespace cleaner: trailing whitespace, and optionally trailing blank
/// lines and a missing final terminator.
pub struct WhitespaceCleaner {
    options: WhitespaceOptions,
}

impl View for WhitespaceCleaner {
    type V = WhitespaceOptions;

    closed spec fn view(&self) -> WhitespaceOptions {
        self.options
    }
}

impl WhitespaceCleaner {
    /// Creates a new whitespace cleaner with the given options.
    pub fn new(options: WhitespaceOptions) -> (r: WhitespaceCleaner)
        ensures
            r@ == options,
    {
        WhitespaceCleaner { options }
    }

    /// Creates a cleaner with default options.
    pub fn with_defaults() -> (r: WhitespaceCleaner)
        ensures
            r@.remove_trailing,
            !r@.insert_final_newline,
            !r@.trim_trailing_blank_lines,
            strings_view(r@.file_extensions@) == default_clean_extensions(),
            r@.recursive,
            !r@.dry_run,
    {
        WhitespaceCleaner { options: WhitespaceOptions::default() }
    }

    /// The options this cleaner was made with.
    pub fn options(&self) -> (r: &WhitespaceOptions)
        ensures
            *r == self@,
    {
        &self.options
    }
}

impl ContentStep for WhitespaceCleaner {
    open spec fn spec_accepts(&self, file: FileTarget) -> bool {
        accepted_by_extension(file, strings_view(self@.file_extensions@), self@.recursive)
    }

    open spec fn spec_transform(&self, text: Seq<char>, file: FileTarget) -> Option<(Seq<char>, usize)> {
        clean_transform(clean_mode(self@), text)
    }

    open spec fn spec_name(&self) -> Seq<char> {
        "clean"@
    }

    fn name(&self) -> (r: &'static str) {
        "clean"
    }

    fn accepts(&self, file: &FileTarget) -> (r: bool) {
        accepts_by_extension(file, self.options.file_extensions.as_slice(), self.options.recursive)
    }

    fn transform(&self, text: &str, file: &FileTarget) -> (r: Option<(String, usize)>) {
        let ghost o = clean_mode(self@);
        let ghost split = split_spec(text@);
        let lines = split_lines(text);
        let remove = self.options.remove_trailing;
        let mut out: Vec<(String, String)> = Vec::new();
        let mut changed: usize = 0;
        let mut i: usize = 0;
        while i < lines.len()
            invariant
                i <= lines@.len(),
                lines_view(lines@) == split,
                remove == o.remove_trailing,
                lines_view(out@) == trim_bodies(split.take(i as int), remove),
                changed == sat(trimmed_count(split.take(i as int), remove)),
            decreases lines.len() - i,
        {
            let orig = &lines[i].0;
            let body = if remove {
                trim_end_str(orig.as_str())
            } else {
                orig.clone()
            };
            if remove && !str_eq(body.as_str(), orig.as_str()) {
                changed = changed.saturating_add(1);
            }
            let ghost before = out@;
            let term = lines[i].1.clone();
            let ghost entry = (body@, term@);
            out.push((body, term));
            proof {
                let t1 = split.take(i + 1);
                assert(split[i as int] == (lines@[i as int].0@, lines@[i as int].1@));
                assert(entry == if remove { (trim_end(split[i as int].0), split[i as int].1) } else { split[i as int] });
                assert(lines_view(out@) =~= lines_view(before).push(entry));
                assert(t1 =~= split.take(i as int).push(split[i as int]));
                assert(trim_bodies(t1, remove) =~= trim_bodies(split.take(i as int), remove).push(entry));
                assert(t1.drop_last() == split.take(i as int));
            }
            i += 1;
        }
        assert(split.take(lines@.len() as int) == split);
        assert(lines_view(out@) == clean_stage1(o, text@));
        let ghost stage1 = clean_stage1(o, text@);
        let ghost trimmed = trimmed_count(split, remove);
        if self.options.trim_trailing_blank_lines {
            let ghost mut popped: nat = 0;
            while out.len() > 0 && is_blank_str(out[out.len() - 1].0.as_str())
                invariant
                    drop_blank_tail(lines_view(out@)) == drop_blank_tail(stage1),
                    blank_tail_count(stage1) == popped + blank_tail_count(lines_view(out@)),
                    changed == sat(trimmed + popped),
                decreases out.len(),
            {
                let ghost v = lines_view(out@);
                assert(v.last().0 == out@[out@.len() - 1].0@);
                out.pop();
                assert(lines_view(out@) =~= v.drop_last());
                changed = changed.saturating_add(1);
                proof {
                    popped = popped + 1;
                }
            }
            proof {
                let v = lines_view(out@);
                if v.len() > 0 {
                    assert(v.last().0 == out@[out@.len() - 1].0@);
                }
                assert(drop_blank_tail(v) == v);
            }
        }
        assert(lines_view(out@) == clean_stage2(o, text@));
        let ghost stage2 = clean_stage2(o, text@);
        let ghost before_final = changed;
        if self.options.insert_final_newline && out.len() > 0 && out[out.len() - 1].1.as_str().is_empty() {
            let k = out.len() - 1;
            let term = owned(first_terminator(text));
            let body = out[k].0.clone();
            let ghost v = lines_view(out@);
            out.set(k, (body, term));
            assert(lines_view(out@) =~= with_final_newline(v, first_term_spec(text@)));
            changed = changed.saturating_add(1);
        }
        proof {
            if o.insert_final_newline {
                assert(lines_view(out@) == with_final_newline(stage2, first_term_spec(text@)));
            }
            assert(lines_view(out@) == clean_lines(o, text@));
        }
        let output = join_lines(&out);
        if !str_eq(output.as_str(), text) {
            Some((output, changed))
        } else {
            None
        }
    }

    fn transform_bytes(&self, bytes: &[u8], file: &FileTarget) -> (r: Option<(Vec<u8>, usize)>) {
        None
    }

    fn supports_bytes(&self) -> (r: bool) {
        false
    }

    fn describe(&self, units: usize, dry_run: bool) -> (r: String)
        ensures
            r@ == if dry_run {
                "Would clean "@ + decimal(units as nat) + " lines in"@
            } else {
                "Cleaned "@ + decimal(units as nat) + " lines in"@
            },
    {
        let n = usize_text(units);
        if dry_run {
            concat3("Would clean ", n.as_str(), " lines in")
        } else {
            concat3("Cleaned ", n.as_str(), " lines in")
        }
    }
}

} // verus!
