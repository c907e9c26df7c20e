//! Indentation normalization: tabs to spaces and spaces to tabs, keeping
//! every line's indentation at the same column.

use vstd::prelude::*;
use crate::lines::{flatten, lines_view, split_lines, split_spec};
use crate::step::{accepted_by_extension, accepts_by_extension, ContentStep, FileTarget};
use crate::text::{chars_of, concat3, decimal, push_char, str_eq, string_of_range, strings_view, strs, texts, usize_text};
use crate::whitespace::{join_lines, sat};

verus! {

/// Indentation style.
#[derive(Debug, Clone, Copy, PartialEq, Eq, Structural)]
pub enum IndentStyle {
    /// Use spaces for indentation
    Spaces,
    /// Use tabs for indentation
    Tabs,
}

/// The names `IndentStyle::parse` accepts.
pub open spec fn parse_indent(s: Seq<char>) -> Option<IndentStyle> {
    if s == "spaces"@ || s == "space"@ {
        Some(IndentStyle::Spaces)
    } else if s == "tabs"@ || s == "tab"@ {
        Some(IndentStyle::Tabs)
    } else {
        None
    }
}

impl IndentStyle {
    /// Parse from string representation: `spaces` or `space`, `tabs` or `tab`.
    pub fn parse(s: &str) -> (r: Option<IndentStyle>)
        ensures
            r == parse_indent(s@),
    {
        if str_eq(s, "spaces") || str_eq(s, "space") {
            Some(IndentStyle::Spaces)
        } else if str_eq(s, "tabs") || str_eq(s, "tab") {
            Some(IndentStyle::Tabs)
        } else {
            None
        }
    }
}

/// Options for indentation normalization.
#[derive(Debug, Clone)]
pub struct IndentOptions {
    /// Target indentation style
    pub style: IndentStyle,
    /// Number of spaces per indent level (the tab width)
    pub width: usize,
    /// File extensions to process; empty matches every file
    pub file_extensions: Vec<String>,
    /// Process directories recursively
    pub recursive: bool,
    /// Dry run mode (don't modify files)
    pub dry_run: bool,
}

/// The extensions the indentation normalizer handles by default.
pub open spec fn default_indent_extensions() -> Seq<Seq<char>> {
    texts(
        seq![
            ".py", ".pyx", ".pxd", ".pxi", ".c", ".h", ".cpp", ".hpp", ".rs", ".go", ".java", ".js",
            ".ts", ".jsx", ".tsx", ".md", ".qmd", ".txt", ".toml", ".yaml", ".yml", ".json", ".xml",
            ".html", ".css",
        ],
    )
}

impl Default for IndentOptions {
    fn default() -> (r: IndentOptions)
        ensures
            r.style == IndentStyle::Spaces,
            r.width == 4,
            strings_view(r.file_extensions@) == default_indent_extensions(),
            r.recursive,
            !r.dry_run,
    {
        let list = [
            ".py", ".pyx", ".pxd", ".pxi", ".c", ".h", ".cpp", ".hpp", ".rs", ".go", ".java", ".js",
            ".ts", ".jsx", ".tsx", ".md", ".qmd", ".txt", ".toml", ".yaml", ".yml", ".json", ".xml",
            ".html", ".css",
        ];
        assert(list@ =~= seq![
            ".py", ".pyx", ".pxd", ".pxi", ".c", ".h", ".cpp", ".hpp", ".rs", ".go", ".java", ".js",
            ".ts", ".jsx", ".tsx", ".md", ".qmd", ".txt", ".toml", ".yaml", ".yml", ".json", ".xml",
            ".html", ".css",
        ]);
        IndentOptions {
            style: IndentStyle::Spaces,
            width: 4,
            file_extensions: strs(&list),
            recursive: true,
            dry_run: false,
        }
    }
}

/// A space or a tab.
pub open spec fn is_indent_char(c: char) -> bool {
    c == ' ' || c == '\t'
}

/// How many spaces and tabs `s` starts with.
pub open spec fn lead_len(s: Seq<char>) -> nat
    decreases s.len(),
{
    if s.len() > 0 && is_indent_char(s[0]) {
        1 + lead_len(s.drop_first())
    } else {
        0
    }
}

/// The column that indentation `lead` reaches with tab stops every `w`
/// columns: a tab moves to the next tab stop, a space one column on.
pub open spec fn col_of(lead: Seq<char>, w: nat) -> nat
    decreases lead.len(),
{
    if lead.len() == 0 {
        0
    } else {
        let c = col_of(lead.drop_last(), w);
        if lead.last() == '\t' {
            (c / w + 1) * w
        } else {
            c + 1
        }
    }
}

/// `n` copies of `c`.
pub open spec fn rep(c: char, n: nat) -> Seq<char> {
    Seq::new(n, |i: int| c)
}

/// Converts the leading whitespace of one line, returning the new line and
/// whether it changed. With `Spaces`, indentation holding a tab becomes
/// that many spaces; with `Tabs`, indentation holding a space becomes tabs
/// to the last tab stop followed by the remaining spaces. A line whose
/// column would exceed `usize::MAX` is left alone.
pub open spec fn convert_line_spec(style: IndentStyle, w: nat, line: Seq<char>) -> (Seq<char>, bool) {
    let k = lead_len(line) as int;
    let lead = line.take(k);
    let rest = line.skip(k);
    let col = col_of(lead, w);
    if k == 0 {
        (line, false)
    } else {
        match style {
            IndentStyle::Spaces => if !lead.contains('\t') || col > usize::MAX {
                (line, false)
            } else {
                (rep(' ', col) + rest, true)
            },
            IndentStyle::Tabs => if !lead.contains(' ') || col > usize::MAX {
                (line, false)
            } else {
                let nl = rep('\t', col / w) + rep(' ', col % w);
                (nl + rest, nl != lead)
            },
        }
    }
}

proof fn lemma_lead_len(s: Seq<char>, k: int)
    requires
        0 <= k <= s.len(),
        forall|j: int| 0 <= j < k ==> is_indent_char(#[trigger] s[j]),
        k == s.len() || !is_indent_char(s[k]),
    ensures
        lead_len(s) == k,
    decreases k,
{
    if k > 0 {
        let t = s.drop_first();
        assert forall|j: int| 0 <= j < k - 1 implies is_indent_char(#[trigger] t[j]) by {
            assert(t[j] == s[j + 1]);
        }
        if k < s.len() {
            assert(t[k - 1] == s[k]);
        }
        lemma_lead_len(t, k - 1);
    }
}

proof fn lemma_col_step(c: nat, w: nat)
    requires
        w > 0,
    ensures
        c < (c / w + 1) * w,
        (c / w + 1) * w <= c + w,
{
    assert(c == w * (c / w) + c % w) by (nonlinear_arith)
        requires
            w > 0,
    ;
    assert(c % w < w) by (nonlinear_arith)
        requires
            w > 0,
    ;
    assert((c / w + 1) * w == w * (c / w) + w) by (nonlinear_arith);
}

proof fn lemma_col_mono(s: Seq<char>, i: int, w: nat)
    requires
        0 <= i <= s.len(),
        w > 0,
    ensures
        col_of(s.take(i), w) <= col_of(s, w),
    decreases s.len() - i,
{
    if i < s.len() {
        lemma_col_mono(s.drop_last(), i, w);
        assert(s.drop_last().take(i) == s.take(i));
        let c = col_of(s.drop_last(), w);
        if s.last() == '\t' {
            lemma_col_step(c, w);
        }
    } else {
        assert(s.take(i) == s);
    }
}

/// The column of a run of spaces is its length.
pub proof fn lemma_col_spaces(n: nat, w: nat)
    ensures
        col_of(rep(' ', n), w) == n,
    decreases n,
{
    if n > 0 {
        assert(rep(' ', n).drop_last() =~= rep(' ', (n - 1) as nat));
        lemma_col_spaces((n - 1) as nat, w);
    }
}

/// `q` tabs reach column `q * w`.
pub proof fn lemma_col_tabs(q: nat, w: nat)
    requires
        w > 0,
    ensures
        col_of(rep('\t', q), w) == q * w,
    decreases q,
{
    if q > 0 {
        assert(rep('\t', q).drop_last() =~= rep('\t', (q - 1) as nat));
        assert(rep('\t', q).last() == '\t');
        lemma_col_tabs((q - 1) as nat, w);
        let c = ((q - 1) * w) as nat;
        assert(col_of(rep('\t', (q - 1) as nat), w) == c);
        assert(c / w == q - 1) by (nonlinear_arith)
            requires
                c == (q - 1) * w,
                w > 0,
                q > 0,
        ;
        assert((c / w + 1) * w == q * w) by (nonlinear_arith)
            requires
                c / w == q - 1,
        ;
        assert(col_of(rep('\t', q), w) == (col_of(rep('\t', q).drop_last(), w) / w + 1) * w);
        assert(col_of(rep('\t', q).drop_last(), w) == c);
        assert(col_of(rep('\t', q), w) == (c / w + 1) * w);
    } else {
        assert(rep('\t', q).len() == 0);
        assert(q * w == 0);
    }
}

/// Spaces after tabs add one column each.
pub proof fn lemma_col_tabs_spaces(q: nat, r: nat, w: nat)
    requires
        w > 0,
    ensures
        col_of(rep('\t', q) + rep(' ', r), w) == q * w + r,
    decreases r,
{
    if r == 0 {
        assert(rep('\t', q) + rep(' ', r) =~= rep('\t', q));
        lemma_col_tabs(q, w);
    } else {
        assert((rep('\t', q) + rep(' ', r)).drop_last() =~= rep('\t', q) + rep(' ', (r - 1) as nat));
        lemma_col_tabs_spaces(q, (r - 1) as nat, w);
    }
}

proof fn lemma_lead_facts(s: Seq<char>)
    ensures
        lead_len(s) <= s.len(),
        forall|j: int| 0 <= j < lead_len(s) ==> is_indent_char(#[trigger] s[j]),
        lead_len(s) < s.len() ==> !is_indent_char(s[lead_len(s) as int]),
    decreases s.len(),
{
    if s.len() > 0 && is_indent_char(s[0]) {
        let t = s.drop_first();
        lemma_lead_facts(t);
        assert forall|j: int| 0 <= j < lead_len(s) implies is_indent_char(#[trigger] s[j]) by {
            if j > 0 {
                assert(s[j] == t[j - 1]);
            }
        }
        if lead_len(s) < s.len() {
            assert(s[lead_len(s) as int] == t[lead_len(t) as int]);
        }
    }
}

/// Indentation `nl` followed by `rest`, which does not start with a space
/// or tab, has `nl` as its indentation.
proof fn lemma_lead_of_concat(nl: Seq<char>, rest: Seq<char>)
    requires
        forall|j: int| 0 <= j < nl.len() ==> is_indent_char(#[trigger] nl[j]),
        rest.len() > 0 ==> !is_indent_char(rest[0]),
    ensures
        lead_len(nl + rest) == nl.len(),
        (nl + rest).take(nl.len() as int) == nl,
        (nl + rest).skip(nl.len() as int) == rest,
{
    let s = nl + rest;
    assert forall|j: int| 0 <= j < nl.len() implies is_indent_char(#[trigger] s[j]) by {
        assert(s[j] == nl[j]);
    }
    if nl.len() < s.len() {
        assert(s[nl.len() as int] == rest[0]);
    }
    lemma_lead_len(s, nl.len() as int);
    assert(s.take(nl.len() as int) =~= nl);
    assert(s.skip(nl.len() as int) =~= rest);
}

/// A nonempty indentation reaches a column past zero.
proof fn lemma_col_positive(s: Seq<char>, w: nat)
    requires
        s.len() > 0,
        w > 0,
    ensures
        col_of(s, w) > 0,
{
    let c = col_of(s.drop_last(), w);
    if s.last() == '\t' {
        lemma_col_step(c, w);
    }
}

/// Conversion keeps every line at its column: the new indentation reaches
/// the same column as the old, the rest of the line is untouched, and
/// converting again changes nothing.
pub proof fn lemma_convert_keeps_column(style: IndentStyle, w: nat, line: Seq<char>)
    requires
        w > 0,
    ensures
        ({
            let k = lead_len(line) as int;
            let out = convert_line_spec(style, w, line).0;
            &&& col_of(out.take(lead_len(out) as int), w) == col_of(line.take(k), w)
            &&& out.skip(lead_len(out) as int) == line.skip(k)
            &&& !convert_line_spec(style, w, out).1
        }),
{
    let k = lead_len(line) as int;
    let lead = line.take(k);
    let rest = line.skip(k);
    let col = col_of(lead, w);
    let r = convert_line_spec(style, w, line);
    let out = r.0;
    lemma_lead_facts(line);
    if k < line.len() {
        assert(rest[0] == line[k]);
    }
    assert(line == lead + rest);
    if out == line {
        if r.1 {
            let nl = match style {
                IndentStyle::Spaces => rep(' ', col),
                IndentStyle::Tabs => rep('\t', col / w) + rep(' ', col % w),
            };
            assert(out == nl + rest);
            assert(nl.len() == lead.len());
            assert(nl =~= (nl + rest).take(nl.len() as int));
            assert(lead =~= (lead + rest).take(lead.len() as int));
            assert(nl == lead);
            if style == IndentStyle::Spaces {
                let j = choose|j: int| 0 <= j < lead.len() && lead[j] == '\t';
                assert(nl[j] == ' ');
            }
        }
    } else {
        assert(k > 0);
        assert(lead.len() > 0);
        lemma_col_positive(lead, w);
        match style {
            IndentStyle::Spaces => {
                let nl = rep(' ', col);
                assert(out == nl + rest);
                lemma_lead_of_concat(nl, rest);
                lemma_col_spaces(col, w);
                assert(!nl.contains('\t'));
            },
            IndentStyle::Tabs => {
                let q = col / w;
                let m = col % w;
                let nl = rep('\t', q) + rep(' ', m);
                assert(out == nl + rest);
                assert forall|j: int| 0 <= j < nl.len() implies is_indent_char(#[trigger] nl[j]) by {
                    if j < q {
                        assert(nl[j] == '\t');
                    } else {
                        assert(nl[j] == ' ');
                    }
                }
                lemma_lead_of_concat(nl, rest);
                lemma_col_tabs_spaces(q, m, w);
                assert(q * w + m == col) by (nonlinear_arith)
                    requires
                        q == col / w,
                        m == col % w,
                        w > 0,
                ;
            },
        }
    }
}

/// The lines of `text` with their indentation converted.
pub open spec fn indent_lines(style: IndentStyle, w: nat, text: Seq<char>) -> Seq<(Seq<char>, Seq<char>)> {
    split_spec(text).map_values(
        |p: (Seq<char>, Seq<char>)| (convert_line_spec(style, w, p.0).0, p.1),
    )
}

/// Converting indentation keeps every line's terminator, and the number of
/// lines.
pub proof fn lemma_indent_keeps_terminators(style: IndentStyle, w: nat, text: Seq<char>)
    ensures
        indent_lines(style, w, text).len() == split_spec(text).len(),
        forall|k: int|
            0 <= k < split_spec(text).len() ==> (#[trigger] indent_lines(style, w, text)[k]).1
                == split_spec(text)[k].1,
{
}

/// How many lines of `lines` conversion changes.
pub open spec fn indent_count(style: IndentStyle, w: nat, lines: Seq<(Seq<char>, Seq<char>)>) -> nat
    decreases lines.len(),
{
    if lines.len() == 0 {
        0
    } else {
        indent_count(style, w, lines.drop_last()) + if convert_line_spec(style, w, lines.last().0).1 {
            1nat
        } else {
            0nat
        }
    }
}

/// What normalizing the indentation of `text` yields as a step.
pub open spec fn indent_transform(style: IndentStyle, w: nat, text: Seq<char>) -> Option<(Seq<char>, usize)> {
    let n = indent_count(style, w, split_spec(text));
    if n > 0 {
        Some((flatten(indent_lines(style, w, text)), sat(n)))
    } else {
        None
    }
}

/// Indentation normalizer.
pub struct IndentNormalizer {
    options: IndentOptions,
}

impl IndentNormalizer {
    /// The tab width is never zero.
    #[verifier::type_invariant]
    spec fn width_positive(self) -> bool {
        self.options.width > 0
    }
}

impl View for IndentNormalizer {
    type V = IndentOptions;

    closed spec fn view(&self) -> IndentOptions {
        self.options
    }
}

impl IndentNormalizer {
    /// Creates a new normalizer with the given options. The width must be
    /// positive: it is the divisor of every tab-stop computation.
    pub fn new(options: IndentOptions) -> (r: IndentNormalizer)
        requires
            options.width > 0,
        ensures
            r@ == options,
    {
        IndentNormalizer { options }
    }

    /// Creates a normalizer with default options.
    pub fn with_defaults() -> (r: IndentNormalizer)
        ensures
            r@.style == IndentStyle::Spaces,
            r@.width == 4,
            strings_view(r@.file_extensions@) == default_indent_extensions(),
            r@.recursive,
            !r@.dry_run,
    {
        IndentNormalizer { options: IndentOptions::default() }
    }

    /// Convert leading whitespace on a single line. Returns the converted
    /// line and whether it changed.
    pub fn convert_line(&self, line: &str) -> (r: (String, bool))
        ensures
            (r.0@, r.1) == convert_line_spec(self@.style, self@.width as nat, line@),
    {
        proof {
            use_type_invariant(self);
        }
        let w = self.options.width;
        let c = chars_of(line);
        let n = c.len();
        let mut k: usize = 0;
        while k < n && (c[k] == ' ' || c[k] == '\t')
            invariant
                k <= n,
                n == c@.len(),
                forall|j: int| 0 <= j < k ==> is_indent_char(#[trigger] c@[j]),
            decreases n - k,
        {
            k += 1;
        }
        proof {
            lemma_lead_len(c@, k as int);
        }
        let ghost lead = c@.take(k as int);
        if k == 0 {
            return (string_of_range(&c, 0, n), false);
        }
        let mut has_tab = false;
        let mut has_space = false;
        let mut i: usize = 0;
        while i < k
            invariant
                i <= k <= n,
                n == c@.len(),
                lead == c@.take(k as int),
                has_tab == exists|j: int| 0 <= j < i && c@[j] == '\t',
                has_space == exists|j: int| 0 <= j < i && c@[j] == ' ',
            decreases k - i,
        {
            if c[i] == '\t' {
                has_tab = true;
            } else if c[i] == ' ' {
                has_space = true;
            }
            i += 1;
        }
        assert(has_tab == lead.contains('\t')) by {
            if has_tab {
                let j = choose|j: int| 0 <= j < k && c@[j] == '\t';
                assert(lead[j] == '\t');
            }
        }
        assert(has_space == lead.contains(' ')) by {
            if has_space {
                let j = choose|j: int| 0 <= j < k && c@[j] == ' ';
                assert(lead[j] == ' ');
            }
        }
        let relevant = match self.options.style {
            IndentStyle::Spaces => has_tab,
            IndentStyle::Tabs => has_space,
        };
        if !relevant {
            assert(c@.subrange(0, n as int) == c@);
            return (string_of_range(&c, 0, n), false);
        }
        let mut col: u128 = 0;
        let mut j: usize = 0;
        while j < k
            invariant
                j <= k <= n,
                n == c@.len(),
                w > 0,
                w == self@.width,
                lead == c@.take(k as int),
                col == col_of(c@.take(j as int), w as nat),
                col <= usize::MAX,
                lead_len(c@) == k,
                c@ == line@,
            decreases k - j,
        {
            assert(c@.take(j + 1).drop_last() == c@.take(j as int));
            assert(c@.take(j + 1).last() == c@[j as int]);
            let next: u128 = if c[j] == '\t' {
                proof {
                    lemma_col_step(col as nat, w as nat);
                }
                (col / (w as u128) + 1) * (w as u128)
            } else {
                col + 1
            };
            assert(next == col_of(c@.take(j + 1), w as nat));
            if next > usize::MAX as u128 {
                proof {
                    assert(lead.take(j + 1) == c@.take(j + 1));
                    lemma_col_mono(lead, j + 1, w as nat);
                    assert(col_of(lead, w as nat) > usize::MAX);
                    assert(c@.subrange(0, n as int) == c@);
                }
                return (string_of_range(&c, 0, n), false);
            }
            col = next;
            j += 1;
        }
        let colu: usize = col as usize;
        let mut out = String::new();
        let mut nl: Vec<char> = Vec::new();
        match self.options.style {
            IndentStyle::Spaces => {
                let mut z: usize = 0;
                while z < colu
                    invariant
                        z <= colu,
                        nl@ == rep(' ', z as nat),
                    decreases colu - z,
                {
                    nl.push(' ');
                    assert(nl@ =~= rep(' ', (z + 1) as nat));
                    z += 1;
                }
            },
            IndentStyle::Tabs => {
                let q = colu / w;
                let m = colu % w;
                let mut z: usize = 0;
                while z < q
                    invariant
                        z <= q,
                        nl@ == rep('\t', z as nat),
                    decreases q - z,
                {
                    nl.push('\t');
                    assert(nl@ =~= rep('\t', (z + 1) as nat));
                    z += 1;
                }
                let mut y: usize = 0;
                while y < m
                    invariant
                        y <= m,
                        nl@ == rep('\t', q as nat) + rep(' ', y as nat),
                    decreases m - y,
                {
                    nl.push(' ');
                    assert(nl@ =~= rep('\t', q as nat) + rep(' ', (y + 1) as nat));
                    y += 1;
                }
            },
        }
        let mut changed = true;
        if self.options.style == IndentStyle::Tabs {
            changed = false;
            if nl.len() != k {
                changed = true;
            } else {
                let mut x: usize = 0;
                while x < k
                    invariant
                        x <= k <= n,
                        n == c@.len(),
                        nl@.len() == k,
                        lead == c@.take(k as int),
                        changed == exists|t: int| 0 <= t < x && nl@[t] != c@[t],
                    decreases k - x,
                {
                    if nl[x] != c[x] {
                        changed = true;
                    }
                    x += 1;
                }
                assert(changed == (nl@ != lead)) by {
                    if !changed {
                        assert(nl@ =~= lead);
                    } else {
                        let t = choose|t: int| 0 <= t < k && nl@[t] != c@[t];
                        assert(nl@[t] != lead[t]);
                    }
                }
            }
        }
        let mut z: usize = 0;
        while z < nl.len()
            invariant
                z <= nl@.len(),
                out@ == nl@.take(z as int),
            decreases nl.len() - z,
        {
            push_char(&mut out, nl[z]);
            assert(nl@.take(z + 1) == nl@.take(z as int).push(nl@[z as int]));
            z += 1;
        }
        assert(nl@.take(nl@.len() as int) == nl@);
        let rest = string_of_range(&c, k, n);
        crate::text::push_str(&mut out, rest.as_str());
        assert(c@.subrange(k as int, n as int) == c@.skip(k as int));
        (out, changed)
    }
}

impl ContentStep for IndentNormalizer {
    open spec fn spec_accepts(&self, file: FileTarget) -> bool {
        accepted_by_extension(file, strings_view(self@.file_extensions@), self@.recursive)
    }

    open spec fn spec_transform(&self, text: Seq<char>, file: FileTarget) -> Option<(Seq<char>, usize)> {
        indent_transform(self@.style, self@.width as nat, text)
    }

    open spec fn spec_name(&self) -> Seq<char> {
        "indent"@
    }

    fn name(&self) -> (r: &'static str) {
        "indent"
    }

    fn accepts(&self, file: &FileTarget) -> (r: bool) {
        accepts_by_extension(file, self.options.file_extensions.as_slice(), self.options.recursive)
    }

    fn transform(&self, text: &str, file: &FileTarget) -> (r: Option<(String, usize)>) {
        let ghost o = self@;
        let ghost split = split_spec(text@);
        let lines = split_lines(text);
        let mut out: Vec<(String, String)> = Vec::new();
        let mut changed: usize = 0;
        let mut i: usize = 0;
        while i < lines.len()
            invariant
                i <= lines@.len(),
                lines_view(lines@) == split,
                o == self@,
                lines_view(out@) == split.take(i as int).map_values(
                    |p: (Seq<char>, Seq<char>)| (convert_line_spec(o.style, o.width as nat, p.0).0, p.1),
                ),
                changed == sat(indent_count(o.style, o.width as nat, split.take(i as int))),
            decreases lines.len() - i,
        {
            let (converted, did) = self.convert_line(lines[i].0.as_str());
            if did {
                changed = changed.saturating_add(1);
            }
            let term = lines[i].1.clone();
            let ghost before = out@;
            let ghost entry = (converted@, term@);
            out.push((converted, term));
            proof {
                let t1 = split.take(i + 1);
                assert(split[i as int] == (lines@[i as int].0@, lines@[i as int].1@));
                assert(t1 =~= split.take(i as int).push(split[i as int]));
                assert(t1.drop_last() == split.take(i as int));
                assert(lines_view(out@) =~= lines_view(before).push(entry));
                assert(t1.map_values(
                    |p: (Seq<char>, Seq<char>)| (convert_line_spec(o.style, o.width as nat, p.0).0, p.1),
                ) =~= split.take(i as int).map_values(
                    |p: (Seq<char>, Seq<char>)| (convert_line_spec(o.style, o.width as nat, p.0).0, p.1),
                ).push(entry));
            }
            i += 1;
        }
        assert(split.take(lines@.len() as int) == split);
        if changed > 0 {
            Some((join_lines(&out), changed))
        } else {
            None
        }
    }

    fn transform_bytes(&self, bytes: &[u8], file: &FileTarget) -> (r: Option<(Vec<u8>, usize)>) {
        None
    }

    fn supports_bytes(&self) -> (r: bool) {
        false
    }

    fn describe(&self, units: usize, dry_run: bool) -> (r: String)
        ensures
            r@ == if dry_run {
                "Would normalize "@ + decimal(units as nat) + " line(s) of indentation in"@
            } else {
                "Normalized "@ + decimal(units as nat) + " line(s) of indentation in"@
            },
    {
        let n = usize_text(units);
        if dry_run {
            concat3("Would normalize ", n.as_str(), " line(s) of indentation in")
        } else {
            concat3("Normalized ", n.as_str(), " line(s) of indentation in")
        }
    }
}

} // verus!
