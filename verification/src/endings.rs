//! Line ending normalization.

use vstd::prelude::*;
use crate::step::{accepted_by_extension, accepts_by_extension, ContentStep, FileTarget};
use crate::text::{chars_of, concat3, decimal, push_char, str_eq, string_of, strings_view, strs, texts, usize_text};

verus! {

/// Line ending style.
#[derive(Debug, Clone, Copy, PartialEq, Eq, Structural)]
pub enum LineEnding {
    /// Unix-style: `\n`
    Lf,
    /// Windows-style: `\r\n`
    Crlf,
    /// Classic Mac-style: `\r`
    Cr,
}

/// The names `LineEnding::parse` accepts, and what each denotes.
pub open spec fn parse_ending(s: Seq<char>) -> Option<LineEnding> {
    if s == "lf"@ || s == "LF"@ || s == "unix"@ {
        Some(LineEnding::Lf)
    } else if s == "crlf"@ || s == "CRLF"@ || s == "windows"@ {
        Some(LineEnding::Crlf)
    } else if s == "cr"@ || s == "CR"@ || s == "mac"@ {
        Some(LineEnding::Cr)
    } else {
        None
    }
}

/// The bytes of a line ending.
pub open spec fn ending_bytes(e: LineEnding) -> Seq<u8> {
    match e {
        LineEnding::Lf => seq![10u8],
        LineEnding::Crlf => seq![13u8, 10u8],
        LineEnding::Cr => seq![13u8],
    }
}

/// The characters of a line ending.
pub open spec fn ending_chars(e: LineEnding) -> Seq<char> {
    match e {
        LineEnding::Lf => seq!['\n'],
        LineEnding::Crlf => seq!['\r', '\n'],
        LineEnding::Cr => seq!['\r'],
    }
}

impl LineEnding {
    /// Parse from string representation: `lf`, `LF` or `unix`; `crlf`,
    /// `CRLF` or `windows`; `cr`, `CR` or `mac`.
    pub fn parse(s: &str) -> (r: Option<LineEnding>)
        ensures
            r == parse_ending(s@),
    {
        if str_eq(s, "lf") || str_eq(s, "LF") || str_eq(s, "unix") {
            Some(LineEnding::Lf)
        } else if str_eq(s, "crlf") || str_eq(s, "CRLF") || str_eq(s, "windows") {
            Some(LineEnding::Crlf)
        } else if str_eq(s, "cr") || str_eq(s, "CR") || str_eq(s, "mac") {
            Some(LineEnding::Cr)
        } else {
            None
        }
    }

    /// The bytes of this line ending.
    fn as_bytes(&self) -> (r: Vec<u8>)
        ensures
            r@ == ending_bytes(*self),
    {
        match self {
            LineEnding::Lf => {
                let mut v = Vec::new();
                v.push(10u8);
                v
            },
            LineEnding::Crlf => {
                let mut v = Vec::new();
                v.push(13u8);
                v.push(10u8);
                assert(v@ =~= seq![13u8, 10u8]);
                v
            },
            LineEnding::Cr => {
                let mut v = Vec::new();
                v.push(13u8);
                v
            },
        }
    }
}

/// Options for line ending normalization.
#[derive(Debug, Clone)]
pub struct EndingsOptions {
    /// Target line ending style
    pub style: LineEnding,
    /// File extensions to process; empty matches every file
    pub file_extensions: Vec<String>,
    /// Process directories recursively
    pub recursive: bool,
    /// Dry run mode (don't modify files)
    pub dry_run: bool,
}

/// The extensions the line ending normalizer handles by default.
pub open spec fn default_endings_extensions() -> Seq<Seq<char>> {
    texts(
        seq![
            ".py", ".pyx", ".pxd", ".pxi", ".c", ".h", ".cpp", ".hpp", ".rs", ".go", ".java", ".js",
            ".ts", ".jsx", ".tsx", ".md", ".qmd", ".txt", ".toml", ".yaml", ".yml", ".json", ".xml",
            ".html", ".css", ".sh", ".bat",
        ],
    )
}

impl Default for EndingsOptions {
    fn default() -> (r: EndingsOptions)
        ensures
            r.style == LineEnding::Lf,
            strings_view(r.file_extensions@) == default_endings_extensions(),
            r.recursive,
            !r.dry_run,
    {
        let list = [
            ".py", ".pyx", ".pxd", ".pxi", ".c", ".h", ".cpp", ".hpp", ".rs", ".go", ".java", ".js",
            ".ts", ".jsx", ".tsx", ".md", ".qmd", ".txt", ".toml", ".yaml", ".yml", ".json", ".xml",
            ".html", ".css", ".sh", ".bat",
        ];
        assert(list@ =~= seq![
            ".py", ".pyx", ".pxd", ".pxi", ".c", ".h", ".cpp", ".hpp", ".rs", ".go", ".java", ".js",
            ".ts", ".jsx", ".tsx", ".md", ".qmd", ".txt", ".toml", ".yaml", ".yml", ".json", ".xml",
            ".html", ".css", ".sh", ".bat",
        ]);
        EndingsOptions {
            style: LineEnding::Lf,
            file_extensions: strs(&list),
            recursive: true,
            dry_run: false,
        }
    }
}

/// The line ending that starts `b` (which must start with CR or LF).
pub open spec fn found_ending(b: Seq<u8>) -> LineEnding {
    if b[0] == 13u8 && b.len() > 1 && b[1] == 10u8 {
        LineEnding::Crlf
    } else if b[0] == 13u8 {
        LineEnding::Cr
    } else {
        LineEnding::Lf
    }
}

/// Length of the line ending that starts `b`.
pub open spec fn found_len(b: Seq<u8>) -> int {
    if b[0] == 13u8 && b.len() > 1 && b[1] == 10u8 {
        2
    } else {
        1
    }
}

/// `b` with every line ending (CRLF, lone CR, lone LF) rewritten to `t`.
pub open spec fn norm_bytes(b: Seq<u8>, t: LineEnding) -> Seq<u8>
    decreases b.len(),
{
    if b.len() == 0 {
        seq![]
    } else if b[0] == 13u8 || b[0] == 10u8 {
        ending_bytes(t) + norm_bytes(b.skip(found_len(b)), t)
    } else {
        seq![b[0]] + norm_bytes(b.skip(1), t)
    }
}

/// How many line endings of `b` differ from `t`.
pub open spec fn norm_count(b: Seq<u8>, t: LineEnding) -> nat
    decreases b.len(),
{
    if b.len() == 0 {
        0
    } else if b[0] == 13u8 || b[0] == 10u8 {
        (if found_ending(b) != t { 1nat } else { 0nat }) + norm_count(b.skip(found_len(b)), t)
    } else {
        norm_count(b.skip(1), t)
    }
}

/// The character version of [`norm_bytes`]: the same rewriting over text.
pub open spec fn norm_chars(s: Seq<char>, t: LineEnding) -> Seq<char>
    decreases s.len(),
{
    if s.len() == 0 {
        seq![]
    } else if s[0] == '\r' && s.len() > 1 && s[1] == '\n' {
        ending_chars(t) + norm_chars(s.skip(2), t)
    } else if s[0] == '\r' || s[0] == '\n' {
        ending_chars(t) + norm_chars(s.skip(1), t)
    } else {
        seq![s[0]] + norm_chars(s.skip(1), t)
    }
}

/// The character version of [`norm_count`].
pub open spec fn norm_chars_count(s: Seq<char>, t: LineEnding) -> nat
    decreases s.len(),
{
    if s.len() == 0 {
        0
    } else if s[0] == '\r' && s.len() > 1 && s[1] == '\n' {
        (if t != LineEnding::Crlf { 1nat } else { 0nat }) + norm_chars_count(s.skip(2), t)
    } else if s[0] == '\r' {
        (if t != LineEnding::Cr { 1nat } else { 0nat }) + norm_chars_count(s.skip(1), t)
    } else if s[0] == '\n' {
        (if t != LineEnding::Lf { 1nat } else { 0nat }) + norm_chars_count(s.skip(1), t)
    } else {
        norm_chars_count(s.skip(1), t)
    }
}

/// `b` read left to right as tokens: CRLF, a lone CR, an LF, or any other
/// single byte.
pub open spec fn tokens(b: Seq<u8>) -> Seq<Seq<u8>>
    decreases b.len(),
{
    if b.len() == 0 {
        seq![]
    } else {
        let n = if b[0] == 13u8 || b[0] == 10u8 { found_len(b) } else { 1 };
        seq![b.take(n)] + tokens(b.skip(n))
    }
}

/// A line-ending token.
pub open spec fn is_ending_token(tok: Seq<u8>) -> bool {
    tok == seq![13u8, 10u8] || tok == seq![13u8] || tok == seq![10u8]
}

/// The tokens written one after another, each line-ending token replaced
/// by `t`.
pub open spec fn rewrite_tokens(ts: Seq<Seq<u8>>, t: LineEnding) -> Seq<u8>
    decreases ts.len(),
{
    if ts.len() == 0 {
        seq![]
    } else {
        (if is_ending_token(ts[0]) { ending_bytes(t) } else { ts[0] }) + rewrite_tokens(ts.drop_first(), t)
    }
}

/// The tokens written one after another.
pub open spec fn join_tokens(ts: Seq<Seq<u8>>) -> Seq<u8>
    decreases ts.len(),
{
    if ts.len() == 0 {
        seq![]
    } else {
        ts[0] + join_tokens(ts.drop_first())
    }
}

/// How many line-ending tokens differ from `t`.
pub open spec fn differing_endings(ts: Seq<Seq<u8>>, t: LineEnding) -> nat
    decreases ts.len(),
{
    if ts.len() == 0 {
        0
    } else {
        (if is_ending_token(ts[0]) && ts[0] != ending_bytes(t) { 1nat } else { 0nat })
            + differing_endings(ts.drop_first(), t)
    }
}

/// Normalizing reads the bytes as tokens: the tokens make up the bytes,
/// the result is the tokens with every line ending replaced by `t`, and
/// the count is the number of line endings that differed from `t`.
pub proof fn lemma_normalize_by_tokens(b: Seq<u8>, t: LineEnding)
    ensures
        join_tokens(tokens(b)) == b,
        rewrite_tokens(tokens(b), t) == norm_bytes(b, t),
        differing_endings(tokens(b), t) == norm_count(b, t),
    decreases b.len(),
{
    if b.len() > 0 {
        let eol = b[0] == 13u8 || b[0] == 10u8;
        let n = if eol { found_len(b) } else { 1 };
        let tok = b.take(n);
        lemma_normalize_by_tokens(b.skip(n), t);
        let ts = tokens(b);
        assert(ts[0] == tok);
        assert(ts.drop_first() =~= tokens(b.skip(n)));
        assert(tok + b.skip(n) =~= b);
        if eol {
            if b[0] == 13u8 && b.len() > 1 && b[1] == 10u8 {
                assert(tok =~= seq![13u8, 10u8]);
            } else if b[0] == 13u8 {
                assert(tok =~= seq![13u8]);
            } else {
                assert(tok =~= seq![10u8]);
            }
            assert(is_ending_token(tok));
            assert((tok != ending_bytes(t)) == (found_ending(b) != t));
        } else {
            assert(tok =~= seq![b[0]]);
            assert(!is_ending_token(tok)) by {
                if is_ending_token(tok) {
                    assert(tok[0] == b[0]);
                }
            }
        }
    }
}

proof fn lemma_norm_count_bound(b: Seq<u8>, t: LineEnding)
    ensures
        norm_count(b, t) <= b.len(),
    decreases b.len(),
{
    if b.len() > 0 {
        if b[0] == 13u8 || b[0] == 10u8 {
            lemma_norm_count_bound(b.skip(found_len(b)), t);
        } else {
            lemma_norm_count_bound(b.skip(1), t);
        }
    }
}

proof fn lemma_norm_chars_count_bound(s: Seq<char>, t: LineEnding)
    ensures
        norm_chars_count(s, t) <= s.len(),
    decreases s.len(),
{
    if s.len() > 0 {
        if s[0] == '\r' && s.len() > 1 && s[1] == '\n' {
            lemma_norm_chars_count_bound(s.skip(2), t);
        } else {
            lemma_norm_chars_count_bound(s.skip(1), t);
        }
    }
}

/// With CR as the target no LF survives.
proof fn lemma_norm_cr_has_no_lf(b: Seq<u8>)
    ensures
        !norm_bytes(b, LineEnding::Cr).contains(10u8),
    decreases b.len(),
{
    if b.len() > 0 {
        let rest = if b[0] == 13u8 || b[0] == 10u8 { b.skip(found_len(b)) } else { b.skip(1) };
        lemma_norm_cr_has_no_lf(rest);
        let head = if b[0] == 13u8 || b[0] == 10u8 { seq![13u8] } else { seq![b[0]] };
        let n = norm_bytes(b, LineEnding::Cr);
        assert(n == head + norm_bytes(rest, LineEnding::Cr));
        if n.contains(10u8) {
            let k = choose|k: int| 0 <= k < n.len() && n[k] == 10u8;
            if k >= 1 {
                assert(norm_bytes(rest, LineEnding::Cr)[k - 1] == 10u8);
            }
        }
    }
}

/// Normalizing is idempotent: normalizing again changes nothing and counts
/// no differing ending.
pub proof fn lemma_normalize_idempotent(b: Seq<u8>, t: LineEnding)
    ensures
        norm_bytes(norm_bytes(b, t), t) == norm_bytes(b, t),
        norm_count(norm_bytes(b, t), t) == 0,
    decreases b.len(),
{
    if b.len() > 0 {
        let eol = b[0] == 13u8 || b[0] == 10u8;
        let rest = if eol { b.skip(found_len(b)) } else { b.skip(1) };
        lemma_normalize_idempotent(rest, t);
        let x = norm_bytes(rest, t);
        let head = if eol { ending_bytes(t) } else { seq![b[0]] };
        let n = head + x;
        assert(norm_bytes(b, t) == n);
        if eol {
            match t {
                LineEnding::Lf => {
                    assert(n.skip(1) == x);
                    assert(found_ending(n) == LineEnding::Lf);
                },
                LineEnding::Crlf => {
                    assert(n.skip(2) == x);
                    assert(found_ending(n) == LineEnding::Crlf);
                },
                LineEnding::Cr => {
                    lemma_norm_cr_has_no_lf(rest);
                    if x.len() > 0 {
                        assert(x[0] != 10u8);
                    }
                    assert(n.skip(1) == x);
                    assert(found_ending(n) == LineEnding::Cr);
                },
            }
        } else {
            assert(n.skip(1) == x);
        }
    }
}

/// Line ending normalizer.
pub struct EndingsNormalizer {
    options: EndingsOptions,
}

impl View for EndingsNormalizer {
    type V = EndingsOptions;

    closed spec fn view(&self) -> EndingsOptions {
        self.options
    }
}

impl EndingsNormalizer {
    /// Creates a new normalizer with the given options.
    pub fn new(options: EndingsOptions) -> (r: EndingsNormalizer)
        ensures
            r@ == options,
    {
        EndingsNormalizer { options }
    }

    /// Creates a normalizer with default options.
    pub fn with_defaults() -> (r: EndingsNormalizer)
        ensures
            r@.style == LineEnding::Lf,
            strings_view(r@.file_extensions@) == default_endings_extensions(),
            r@.recursive,
            !r@.dry_run,
    {
        EndingsNormalizer { options: EndingsOptions::default() }
    }

    /// Rewrites every line ending in `bytes` to the target style. Returns the
    /// new bytes and the number of endings that differed.
    pub fn normalize_bytes(&self, bytes: &[u8]) -> (r: (Vec<u8>, usize))
        ensures
            r.0@ == norm_bytes(bytes@, self@.style),
            r.1 == norm_count(bytes@, self@.style),
    {
        let t = self.options.style;
        let target = t.as_bytes();
        let mut changed: usize = 0;
        let mut output: Vec<u8> = Vec::new();
        let mut i: usize = 0;
        let ghost b = bytes@;
        proof {
            lemma_norm_count_bound(b, t);
            assert(b.skip(0) == b);
        }
        while i < bytes.len()
            invariant
                b == bytes@,
                i <= b.len(),
                target@ == ending_bytes(t),
                output@ + norm_bytes(b.skip(i as int), t) == norm_bytes(b, t),
                changed + norm_count(b.skip(i as int), t) == norm_count(b, t),
                norm_count(b, t) <= b.len(),
            decreases bytes.len() - i,
        {
            let ghost r = b.skip(i as int);
            assert(r[0] == b[i as int]);
            if bytes[i] == 13u8 || bytes[i] == 10u8 {
                let len: usize = if bytes[i] == 13u8 && i + 1 < bytes.len() && bytes[i + 1] == 10u8 {
                    2
                } else {
                    1
                };
                assert(found_len(r) == len);
                let found = if len == 2 {
                    LineEnding::Crlf
                } else if bytes[i] == 13u8 {
                    LineEnding::Cr
                } else {
                    LineEnding::Lf
                };
                assert(found == found_ending(r));
                if found != t {
                    changed += 1;
                }
                output.extend_from_slice(target.as_slice());
                assert(r.skip(len as int) == b.skip(i + len));
                i += len;
            } else {
                output.push(bytes[i]);
                assert(r.skip(1) == b.skip(i + 1));
                i += 1;
            }
        }
        (output, changed)
    }
}

impl EndingsNormalizer {
    /// The character version of [`EndingsNormalizer::normalize_bytes`].
    fn normalize_chars(&self, s: &[char]) -> (r: (Vec<char>, usize))
        ensures
            r.0@ == norm_chars(s@, self@.style),
            r.1 == norm_chars_count(s@, self@.style),
    {
        let t = self.options.style;
        let mut changed: usize = 0;
        let mut output: Vec<char> = Vec::new();
        let mut i: usize = 0;
        let ghost b = s@;
        proof {
            lemma_norm_chars_count_bound(b, t);
            assert(b.skip(0) == b);
        }
        while i < s.len()
            invariant
                b == s@,
                i <= b.len(),
                output@ + norm_chars(b.skip(i as int), t) == norm_chars(b, t),
                changed + norm_chars_count(b.skip(i as int), t) == norm_chars_count(b, t),
                norm_chars_count(b, t) <= b.len(),
            decreases s.len() - i,
        {
            let ghost r = b.skip(i as int);
            assert(r[0] == b[i as int]);
            if s[i] == '\r' || s[i] == '\n' {
                let len: usize = if s[i] == '\r' && i + 1 < s.len() && s[i + 1] == '\n' {
                    assert(r[1] == b[i + 1]);
                    2
                } else {
                    1
                };
                let found = if len == 2 {
                    LineEnding::Crlf
                } else if s[i] == '\r' {
                    LineEnding::Cr
                } else {
                    LineEnding::Lf
                };
                if found != t {
                    changed += 1;
                }
                let ghost before = output@;
                match t {
                    LineEnding::Lf => output.push('\n'),
                    LineEnding::Crlf => {
                        output.push('\r');
                        output.push('\n');
                    },
                    LineEnding::Cr => output.push('\r'),
                }
                assert(output@ == before + ending_chars(t));
                assert(r.skip(len as int) == b.skip(i + len));
                i += len;
            } else {
                output.push(s[i]);
                assert(r.skip(1) == b.skip(i + 1));
                i += 1;
            }
        }
        (output, changed)
    }
}

/// What normalizing `text` yields as a step: the rewritten text and the
/// number of differing endings, or `None` when every ending already has
/// the target style.
pub open spec fn endings_transform(text: Seq<char>, t: LineEnding) -> Option<(Seq<char>, usize)> {
    if norm_chars_count(text, t) > 0 {
        Some((norm_chars(text, t), norm_chars_count(text, t) as usize))
    } else {
        None
    }
}

impl ContentStep for EndingsNormalizer {
    open spec fn spec_accepts(&self, file: FileTarget) -> bool {
        accepted_by_extension(file, strings_view(self@.file_extensions@), self@.recursive)
    }

    open spec fn spec_transform(&self, text: Seq<char>, file: FileTarget) -> Option<(Seq<char>, usize)> {
        endings_transform(text, self@.style)
    }

    open spec fn spec_supports_bytes(&self) -> bool {
        true
    }

    open spec fn spec_transform_bytes(&self, bytes: Seq<u8>, file: FileTarget) -> Option<(Seq<u8>, usize)> {
        if norm_count(bytes, self@.style) > 0 {
            Some((norm_bytes(bytes, self@.style), norm_count(bytes, self@.style) as usize))
        } else {
            None
        }
    }

    open spec fn spec_name(&self) -> Seq<char> {
        "endings"@
    }

    fn name(&self) -> (r: &'static str) {
        "endings"
    }

    fn accepts(&self, file: &FileTarget) -> (r: bool) {
        accepts_by_extension(file, self.options.file_extensions.as_slice(), self.options.recursive)
    }

    fn transform(&self, text: &str, file: &FileTarget) -> (r: Option<(String, usize)>) {
        let chars = chars_of(text);
        let (out, changed) = self.normalize_chars(&chars);
        if changed > 0 {
            Some((string_of(&out), changed))
        } else {
            None
        }
    }

    fn transform_bytes(&self, bytes: &[u8], file: &FileTarget) -> (r: Option<(Vec<u8>, usize)>)
        ensures
            match r {
                Some((out, n)) => norm_count(bytes@, self@.style) > 0 && out@ == norm_bytes(
                    bytes@,
                    self@.style,
                ) && n == norm_count(bytes@, self@.style),
                None => norm_count(bytes@, self@.style) == 0,
            },
    {
        let (out, changed) = self.normalize_bytes(bytes);
        if changed > 0 {
            Some((out, changed))
        } else {
            None
        }
    }

    fn supports_bytes(&self) -> (r: bool)
        ensures
            r,
    {
        true
    }

    fn describe(&self, units: usize, dry_run: bool) -> (r: String)
        ensures
            r@ == if dry_run {
                "Would normalize "@ + decimal(units as nat) + " line ending(s) in"@
            } else {
                "Normalized "@ + decimal(units as nat) + " line ending(s) in"@
            },
    {
        let n = usize_text(units);
        if dry_run {
            concat3("Would normalize ", n.as_str(), " line ending(s) in")
        } else {
            concat3("Normalized ", n.as_str(), " line ending(s) in")
        }
    }
}

} // verus!
