//! Inserting or updating a header (a license or copyright notice) at the
//! top of source files.
//!
//! An existing header is recognised at the top of the file (after a
//! shebang line and leading blank lines) even when it carries another year
//! or other line terminators; it is then rewritten in place. Otherwise the
//! header is inserted, after a byte-order mark and a shebang line, with the
//! file's own line terminator.

use vstd::prelude::*;
use crate::step::{ContentStep, FileTarget, accepted_by_extension, accepts_by_extension};
use crate::text::{
    chars_of, owned, string_of, string_of_range, strings_view, texts, strs, starts_with,
    first_index, find_first, replaced, replaced_from, replace_str, push_str, push_char,
    lemma_first_index_at,
};
use crate::lines::{
    first_terminator, first_term_spec, is_eol, no_eol, no_lone_cr, lemma_first_term_kind,
    eol_index, lemma_eol_index,
    lemma_first_term_after, lemma_first_term_within, lemma_first_term_front,
};
use crate::error::ReformatError;
use crate::matching::{
    regex_check, regex_is_match, regex_valid, regex_found, regex_escape, regex_escaped,
    regex_replace_all, regex_replaced, regex_error_text,
};
use crate::text::concat2;

verus! {

/// Options for header management.
#[derive(Debug, Clone)]
pub struct HeaderOptions {
    /// The header text to insert (comment markers are part of the text)
    pub text: String,
    /// If true, replace {year} in the header text with the current year
    pub update_year: bool,
    /// File extensions to process; empty matches every file
    pub file_extensions: Vec<String>,
    /// Process directories recursively
    pub recursive: bool,
    /// Dry run mode (don't modify files)
    pub dry_run: bool,
}

/// The extensions the header manager handles by default.
pub open spec fn default_header_extensions() -> Seq<Seq<char>> {
    texts(
        seq![
            ".py", ".pyx", ".pxd", ".pxi", ".c", ".h", ".cpp", ".hpp", ".rs", ".go", ".java", ".js",
            ".ts", ".jsx", ".tsx",
        ],
    )
}

impl Default for HeaderOptions {
    fn default() -> (r: HeaderOptions)
        ensures
            r.text@.len() == 0,
            !r.update_year,
            strings_view(r.file_extensions@) == default_header_extensions(),
            r.recursive,
            !r.dry_run,
    {
        let list = [
            ".py", ".pyx", ".pxd", ".pxi", ".c", ".h", ".cpp", ".hpp", ".rs", ".go", ".java", ".js",
            ".ts", ".jsx", ".tsx",
        ];
        assert(list@ =~= seq![
            ".py", ".pyx", ".pxd", ".pxi", ".c", ".h", ".cpp", ".hpp", ".rs", ".go", ".java", ".js",
            ".ts", ".jsx", ".tsx",
        ]);
        HeaderOptions {
            text: String::new(),
            update_year: false,
            file_extensions: strs(&list),
            recursive: true,
            dry_run: false,
        }
    }
}

/// One element of the pattern that recognises an existing header.
#[derive(Debug, Clone, Copy)]
pub enum Token {
    /// This character, exactly
    Lit(char),
    /// Any decimal digit (a digit of a year)
    Digit,
    /// Any line terminator: CRLF, LF or CR, tried in that order
    Newline,
}

/// Whether the regular-expression class `\d` (Unicode decimal digits)
/// matches `c`, as the regex crate answers: the pattern `\A\d\z` compiles
/// and matches the one-character text `c`.
pub open spec fn is_decimal_digit(c: char) -> bool {
    regex_valid(r"\A\d\z"@) && regex_found(r"\A\d\z"@, seq![c])
}

/// Whether `\d` matches `c`: among ASCII characters exactly the digits
/// `0` to `9`, the ASCII members of the Unicode class; beyond ASCII, what
/// the regex crate's Unicode tables say ([`is_decimal_digit`]).
pub open spec fn digit_class(c: char) -> bool {
    if c <= '\u{7f}' {
        '0' <= c <= '9'
    } else {
        is_decimal_digit(c)
    }
}

/// Whether `\d` matches `c`, as [`digit_class`] says: ASCII characters are
/// decided here, others by the regex crate.
fn regex_decimal_digit(c: char) -> (r: bool)
    ensures
        r == digit_class(c),
        c > '\u{7f}' ==> r == is_decimal_digit(c),
{
    if c <= '\u{7f}' {
        return '0' <= c && c <= '9';
    }
    let pattern = r"\A\d\z";
    match regex_check(pattern) {
        Ok(()) => {
            let mut text = String::new();
            push_char(&mut text, c);
            regex_is_match(pattern, text.as_str())
        },
        Err(_) => false,
    }
}

/// A year in the header at `i`: "19" or "20" and two more digits.
pub open spec fn year_at(h: Seq<char>, i: int) -> bool {
    &&& 0 <= i
    &&& i + 3 < h.len()
    &&& ((h[i] == '1' && h[i + 1] == '9') || (h[i] == '2' && h[i + 1] == '0'))
    &&& digit_class(h[i + 2])
    &&& digit_class(h[i + 3])
}

/// The token a header character stands for outside a year.
pub open spec fn token_of(c: char) -> Token {
    if c == '\n' {
        Token::Newline
    } else {
        Token::Lit(c)
    }
}

/// The recognition pattern of the header from position `i`: years (found
/// left to right) match any four digits, line feeds match any terminator,
/// everything else matches itself.
pub open spec fn pattern_from(h: Seq<char>, i: int) -> Seq<Token>
    decreases h.len() - i,
{
    if i < 0 || i >= h.len() {
        seq![]
    } else if year_at(h, i) {
        seq![Token::Digit, Token::Digit, Token::Digit, Token::Digit] + pattern_from(h, i + 4)
    } else {
        seq![token_of(h[i])] + pattern_from(h, i + 1)
    }
}

/// Where the pattern tokens from `k` on, matched at `pos` of `s`, end; the
/// alternatives of a line terminator are tried in order and the first that
/// lets the rest match is taken.
pub open spec fn match_tokens(t: Seq<Token>, k: int, s: Seq<char>, pos: int) -> Option<int>
    decreases t.len() - k,
{
    if k < 0 || k >= t.len() {
        Some(pos)
    } else {
        match t[k] {
            Token::Lit(c) => if 0 <= pos < s.len() && s[pos] == c {
                match_tokens(t, k + 1, s, pos + 1)
            } else {
                None
            },
            Token::Digit => if 0 <= pos < s.len() && digit_class(s[pos]) {
                match_tokens(t, k + 1, s, pos + 1)
            } else {
                None
            },
            Token::Newline => {
                let a = if 0 <= pos && pos + 1 < s.len() && s[pos] == '\r' && s[pos + 1] == '\n' {
                    match_tokens(t, k + 1, s, pos + 2)
                } else {
                    None
                };
                let b = if 0 <= pos < s.len() && s[pos] == '\n' {
                    match_tokens(t, k + 1, s, pos + 1)
                } else {
                    None
                };
                let c = if 0 <= pos < s.len() && s[pos] == '\r' {
                    match_tokens(t, k + 1, s, pos + 1)
                } else {
                    None
                };
                if a is Some {
                    a
                } else if b is Some {
                    b
                } else {
                    c
                }
            },
        }
    }
}

/// Blank characters that may precede a header.
pub open spec fn is_lead_blank(c: char) -> bool {
    c == '\n' || c == '\r' || c == ' ' || c == '\t'
}

/// How many blank characters follow position `i`.
pub open spec fn blanks_at(s: Seq<char>, i: int) -> nat
    decreases s.len() - i,
{
    if 0 <= i < s.len() && is_lead_blank(s[i]) {
        1 + blanks_at(s, i + 1)
    } else {
        0
    }
}

/// Where the text after a leading shebang line begins (0 without one).
pub open spec fn after_shebang(s: Seq<char>) -> int {
    if starts_with(s, seq!['#', '!']) {
        match first_index(s, '\n') {
            Some(j) => j + 1,
            None => s.len() as int,
        }
    } else {
        0
    }
}

/// Where a header may begin: after a shebang line and leading blanks.
pub open spec fn zone_of(s: Seq<char>) -> int {
    after_shebang(s) + blanks_at(s, after_shebang(s))
}

/// The byte-order mark.
pub open spec fn bom() -> char {
    '\u{FEFF}'
}

/// What the header step makes of `text` for the resolved header `h`.
pub open spec fn header_transform(h: Seq<char>, text: Seq<char>) -> Option<(Seq<char>, usize)> {
    let has_bom = text.len() > 0 && text[0] == bom();
    let lead = if has_bom {
        seq![bom()]
    } else {
        seq![]
    };
    let content = if has_bom {
        text.skip(1)
    } else {
        text
    };
    let nl = first_term_spec(content);
    let header = replaced(h, seq!['\n'], nl);
    let zone = zone_of(content);
    let found = if h.len() > 0 {
        match_tokens(pattern_from(h, 0), 0, content, zone)
    } else {
        None
    };
    match found {
        Some(end) => if content.subrange(zone, end) == header {
            None
        } else {
            Some((lead + content.take(zone) + header + content.skip(end), 1usize))
        },
        None => {
            let split = after_shebang(content);
            let prefix = content.take(split);
            let rest = content.skip(split);
            let pn = if prefix.len() > 0 && prefix.last() != '\n' {
                nl
            } else {
                seq![]
            };
            Some((lead + prefix + pn + header + nl + nl + rest, 1usize))
        },
    }
}

/// The header text with `{year}` replaced by `year` when the options ask
/// for it.
pub open spec fn resolve(o: HeaderOptions, year: Seq<char>) -> Seq<char> {
    if o.update_year {
        replaced(o.text@, "{year}"@, year)
    } else {
        o.text@
    }
}

/// The pattern of a year that header detection lets vary.
pub open spec fn year_regex() -> Seq<char> {
    r"(?:19|20)\d{2}"@
}

/// The regular expression that detects a header `h` in any year and with
/// any line terminator: `h` escaped, each year in it (as [`year_regex`]
/// finds them) replaced by `\d{4}`, each LF by a choice of terminators.
pub open spec fn detector_of(h: Seq<char>) -> Seq<char> {
    replaced(
        regex_replaced(year_regex(), regex_escaped(h), r"\d{4}"@),
        seq!['\n'],
        r"(?:\r\n|\n|\r)"@,
    )
}

/// Whether the regex crate compiles the year pattern and the detector for
/// header `h`.
pub open spec fn detector_compiles(h: Seq<char>) -> bool {
    regex_valid(year_regex()) && regex_valid(detector_of(h))
}

/// The message a header manager fails with when its detector does not
/// compile.
pub open spec fn detector_error(msg: Seq<char>) -> bool {
    exists|x: Seq<char>| msg == "failed to compile header detection regex: "@ + x
}

/// A resolved header as a manager holds it: the options' text with some
/// year filled in, and a detector that compiles unless the text is empty.
pub open spec fn header_resolved(o: HeaderOptions, h: Seq<char>) -> bool {
    &&& exists|y: Seq<char>| h == resolve(o, y)
    &&& (h.len() == 0 || detector_compiles(h))
}

/// A manager for `o` can fail: with some year the resolved text is not
/// empty and its detector does not compile.
pub open spec fn header_fails(o: HeaderOptions, msg: Seq<char>) -> bool {
    &&& exists|y: Seq<char>| resolve(o, y).len() > 0 && !detector_compiles(#[trigger] resolve(o, y))
    &&& detector_error(msg)
}

/// Compiles the detection regex for `header` with the regex crate: `None`
/// when it compiles, the error message otherwise.
fn check_detector(header: &str) -> (r: Option<String>)
    ensures
        r is None <==> detector_compiles(header@),
        r matches Some(m) ==> detector_error(m@),
{
    let year = r"(?:19|20)\d{2}";
    match regex_check(year) {
        Err(e) => {
            let m = concat2("failed to compile header detection regex: ", regex_error_text(&e).as_str());
            Some(m)
        },
        Ok(()) => {
            let escaped = regex_escape(header);
            let with_years = regex_replace_all(year, escaped.as_str(), r"\d{4}");
            proof {
                reveal_strlit("\n");
                assert("\n"@ =~= seq!['\n']);
            }
            let flexible = replace_str(with_years.as_str(), "\n", r"(?:\r\n|\n|\r)");
            match regex_check(flexible.as_str()) {
                Err(e) => {
                    let m = concat2(
                        "failed to compile header detection regex: ",
                        regex_error_text(&e).as_str(),
                    );
                    Some(m)
                },
                Ok(()) => None,
            }
        },
    }
}

/// The current year in UTC, from `chrono::Utc::now()` formatted with
/// `%Y`. The clock decides the value, so nothing is stated of it.
#[verifier::external_body]
fn current_year() -> String {
    chrono::Utc::now().format("%Y").to_string()
}

/// Inserts or updates headers at the top of source files.
pub struct HeaderManager {
    options: HeaderOptions,
    resolved_header: String,
}

impl View for HeaderManager {
    type V = (HeaderOptions, Seq<char>);

    /// The options, and the header text with the year filled in.
    closed spec fn view(&self) -> (HeaderOptions, Seq<char>) {
        (self.options, self.resolved_header@)
    }
}

fn pattern_tokens(h: &[char]) -> (r: Vec<Token>)
    ensures
        r@ == pattern_from(h@, 0),
{
    let mut out: Vec<Token> = Vec::new();
    let mut i: usize = 0;
    while i < h.len()
        invariant
            i <= h@.len(),
            pattern_from(h@, 0) == out@ + pattern_from(h@, i as int),
        decreases h.len() - i,
    {
        let ghost before = out@;
        let year = h.len() - i > 3 && ((h[i] == '1' && h[i + 1] == '9') || (h[i] == '2' && h[i + 1]
            == '0')) && regex_decimal_digit(h[i + 2]) && regex_decimal_digit(h[i + 3]);
        assert(year == year_at(h@, i as int));
        if year {
            out.push(Token::Digit);
            out.push(Token::Digit);
            out.push(Token::Digit);
            out.push(Token::Digit);
            assert(out@ + pattern_from(h@, i + 4) =~= before + pattern_from(h@, i as int));
            i = i + 4;
        } else {
            let c = h[i];
            let t = if c == '\n' {
                Token::Newline
            } else {
                Token::Lit(c)
            };
            assert(t == token_of(h@[i as int]));
            out.push(t);
            assert(out@ + pattern_from(h@, i + 1) =~= before + pattern_from(h@, i as int));
            i = i + 1;
        }
    }
    assert(out@ + pattern_from(h@, i as int) =~= out@);
    out
}

proof fn lemma_match_bounds(t: Seq<Token>, k: int, s: Seq<char>, pos: int)
    requires
        0 <= pos <= s.len(),
    ensures
        match_tokens(t, k, s, pos) matches Some(e) ==> pos <= e <= s.len(),
    decreases t.len() - k,
{
    if 0 <= k < t.len() {
        if pos + 2 <= s.len() {
            lemma_match_bounds(t, k + 1, s, pos + 2);
        }
        if pos + 1 <= s.len() {
            lemma_match_bounds(t, k + 1, s, pos + 1);
        }
    }
}

fn match_tokens_at(t: &[Token], k: usize, s: &[char], pos: usize) -> (r: Option<usize>)
    requires
        k <= t@.len(),
        pos <= s@.len(),
    ensures
        match r {
            Some(e) => match_tokens(t@, k as int, s@, pos as int) == Some(e as int) && pos <= e
                <= s@.len(),
            None => match_tokens(t@, k as int, s@, pos as int) is None,
        },
    decreases t@.len() - k,
{
    proof {
        lemma_match_bounds(t@, k as int, s@, pos as int);
    }
    if k >= t.len() {
        return Some(pos);
    }
    match t[k] {
        Token::Lit(c) => {
            if pos < s.len() && s[pos] == c {
                match_tokens_at(t, k + 1, s, pos + 1)
            } else {
                None
            }
        },
        Token::Digit => {
            if pos < s.len() && regex_decimal_digit(s[pos]) {
                match_tokens_at(t, k + 1, s, pos + 1)
            } else {
                None
            }
        },
        Token::Newline => {
            if pos < s.len() && s.len() - pos > 1 && s[pos] == '\r' && s[pos + 1] == '\n' {
                let a = match_tokens_at(t, k + 1, s, pos + 2);
                if a.is_some() {
                    return a;
                }
            }
            if pos < s.len() && s[pos] == '\n' {
                let b = match_tokens_at(t, k + 1, s, pos + 1);
                if b.is_some() {
                    return b;
                }
            }
            if pos < s.len() && s[pos] == '\r' {
                match_tokens_at(t, k + 1, s, pos + 1)
            } else {
                None
            }
        },
    }
}

/// Position after a leading shebang line (0 without one).
fn after_shebang_at(s: &[char]) -> (r: usize)
    ensures
        r == after_shebang(s@),
        r <= s@.len(),
{
    let bang = ['#', '!'];
    assert(bang@ =~= seq!['#', '!']);
    if crate::text::has_prefix(s, &bang) {
        proof {
            lemma_first_index_in(s@, '\n');
        }
        match find_first(s, '\n') {
            Some(j) => {
                assert(j < s.len());
                j + 1
            },
            None => s.len(),
        }
    } else {
        0
    }
}

proof fn lemma_first_index_in(s: Seq<char>, c: char)
    ensures
        first_index(s, c) matches Some(i) ==> 0 <= i < s.len(),
    decreases s.len(),
{
    if s.len() > 0 && s[0] != c {
        lemma_first_index_in(s.drop_first(), c);
    }
}

impl HeaderManager {
    /// Creates a header manager; with `update_year` the `{year}` template
    /// is filled with the current year, whichever the clock reports. Fails
    /// when the regular expression that detects the header (in any year,
    /// with any line terminator) does not compile.
    pub fn new(options: HeaderOptions) -> (r: Result<HeaderManager, ReformatError>)
        ensures
            r matches Ok(m) ==> m@.0 == options && (!options.update_year ==> m@.1 == options.text@)
                && header_resolved(options, m@.1),
            r matches Err(e) ==> header_fails(options, e@),
            !options.update_year ==> (r is Ok <==> (options.text@.len() == 0 || detector_compiles(
                options.text@,
            ))),
    {
        let year = current_year();
        let m = HeaderManager::with_year(options, year.as_str());
        if !m.resolved_header.as_str().is_empty() {
            if let Some(msg) = check_detector(m.resolved_header.as_str()) {
                return Err(ReformatError::new(msg));
            }
        }
        Ok(m)
    }

    /// Creates a header manager that fills the `{year}` template (when the
    /// options ask for it) with `year`.
    pub fn with_year(options: HeaderOptions, year: &str) -> (r: HeaderManager)
        ensures
            r@.0 == options,
            r@.1 == resolve(options, year@),
    {
        let resolved_header = if options.update_year {
            proof {
                reveal_strlit("{year}");
            }
            replace_str(options.text.as_str(), "{year}", year)
        } else {
            owned(options.text.as_str())
        };
        HeaderManager { options, resolved_header }
    }

    /// The options this manager runs with.
    pub fn options(&self) -> (r: &HeaderOptions)
        ensures
            *r == self@.0,
    {
        &self.options
    }

    /// The header text with the year filled in.
    pub fn resolved_header(&self) -> (r: &str)
        ensures
            r@ == self@.1,
    {
        self.resolved_header.as_str()
    }

    /// Position at which a header may legitimately begin: the start of the
    /// text, skipping a shebang line and any leading blank lines (counted
    /// in characters).
    pub fn header_zone(content: &str) -> (r: usize)
        ensures
            r == zone_of(content@),
            r <= content@.len(),
    {
        let s = chars_of(content);
        let pos = after_shebang_at(s.as_slice());
        let mut j: usize = pos;
        while j < s.len() && (s[j] == '\n' || s[j] == '\r' || s[j] == ' ' || s[j] == '\t')
            invariant
                pos <= j <= s@.len(),
                s@ == content@,
                blanks_at(s@, pos as int) == (j - pos) + blanks_at(s@, j as int),
            decreases s.len() - j,
        {
            j += 1;
        }
        j
    }
}

/// Whether `s[from..to]` holds exactly the characters of `t`.
fn range_equals(s: &[char], from: usize, to: usize, t: &[char]) -> (r: bool)
    requires
        from <= to <= s@.len(),
    ensures
        r == (s@.subrange(from as int, to as int) == t@),
{
    if to - from != t.len() {
        assert(s@.subrange(from as int, to as int).len() != t@.len());
        return false;
    }
    let mut i: usize = 0;
    while i < t.len()
        invariant
            i <= t@.len(),
            from + t@.len() == to,
            to <= s@.len(),
            s@.len() == s.len(),
            forall|j: int| 0 <= j < i ==> s@[from + j] == t@[j],
        decreases t.len() - i,
    {
        if s[from + i] != t[i] {
            assert(s@.subrange(from as int, to as int)[i as int] != t@[i as int]);
            return false;
        }
        i += 1;
    }
    assert(s@.subrange(from as int, to as int) =~= t@);
    true
}

impl ContentStep for HeaderManager {
    open spec fn spec_accepts(&self, file: FileTarget) -> bool {
        self@.1.len() > 0 && accepted_by_extension(
            file,
            strings_view(self@.0.file_extensions@),
            self@.0.recursive,
        )
    }

    open spec fn spec_transform(&self, text: Seq<char>, file: FileTarget) -> Option<(Seq<char>, usize)> {
        header_transform(self@.1, text)
    }

    open spec fn spec_name(&self) -> Seq<char> {
        "header"@
    }

    fn name(&self) -> (r: &'static str) {
        "header"
    }

    fn accepts(&self, file: &FileTarget) -> (r: bool) {
        !self.resolved_header.as_str().is_empty() && accepts_by_extension(
            file,
            self.options.file_extensions.as_slice(),
            self.options.recursive,
        )
    }

    fn transform(&self, text: &str, file: &FileTarget) -> (r: Option<(String, usize)>) {
        let all = chars_of(text);
        let has_bom = all.len() > 0 && all[0] == '\u{FEFF}';
        let start: usize = if has_bom {
            1
        } else {
            0
        };
        let content_str = string_of_range(all.as_slice(), start, all.len());
        assert(content_str@ == if has_bom {
            text@.skip(1)
        } else {
            text@
        }) by {
            assert(all@.subrange(start as int, all@.len() as int) =~= all@.skip(start as int));
        }
        let content = chars_of(content_str.as_str());
        let nl = first_terminator(content_str.as_str());
        proof {
            reveal_strlit("\n");
        }
        assert("\n"@ =~= seq!['\n']);
        let header = replace_str(self.resolved_header.as_str(), "\n", nl);
        let header_chars = chars_of(header.as_str());
        let zone = HeaderManager::header_zone(content_str.as_str());
        let ghost spec_content = if has_bom {
            text@.skip(1)
        } else {
            text@
        };
        assert(has_bom == (text@.len() > 0 && text@[0] == bom()));
        assert(content@ == spec_content);
        let mut lead = String::new();
        if has_bom {
            push_char(&mut lead, '\u{FEFF}');
        }
        assert(lead@ =~= if has_bom { seq![bom()] } else { seq![] });
        if !self.resolved_header.as_str().is_empty() {
            let h = chars_of(self.resolved_header.as_str());
            let tokens = pattern_tokens(h.as_slice());
            let found = match_tokens_at(tokens.as_slice(), 0, content.as_slice(), zone);
            assert(h@ == self@.1);
            if let Some(end) = found {
                if range_equals(content.as_slice(), zone, end, header_chars.as_slice()) {
                    return None;
                }
                let mut out = lead;
                push_str(&mut out, string_of_range(content.as_slice(), 0, zone).as_str());
                push_str(&mut out, header.as_str());
                push_str(&mut out, string_of_range(content.as_slice(), end, content.len()).as_str());
                assert(content@.subrange(0, zone as int) =~= content@.take(zone as int));
                assert(content@.subrange(end as int, content@.len() as int) =~= content@.skip(
                    end as int,
                ));
                return Some((out, 1));
            }
        }
        let split = after_shebang_at(content.as_slice());
        let mut out = lead;
        let prefix = string_of_range(content.as_slice(), 0, split);
        push_str(&mut out, prefix.as_str());
        let ghost pn: Seq<char> = if split > 0 && content@[split - 1] != '\n' {
            nl@
        } else {
            seq![]
        };
        if split > 0 && content[split - 1] != '\n' {
            push_str(&mut out, nl);
        }
        push_str(&mut out, header.as_str());
        push_str(&mut out, nl);
        push_str(&mut out, nl);
        push_str(&mut out, string_of_range(content.as_slice(), split, content.len()).as_str());
        proof {
            let c = content@;
            assert(c.subrange(0, split as int) =~= c.take(split as int));
            assert(c.subrange(split as int, c.len() as int) =~= c.skip(split as int));
            if split > 0 {
                assert(c.take(split as int).last() == c[split - 1]);
            }
        }
        Some((out, 1))
    }

    fn transform_bytes(&self, bytes: &[u8], file: &FileTarget) -> (r: Option<(Vec<u8>, usize)>) {
        None
    }

    fn supports_bytes(&self) -> (r: bool) {
        false
    }

    fn describe(&self, units: usize, dry_run: bool) -> (r: String)
        ensures
            r@ == if dry_run {
                "Would update header in"@
            } else {
                "Updated header in"@
            },
    {
        if dry_run {
            owned("Would update header in")
        } else {
            owned("Updated header in")
        }
    }
}


/// The header with each line feed written as `nl`.
pub open spec fn written(h: Seq<char>, i: int, nl: Seq<char>) -> Seq<char> {
    replaced_from(h, i, seq!['\n'], nl)
}

proof fn lemma_written_step(h: Seq<char>, i: int, nl: Seq<char>)
    requires
        0 <= i < h.len(),
    ensures
        written(h, i, nl) == (if h[i] == '\n' {
            nl
        } else {
            seq![h[i]]
        }) + written(h, i + 1, nl),
{
    let nlc: Seq<char> = seq!['\n'];
    assert(h.skip(i).take(1) =~= seq![h[i]]);
    if h[i] == '\n' {
        assert(seq![h[i]] =~= nlc);
        assert(starts_with(h.skip(i), nlc));
    } else {
        assert(seq![h[i]][0] != nlc[0]);
        assert(!starts_with(h.skip(i), nlc));
    }
}

/// Without line feeds from `i` on, writing changes nothing.
proof fn lemma_written_plain(h: Seq<char>, i: int, nl: Seq<char>)
    requires
        0 <= i <= h.len(),
        forall|k: int| i <= k < h.len() ==> h[k] != '\n',
    ensures
        written(h, i, nl) == h.skip(i),
    decreases h.len() - i,
{
    if i < h.len() {
        lemma_written_step(h, i, nl);
        lemma_written_plain(h, i + 1, nl);
        assert(seq![h[i]] + h.skip(i + 1) =~= h.skip(i));
    } else {
        assert(h.skip(i) =~= Seq::<char>::empty());
    }
}

/// Up to the first line feed at `k`, writing copies the header.
proof fn lemma_written_to_nl(h: Seq<char>, i: int, k: int, nl: Seq<char>)
    requires
        0 <= i <= k < h.len(),
        h[k] == '\n',
        forall|j: int| i <= j < k ==> h[j] != '\n',
    ensures
        written(h, i, nl) == h.subrange(i, k) + nl + written(h, k + 1, nl),
    decreases k - i,
{
    lemma_written_step(h, i, nl);
    if i < k {
        lemma_written_to_nl(h, i + 1, k, nl);
        assert(seq![h[i]] + h.subrange(i + 1, k) =~= h.subrange(i, k));
    } else {
        assert(h.subrange(i, k) =~= Seq::<char>::empty());
    }
}

proof fn lemma_match_skip(t: Seq<Token>, k: int, s: Seq<char>, pos: int)
    requires
        0 <= k <= t.len(),
    ensures
        match_tokens(t, k, s, pos) == match_tokens(t.skip(k), 0, s, pos),
    decreases t.len() - k, 1int,
{
    if k < t.len() {
        let u = t.skip(k);
        assert(u[0] == t[k]);
        assert(u.skip(1) =~= t.skip(k + 1));
        lemma_match_skip(t, k + 1, s, pos + 1);
        lemma_match_skip(t, k + 1, s, pos + 2);
        lemma_match_skip_one(u, s, pos + 1);
        lemma_match_skip_one(u, s, pos + 2);
    } else {
        assert(t.skip(k).len() == 0);
    }
}

proof fn lemma_match_skip_one(u: Seq<Token>, s: Seq<char>, pos: int)
    requires
        1 <= u.len(),
    ensures
        match_tokens(u, 1, s, pos) == match_tokens(u.skip(1), 0, s, pos),
    decreases u.len(), 0int,
{
    lemma_match_skip(u, 1, s, pos);
}

/// A year's characters are not line feeds.
proof fn lemma_year_plain(h: Seq<char>, i: int)
    requires
        year_at(h, i),
    ensures
        h[i] != '\n' && h[i + 1] != '\n' && h[i + 2] != '\n' && h[i + 3] != '\n',
        digit_class(h[i]) && digit_class(h[i + 1]),
{
}

/// The pattern of a header matches the header as written with LF or CRLF
/// terminators, ending right after it.
proof fn lemma_header_matches(h: Seq<char>, i: int, nl: Seq<char>, s: Seq<char>, pos: int)
    requires
        0 <= i <= h.len(),
        forall|k: int| 0 <= k < h.len() ==> h[k] != '\r',
        nl == seq!['\n'] || nl == seq!['\r', '\n'],
        0 <= pos,
        pos + written(h, i, nl).len() <= s.len(),
        s.subrange(pos, pos + written(h, i, nl).len()) == written(h, i, nl),
    ensures
        match_tokens(pattern_from(h, i), 0, s, pos) == Some(pos + written(h, i, nl).len()),
    decreases h.len() - i,
{
    let w = written(h, i, nl);
    if i >= h.len() {
        assert(pattern_from(h, i).len() == 0);
    } else {
        let t = pattern_from(h, i);
        if year_at(h, i) {
            lemma_year_plain(h, i);
            lemma_written_step(h, i, nl);
            lemma_written_step(h, i + 1, nl);
            lemma_written_step(h, i + 2, nl);
            lemma_written_step(h, i + 3, nl);
            let rest = written(h, i + 4, nl);
            assert(w =~= seq![h[i], h[i + 1], h[i + 2], h[i + 3]] + rest);
            assert(s[pos] == w[0]);
            assert(s[pos + 1] == w[1]);
            assert(s[pos + 2] == w[2]);
            assert(s[pos + 3] == w[3]);
            assert(s.subrange(pos + 4, pos + 4 + rest.len()) =~= rest) by {
                assert forall|j: int| 0 <= j < rest.len() implies s.subrange(
                    pos + 4,
                    pos + 4 + rest.len(),
                )[j] == rest[j] by {
                    assert(s[pos + 4 + j] == s.subrange(pos, pos + w.len())[4 + j]);
                }
            }
            lemma_header_matches(h, i + 4, nl, s, pos + 4);
            assert(t.skip(4) =~= pattern_from(h, i + 4));
            lemma_match_skip(t, 4, s, pos + 4);
            assert(t[3] == Token::Digit);
            assert(match_tokens(t, 3, s, pos + 3) == match_tokens(t, 4, s, pos + 4));
            assert(match_tokens(t, 2, s, pos + 2) == match_tokens(t, 3, s, pos + 3));
            assert(match_tokens(t, 1, s, pos + 1) == match_tokens(t, 2, s, pos + 2));
            assert(match_tokens(t, 0, s, pos) == match_tokens(t, 1, s, pos + 1));
        } else {
            lemma_written_step(h, i, nl);
            let rest = written(h, i + 1, nl);
            let lead: Seq<char> = if h[i] == '\n' {
                nl
            } else {
                seq![h[i]]
            };
            let n = lead.len() as int;
            assert(w =~= lead + rest);
            assert(forall|j: int| 0 <= j < w.len() ==> s[pos + j] == #[trigger] w[j]) by {
                assert forall|j: int| 0 <= j < w.len() implies s[pos + j] == #[trigger] w[j] by {
                    assert(s.subrange(pos, pos + w.len())[j] == s[pos + j]);
                }
            }
            assert(s.subrange(pos + n, pos + n + rest.len()) =~= rest) by {
                assert forall|j: int| 0 <= j < rest.len() implies s.subrange(
                    pos + n,
                    pos + n + rest.len(),
                )[j] == rest[j] by {
                    assert(w[n + j] == rest[j]);
                }
            }
            lemma_header_matches(h, i + 1, nl, s, pos + n);
            assert(t.skip(1) =~= pattern_from(h, i + 1));
            lemma_match_skip(t, 1, s, pos + n);
            assert(w[0] == lead[0]);
            if h[i] == '\n' {
                assert(t[0] == Token::Newline);
                if nl.len() == 2 {
                    assert(w[1] == lead[1]);
                }
            } else {
                assert(t[0] == Token::Lit(h[i]));
            }
        }
    }
}


proof fn lemma_first_index_props(s: Seq<char>, c: char)
    ensures
        match first_index(s, c) {
            Some(k) => 0 <= k < s.len() && s[k] == c && forall|j: int| 0 <= j < k ==> s[j] != c,
            None => forall|j: int| 0 <= j < s.len() ==> s[j] != c,
        },
    decreases s.len(),
{
    if s.len() > 0 && s[0] != c {
        let t = s.drop_first();
        lemma_first_index_props(t, c);
        match first_index(t, c) {
            Some(k) => {
                assert forall|j: int| 0 <= j < k + 1 implies s[j] != c by {
                    if j > 0 {
                        assert(s[j] == t[j - 1]);
                    }
                }
            },
            None => {
                assert forall|j: int| 0 <= j < s.len() implies s[j] != c by {
                    if j > 0 {
                        assert(s[j] == t[j - 1]);
                    }
                }
            },
        }
    }
}

proof fn lemma_blanks_props(s: Seq<char>, a: int)
    requires
        0 <= a,
    ensures
        a + blanks_at(s, a) <= s.len() || blanks_at(s, a) == 0,
        forall|k: int| a <= k < a + blanks_at(s, a) ==> is_lead_blank(#[trigger] s[k]),
        a + blanks_at(s, a) < s.len() ==> !is_lead_blank(s[a + blanks_at(s, a)]),
    decreases s.len() - a,
{
    if 0 <= a < s.len() && is_lead_blank(s[a]) {
        lemma_blanks_props(s, a + 1);
    }
}

proof fn lemma_blanks_at(s: Seq<char>, a: int, z: int)
    requires
        0 <= a <= z <= s.len(),
        forall|k: int| a <= k < z ==> is_lead_blank(#[trigger] s[k]),
        z == s.len() || !is_lead_blank(s[z]),
    ensures
        blanks_at(s, a) == z - a,
    decreases z - a,
{
    if a < z {
        lemma_blanks_at(s, a + 1, z);
    }
}

/// Whether the tokens from `k` on hold no terminator: only characters
/// other than CR and LF, and digits.
pub open spec fn plain_tokens(t: Seq<Token>, k: int) -> bool {
    forall|j: int|
        k <= j < t.len() ==> match #[trigger] t[j] {
            Token::Lit(c) => !is_eol(c),
            Token::Digit => true,
            Token::Newline => false,
        }
}

/// A match ends within the text, after where it starts; a match of plain
/// tokens holds no terminator.
proof fn lemma_match_span(t: Seq<Token>, k: int, s: Seq<char>, pos: int)
    requires
        0 <= k,
        0 <= pos <= s.len(),
        match_tokens(t, k, s, pos) is Some,
    ensures
        pos <= match_tokens(t, k, s, pos).unwrap() <= s.len(),
        plain_tokens(t, k) ==> forall|p: int|
            pos <= p < match_tokens(t, k, s, pos).unwrap() ==> !is_eol(#[trigger] s[p]),
        k < t.len() ==> pos < s.len(),
    decreases t.len() - k,
{
    if k < t.len() {
        match t[k] {
            Token::Lit(c) => {
                lemma_match_span(t, k + 1, s, pos + 1);
            },
            Token::Digit => {
                lemma_match_span(t, k + 1, s, pos + 1);
            },
            Token::Newline => {
                if 0 <= pos && pos + 1 < s.len() && s[pos] == '\r' && s[pos + 1] == '\n'
                    && match_tokens(t, k + 1, s, pos + 2) is Some {
                    lemma_match_span(t, k + 1, s, pos + 2);
                }
                if 0 <= pos < s.len() && s[pos] == '\n' && match_tokens(t, k + 1, s, pos + 1) is Some {
                    lemma_match_span(t, k + 1, s, pos + 1);
                }
                if 0 <= pos < s.len() && s[pos] == '\r' && match_tokens(t, k + 1, s, pos + 1) is Some {
                    lemma_match_span(t, k + 1, s, pos + 1);
                }
            },
        }
    }
}

/// A header without line feeds has a plain pattern.
proof fn lemma_pattern_plain(h: Seq<char>, i: int)
    requires
        0 <= i,
        forall|k: int| 0 <= k < h.len() ==> h[k] != '\r' && h[k] != '\n',
    ensures
        plain_tokens(pattern_from(h, i), 0),
    decreases h.len() - i,
{
    if 0 <= i < h.len() {
        lemma_pattern_plain(h, i + 1);
        if year_at(h, i) {
            lemma_pattern_plain(h, i + 4);
            let t = pattern_from(h, i);
            assert forall|j: int| 0 <= j < t.len() implies match #[trigger] t[j] {
                Token::Lit(c) => !is_eol(c),
                Token::Digit => true,
                Token::Newline => false,
            } by {
                if j >= 4 {
                    assert(t[j] == pattern_from(h, i + 4)[j - 4]);
                }
            }
        } else {
            let t = pattern_from(h, i);
            assert forall|j: int| 0 <= j < t.len() implies match #[trigger] t[j] {
                Token::Lit(c) => !is_eol(c),
                Token::Digit => true,
                Token::Newline => false,
            } by {
                if j >= 1 {
                    assert(t[j] == pattern_from(h, i + 1)[j - 1]);
                }
            }
        }
    }
}


/// The first terminator after the written header: the header's own
/// terminator when it has a line feed, otherwise what follows decides.
proof fn lemma_written_term(h: Seq<char>, nl: Seq<char>, y: Seq<char>)
    requires
        forall|k: int| 0 <= k < h.len() ==> h[k] != '\r',
        nl == seq!['\n'] || nl == seq!['\r', '\n'],
    ensures
        first_term_spec(written(h, 0, nl) + y) == if h.contains('\n') {
            nl
        } else {
            first_term_spec(y)
        },
{
    lemma_first_index_props(h, '\n');
    match first_index(h, '\n') {
        Some(k) => {
            lemma_written_to_nl(h, 0, k, nl);
            let w = written(h, k + 1, nl);
            assert(h.subrange(0, k) =~= h.take(k));
            assert(no_eol(h.take(k)));
            assert(written(h, 0, nl) + y =~= h.take(k) + (nl + (w + y)));
            lemma_first_term_after(h.take(k), nl + (w + y));
            lemma_first_term_front(nl, w + y);
            assert(h[k] == '\n');
        },
        None => {
            lemma_written_plain(h, 0, nl);
            assert(h.skip(0) =~= h);
            assert(no_eol(h));
            lemma_first_term_after(h, y);
            assert(!h.contains('\n'));
        },
    }
}

/// The first characters of the written header.
proof fn lemma_written_front(h: Seq<char>, nl: Seq<char>)
    requires
        h.len() > 0,
        h[0] != '\n',
        nl == seq!['\n'] || nl == seq!['\r', '\n'],
    ensures
        written(h, 0, nl).len() >= h.len(),
        written(h, 0, nl)[0] == h[0],
        h.len() >= 2 ==> written(h, 0, nl)[1] == if h[1] == '\n' {
            nl[0]
        } else {
            h[1]
        },
        h.len() == 1 ==> written(h, 0, nl) == h,
{
    lemma_written_len(h, 0, nl);
    lemma_written_step(h, 0, nl);
    if h.len() >= 2 {
        lemma_written_step(h, 1, nl);
    } else {
        lemma_written_plain(h, 1, nl);
        assert(written(h, 1, nl).len() == 0);
        assert(written(h, 0, nl) =~= h);
    }
}

proof fn lemma_written_len(h: Seq<char>, i: int, nl: Seq<char>)
    requires
        0 <= i <= h.len(),
        nl.len() >= 1,
    ensures
        written(h, i, nl).len() >= h.len() - i,
    decreases h.len() - i,
{
    if i < h.len() {
        lemma_written_step(h, i, nl);
        lemma_written_len(h, i + 1, nl);
    }
}


/// What a header needs for a second run to find it where the first put
/// it: it is not empty, holds no CR, does not start with a blank, a
/// byte-order mark or `#!`.
pub open spec fn header_settles(h: Seq<char>) -> bool {
    &&& h.len() > 0
    &&& forall|k: int| 0 <= k < h.len() ==> h[k] != '\r'
    &&& !is_lead_blank(h[0])
    &&& h[0] != bom()
    &&& !starts_with(h, seq!['#', '!'])
}

/// A text whose content has the written header at its zone, with the
/// terminator it was written with, is left alone.
#[verifier::spinoff_prover]
#[verifier::rlimit(40)]
proof fn lemma_found_in_place(h: Seq<char>, text: Seq<char>, c: Seq<char>, nl: Seq<char>, z: int)
    requires
        header_settles(h),
        nl == seq!['\n'] || nl == seq!['\r', '\n'],
        (text == c && (c.len() == 0 || c[0] != bom())) || text == seq![bom()] + c,
        first_term_spec(c) == nl,
        zone_of(c) == z,
        0 <= z,
        z + written(h, 0, nl).len() <= c.len(),
        c.subrange(z, z + written(h, 0, nl).len()) == written(h, 0, nl),
    ensures
        header_transform(h, text) is None,
{
    if text == seq![bom()] + c {
        assert(text.skip(1) =~= c);
        assert(text[0] == bom());
    }
    lemma_header_matches(h, 0, nl, c, z);
}

/// Inserting the header into `content` gives a content in which the
/// header is in place.
#[verifier::spinoff_prover]
#[verifier::rlimit(40)]
proof fn lemma_insert_in_place(h: Seq<char>, content: Seq<char>)
    requires
        header_settles(h),
        no_lone_cr(content),
    ensures
        ({
            let nl = first_term_spec(content);
            let header = written(h, 0, nl);
            let split = after_shebang(content);
            let prefix = content.take(split);
            let rest = content.skip(split);
            let pn = if prefix.len() > 0 && prefix.last() != '\n' {
                nl
            } else {
                seq![]
            };
            let c2 = prefix + pn + header + nl + nl + rest;
            let z = split + pn.len();
            &&& first_term_spec(c2) == nl
            &&& zone_of(c2) == z
            &&& z + header.len() <= c2.len()
            &&& c2.subrange(z, z + header.len()) == header
            &&& c2[0] != bom()
        }),
{
    let nl = first_term_spec(content);
    lemma_first_term_kind(content);
    let header = written(h, 0, nl);
    lemma_written_front(h, nl);
    let split = after_shebang(content);
    let prefix = content.take(split);
    let rest = content.skip(split);
    let pn: Seq<char> = if prefix.len() > 0 && prefix.last() != '\n' {
        nl
    } else {
        seq![]
    };
    let tail = header + nl + nl + rest;
    let c2 = prefix + pn + header + nl + nl + rest;
    let z = split + pn.len();
    lemma_first_index_props(content, '\n');
    assert(0 <= split <= content.len());
    assert(prefix.len() == split);
    assert(c2 =~= prefix + pn + tail);
    assert(c2.subrange(z, z + header.len()) =~= header) by {
        assert forall|j: int| 0 <= j < header.len() implies c2.subrange(z, z + header.len())[j]
            == header[j] by {
            assert(c2[z + j] == tail[j]);
        }
    }
    assert(c2[z] == h[0]);
    lemma_first_index_props(content, '\n');
    if starts_with(content, seq!['#', '!']) {
        assert(content[0] == '#' && content[1] == '!') by {
            assert(content.take(2)[0] == content[0]);
            assert(content.take(2)[1] == content[1]);
        }
        match first_index(content, '\n') {
            Some(j) => {
                assert(j >= 2);
                assert(split == j + 1);
                assert(prefix.last() == content[j]);
                assert(pn.len() == 0);
                assert(content =~= prefix + rest);
                // The shebang line keeps its terminator.
                lemma_eol_index(prefix);
                assert(prefix[j] == '\n');
                assert(eol_index(prefix) <= j);
                lemma_first_term_within(prefix, rest);
                lemma_first_term_within(prefix, pn + tail);
                assert(c2.take(2) =~= content.take(2));
                assert forall|k: int| 0 <= k < j implies c2[k] != '\n' by {
                    assert(c2[k] == content[k]);
                }
                assert(c2[j] == content[j]);
                lemma_first_index_at(c2, '\n', j);
                assert(after_shebang(c2) == split);
            },
            None => {
                assert(split == content.len());
                assert(prefix =~= content);
                assert(rest.len() == 0);
                assert(prefix.last() != '\n');
                assert(no_eol(content)) by {
                    assert forall|k: int| 0 <= k < content.len() implies !is_eol(#[trigger] content[k]) by {
                        if content[k] == '\r' {
                            assert(content[k + 1] == '\n');
                        }
                    }
                }
                assert(nl == seq!['\n']);
                assert(pn == nl);
                lemma_first_term_after(content, nl + tail);
                lemma_first_term_front(nl, tail);
                assert(c2 =~= content + (nl + tail));
                assert(c2.take(2) =~= content.take(2));
                assert forall|k: int| 0 <= k < content.len() implies c2[k] != '\n' by {
                    assert(c2[k] == content[k]);
                }
                assert(c2[content.len() as int] == '\n');
                lemma_first_index_at(c2, '\n', content.len() as int);
                assert(after_shebang(c2) == z);
            },
        }
    } else {
        assert(split == 0);
        assert(prefix.len() == 0);
        assert(c2 =~= header + (nl + nl + rest));
        lemma_written_term(h, nl, nl + nl + rest);
        lemma_first_term_front(nl, nl + rest);
        assert(nl + (nl + rest) =~= nl + nl + rest);
        assert(!starts_with(c2, seq!['#', '!'])) by {
            if starts_with(c2, seq!['#', '!']) {
                assert(c2.take(2)[0] == c2[0] && c2.take(2)[1] == c2[1]);
                assert(c2[0] == h[0]);
                if h.len() >= 2 {
                    assert(c2[1] == header[1]);
                    if h[1] == '\n' {
                        assert(header[1] == nl[0]);
                    } else {
                        assert(h.take(2) =~= seq!['#', '!']);
                    }
                } else {
                    assert(header.len() == 1);
                    assert(c2[1] == nl[0]);
                }
            }
        }
    }
    lemma_blanks_at(c2, z, z);
    if starts_with(content, seq!['#', '!']) {
        assert(c2[0] == content[0]);
    } else {
        assert(c2[0] == h[0]);
    }
}


/// The updated content: the text before the zone, the header written
/// with `content`'s terminator, and the text after the old header.
pub open spec fn updated(h: Seq<char>, content: Seq<char>, end: int) -> Seq<char> {
    content.take(zone_of(content)) + written(h, 0, first_term_spec(content)) + content.skip(end)
}

/// Where a found header lies.
proof fn lemma_update_bounds(h: Seq<char>, content: Seq<char>, end: int)
    requires
        header_settles(h),
        match_tokens(pattern_from(h, 0), 0, content, zone_of(content)) == Some(end),
    ensures
        0 <= after_shebang(content) <= zone_of(content) < content.len(),
        zone_of(content) <= end <= content.len(),
        forall|k: int|
            after_shebang(content) <= k < zone_of(content) ==> is_lead_blank(#[trigger] content[k]),
        !is_lead_blank(content[zone_of(content)]),
        starts_with(content, seq!['#', '!']) ==> (first_index(content, '\n') matches Some(j) && 2 <= j
            && after_shebang(content) == j + 1),
        !starts_with(content, seq!['#', '!']) ==> after_shebang(content) == 0,
{
    let a = after_shebang(content);
    lemma_first_index_props(content, '\n');
    lemma_blanks_props(content, a);
    let t = pattern_from(h, 0);
    assert(t.len() > 0);
    lemma_match_span(t, 0, content, zone_of(content));
    if starts_with(content, seq!['#', '!']) {
        assert(content[0] == '#' && content[1] == '!') by {
            assert(content.take(2)[0] == content[0]);
            assert(content.take(2)[1] == content[1]);
        }
    }
}

/// The update keeps the first terminator.
#[verifier::spinoff_prover]
#[verifier::rlimit(40)]
proof fn lemma_update_term(h: Seq<char>, content: Seq<char>, end: int)
    requires
        header_settles(h),
        no_lone_cr(content),
        match_tokens(pattern_from(h, 0), 0, content, zone_of(content)) == Some(end),
    ensures
        first_term_spec(updated(h, content, end)) == first_term_spec(content),
{
    lemma_update_bounds(h, content, end);
    let nl = first_term_spec(content);
    lemma_first_term_kind(content);
    let header = written(h, 0, nl);
    let a = after_shebang(content);
    let zone = zone_of(content);
    let p = content.take(zone);
    let r = content.subrange(zone, end);
    let tl = content.skip(end);
    assert(content =~= p + (r + tl));
    assert(updated(h, content, end) =~= p + (header + tl));
    lemma_eol_index(p);
    if eol_index(p) < p.len() {
        let e = eol_index(p) as int;
        if p[e] == '\r' && e == p.len() - 1 {
            assert(content[zone - 1] == '\r');
            assert(content[zone] == '\n');
            if zone - 1 < a {
                lemma_first_index_props(content, '\n');
            }
        }
        lemma_first_term_within(p, r + tl);
        lemma_first_term_within(p, header + tl);
    } else {
        assert(no_eol(p));
        lemma_first_term_after(p, r + tl);
        lemma_first_term_after(p, header + tl);
        lemma_written_term(h, nl, tl);
        if !h.contains('\n') {
            assert(forall|k: int| 0 <= k < h.len() ==> h[k] != '\r' && h[k] != '\n') by {
                assert forall|k: int| 0 <= k < h.len() implies h[k] != '\r' && h[k] != '\n' by {
                    if h[k] == '\n' {
                        assert(h.contains('\n'));
                    }
                }
            }
            lemma_pattern_plain(h, 0);
            lemma_match_span(pattern_from(h, 0), 0, content, zone);
            assert(no_eol(r)) by {
                assert forall|k: int| 0 <= k < r.len() implies !is_eol(#[trigger] r[k]) by {
                    assert(r[k] == content[zone + k]);
                }
            }
            lemma_first_term_after(r, tl);
        }
    }
}

/// The update keeps where the shebang line ends.
#[verifier::spinoff_prover]
#[verifier::rlimit(40)]
proof fn lemma_update_shebang(h: Seq<char>, content: Seq<char>, end: int)
    requires
        header_settles(h),
        no_lone_cr(content),
        match_tokens(pattern_from(h, 0), 0, content, zone_of(content)) == Some(end),
        content.subrange(zone_of(content), end) != written(h, 0, first_term_spec(content)),
    ensures
        after_shebang(updated(h, content, end)) == after_shebang(content),
{
    lemma_update_bounds(h, content, end);
    let nl = first_term_spec(content);
    lemma_first_term_kind(content);
    lemma_written_front(h, nl);
    let header = written(h, 0, nl);
    let zone = zone_of(content);
    let t = pattern_from(h, 0);
    let r = content.subrange(zone, end);
    let c2 = updated(h, content, end);
    assert(c2 =~= content.take(zone) + (header + content.skip(end)));
    assert(forall|k: int| 0 <= k < zone ==> #[trigger] c2[k] == content[k]);
    assert(c2[zone] == h[0]);
    if starts_with(content, seq!['#', '!']) {
        let j = first_index(content, '\n').unwrap();
        lemma_first_index_props(content, '\n');
        assert(c2.take(2) =~= content.take(2));
        assert forall|k: int| 0 <= k < j implies c2[k] != '\n' by {
            assert(c2[k] == content[k]);
        }
        lemma_first_index_at(c2, '\n', j);
    } else {
        assert(!starts_with(c2, seq!['#', '!'])) by {
            if starts_with(c2, seq!['#', '!']) {
                assert(c2.take(2)[0] == c2[0] && c2.take(2)[1] == c2[1]);
                if zone >= 2 {
                    assert(c2.take(2) =~= content.take(2));
                } else if zone == 1 {
                    assert(is_lead_blank(content[0]));
                } else if h.len() >= 2 {
                    assert(c2[1] == header[1]);
                    if h[1] != '\n' {
                        assert(h.take(2) =~= seq!['#', '!']);
                    }
                } else {
                    assert(pattern_from(h, 1).len() == 0);
                    assert(t =~= seq![Token::Lit(h[0])]);
                    assert(match_tokens(t, 1, content, 1) == Some(1int));
                    assert(r =~= h);
                }
            }
        }
    }
}

/// Updating a header found at the zone of `content` gives a content in
/// which the header is in place.
#[verifier::spinoff_prover]
#[verifier::rlimit(40)]
proof fn lemma_update_in_place(h: Seq<char>, content: Seq<char>, end: int)
    requires
        header_settles(h),
        no_lone_cr(content),
        match_tokens(pattern_from(h, 0), 0, content, zone_of(content)) == Some(end),
        content.subrange(zone_of(content), end) != written(h, 0, first_term_spec(content)),
    ensures
        ({
            let nl = first_term_spec(content);
            let header = written(h, 0, nl);
            let zone = zone_of(content);
            let c2 = updated(h, content, end);
            &&& first_term_spec(c2) == nl
            &&& zone_of(c2) == zone
            &&& zone + header.len() <= c2.len()
            &&& c2.subrange(zone, zone + header.len()) == header
            &&& (content.len() > 0 && content[0] != bom() ==> c2[0] != bom())
        }),
{
    lemma_update_bounds(h, content, end);
    lemma_update_term(h, content, end);
    lemma_update_shebang(h, content, end);
    let nl = first_term_spec(content);
    lemma_first_term_kind(content);
    lemma_written_front(h, nl);
    let header = written(h, 0, nl);
    let a = after_shebang(content);
    let zone = zone_of(content);
    let tl = content.skip(end);
    let c2 = updated(h, content, end);
    assert(c2 =~= content.take(zone) + (header + tl));
    assert(c2.subrange(zone, zone + header.len()) =~= header) by {
        assert forall|j: int| 0 <= j < header.len() implies c2.subrange(zone, zone + header.len())[j]
            == header[j] by {
            assert(c2[zone + j] == (header + tl)[j]);
        }
    }
    assert forall|k: int| a <= k < zone implies is_lead_blank(#[trigger] c2[k]) by {
        assert(c2[k] == content[k]);
    }
    assert(c2[zone] == h[0]);
    lemma_blanks_at(c2, a, zone);
    if zone > 0 {
        assert(c2[0] == content[0]);
    }
}

/// Running the header step a second time after an update changes nothing.
#[verifier::spinoff_prover]
#[verifier::rlimit(40)]
proof fn lemma_update_settles(h: Seq<char>, text: Seq<char>, content: Seq<char>, lead: Seq<char>, end: int)
    requires
        header_settles(h),
        no_lone_cr(content),
        (lead.len() == 0 && text == content && (text.len() == 0 || text[0] != bom())) || (lead
            == seq![bom()] && text == lead + content),
        match_tokens(pattern_from(h, 0), 0, content, zone_of(content)) == Some(end),
        content.subrange(zone_of(content), end) != written(h, 0, first_term_spec(content)),
    ensures
        header_transform(h, lead + updated(h, content, end)) is None,
{
    lemma_update_in_place(h, content, end);
    lemma_first_term_kind(content);
    let c2 = updated(h, content, end);
    let nl = first_term_spec(content);
    let zone = zone_of(content);
    lemma_update_bounds(h, content, end);
    if lead.len() == 0 {
        assert(lead + c2 =~= c2);
        lemma_found_in_place(h, lead + c2, c2, nl, zone);
    } else {
        lemma_found_in_place(h, lead + c2, c2, nl, zone);
    }
}

/// The inserted content: the shebang line, a terminator if it lacks one,
/// the header, a blank line, and the rest.
pub open spec fn inserted(h: Seq<char>, content: Seq<char>) -> Seq<char> {
    let nl = first_term_spec(content);
    let split = after_shebang(content);
    let prefix = content.take(split);
    let pn = if prefix.len() > 0 && prefix.last() != '\n' {
        nl
    } else {
        seq![]
    };
    prefix + pn + written(h, 0, nl) + nl + nl + content.skip(split)
}

/// Running the header step a second time after an insertion changes
/// nothing.
#[verifier::spinoff_prover]
#[verifier::rlimit(40)]
proof fn lemma_insert_settles(h: Seq<char>, text: Seq<char>, content: Seq<char>, lead: Seq<char>)
    requires
        header_settles(h),
        no_lone_cr(content),
        (lead.len() == 0 && text == content) || (lead == seq![bom()] && text == lead + content),
    ensures
        header_transform(h, lead + inserted(h, content)) is None,
{
    lemma_insert_in_place(h, content);
    lemma_first_term_kind(content);
    lemma_first_index_props(content, '\n');
    let nl = first_term_spec(content);
    let split = after_shebang(content);
    let prefix = content.take(split);
    let pn: Seq<char> = if prefix.len() > 0 && prefix.last() != '\n' {
        nl
    } else {
        seq![]
    };
    let c2 = inserted(h, content);
    assert(0 <= split);
    if lead.len() == 0 {
        assert(lead + c2 =~= c2);
        lemma_found_in_place(h, lead + c2, c2, nl, split + pn.len());
    } else {
        lemma_found_in_place(h, lead + c2, c2, nl, split + pn.len());
    }
}

/// Running the header step a second time changes nothing: the header it
/// inserted or updated is found in place, written with the same line
/// terminator. This holds for a header that is not empty, holds no
/// carriage return and does not begin with a blank, a byte-order mark or
/// `#!`, in a text whose carriage returns all begin CRLF terminators.
#[verifier::spinoff_prover]
#[verifier::rlimit(40)]
pub proof fn lemma_header_settles(h: Seq<char>, text: Seq<char>)
    requires
        header_settles(h),
        no_lone_cr(text),
        header_transform(h, text) is Some,
    ensures
        header_transform(h, header_transform(h, text).unwrap().0) is None,
{
    let has_bom = text.len() > 0 && text[0] == bom();
    let lead: Seq<char> = if has_bom {
        seq![bom()]
    } else {
        seq![]
    };
    let content = if has_bom {
        text.skip(1)
    } else {
        text
    };
    if has_bom {
        assert(text =~= lead + content);
    }
    assert(no_lone_cr(content)) by {
        if has_bom {
            assert forall|k: int| 0 <= k < content.len() && #[trigger] content[k] == '\r' implies k + 1
                < content.len() && content[k + 1] == '\n' by {
                assert(content[k] == text[k + 1]);
                assert(content[k + 1] == text[k + 2]);
            }
        }
    }
    let nl = first_term_spec(content);
    assert(replaced(h, seq!['\n'], nl) == written(h, 0, nl));
    let zone = zone_of(content);
    let out = header_transform(h, text).unwrap().0;
    match match_tokens(pattern_from(h, 0), 0, content, zone) {
        Some(end) => {
            assert(out == lead + updated(h, content, end));
            lemma_update_settles(h, text, content, lead, end);
        },
        None => {
            assert(out == lead + inserted(h, content));
            lemma_insert_settles(h, text, content, lead);
        },
    }
}

} // verus!
