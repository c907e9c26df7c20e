//! The regular expressions of the `regex` crate and the shell patterns of
//! the `glob` crate, as the library uses them.
//!
//! Their matching rules belong to those crates: the library names what they
//! answer and builds on the names. Patterns are handed over as text and
//! compiled where they are used.

use vstd::prelude::*;
use vstd::string::StringSliceAdditionalSpecFns;
use vstd::utf8::encode_utf8;
use crate::text::chars_of;

verus! {

#[verifier::external_type_specification]
#[verifier::external_body]
pub struct ExRegexError(regex::Error);

#[verifier::external_type_specification]
#[verifier::external_body]
pub struct ExGlobPatternError(glob::PatternError);

/// Whether `regex::Regex::new` accepts the pattern `p`.
pub uninterp spec fn regex_valid(p: Seq<char>) -> bool;

/// The byte ranges of the successive non-overlapping matches of `p` in
/// `text`, as `Regex::find_iter` yields them.
pub uninterp spec fn regex_spans(p: Seq<char>, text: Seq<char>) -> Seq<(usize, usize)>;

/// The matches of `p` in `text`, each with the text between the previous
/// match (or the start) and itself: (text before, matched text).
pub open spec fn regex_matches(p: Seq<char>, text: Seq<char>) -> Seq<(Seq<char>, Seq<char>)> {
    span_pieces(text, regex_spans(p, text))
}

/// The text after the last match of `p` in `text` (all of it without one).
pub open spec fn regex_tail(p: Seq<char>, text: Seq<char>) -> Seq<char> {
    span_tail(text, regex_spans(p, text))
}

/// What `Regex::replace_all` returns: every match of `p` in `text`
/// replaced by `rep`, with `$name` and `${name}` expanded to capture groups.
pub uninterp spec fn regex_replaced(p: Seq<char>, text: Seq<char>, rep: Seq<char>) -> Seq<char>;

/// What `Regex::is_match` answers for `p` on `text`.
pub uninterp spec fn regex_found(p: Seq<char>, text: Seq<char>) -> bool;

/// The characters `regex::escape` treats as meta characters.
pub open spec fn regex_meta(c: char) -> bool {
    c == '\\' || c == '.' || c == '+' || c == '*' || c == '?' || c == '(' || c == ')' || c == '|'
        || c == '[' || c == ']' || c == '{' || c == '}' || c == '^' || c == '$' || c == '#' || c == '&'
        || c == '-' || c == '~'
}

/// What `regex::escape` returns for `s`: the text with a backslash before
/// every meta character.
pub open spec fn regex_escaped(s: Seq<char>) -> Seq<char>
    decreases s.len(),
{
    if s.len() == 0 {
        seq![]
    } else {
        regex_escaped(s.drop_last()) + if regex_meta(s.last()) {
            seq!['\\', s.last()]
        } else {
            seq![s.last()]
        }
    }
}

/// Whether `glob::Pattern::new` accepts the pattern `p`.
pub uninterp spec fn glob_valid(p: Seq<char>) -> bool;

/// What `glob::Pattern::matches` answers for `p` on `s`.
pub uninterp spec fn glob_matches(p: Seq<char>, s: Seq<char>) -> bool;

/// What `glob::Pattern::matches_path` answers for `p` on the path `s`.
pub uninterp spec fn glob_matches_path(p: Seq<char>, s: Seq<char>) -> bool;

/// A list of string pairs by their characters.
pub open spec fn pair_views(v: Seq<(String, String)>) -> Seq<(Seq<char>, Seq<char>)> {
    v.map_values(|p: (String, String)| (p.0@, p.1@))
}

/// Calls `regex::Regex::new` on `p` and keeps only whether it succeeded,
/// with the error; named [`regex_valid`].
#[verifier::external_body]
pub(crate) fn regex_check(p: &str) -> (r: Result<(), regex::Error>)
    ensures
        r is Ok <==> regex_valid(p@),
{
    regex::Regex::new(p).map(|_| ())
}

/// The message of a `regex::Error` (its `Display`). Nothing is stated of
/// the text.
#[verifier::external_body]
pub(crate) fn regex_error_text(e: &regex::Error) -> String {
    e.to_string()
}

/// Calls `Regex::find_iter` with the regex compiled from `p` (which must
/// compile) and hands out the byte range of each match; named
/// [`regex_spans`].
#[verifier::external_body]
pub(crate) fn regex_find_spans(p: &str, text: &str) -> (r: Vec<(usize, usize)>)
    requires
        regex_valid(p@),
    ensures
        r@ == regex_spans(p@, text@),
{
    regex::Regex::new(p).unwrap().find_iter(text).map(|m| (m.start(), m.end())).collect()
}

/// The text of `t` between bytes `from` and `to`: empty unless both are
/// character boundaries and `from` comes first.
pub open spec fn text_between(t: Seq<char>, from: usize, to: usize) -> Seq<char> {
    match slice_of(t, from, to) {
        Some(x) => x,
        None => seq![],
    }
}

/// Where the range before range `k` of `sp` ends: 0 for the first.
pub open spec fn prev_end(sp: Seq<(usize, usize)>, k: int) -> usize {
    if k <= 0 {
        0
    } else {
        sp[k - 1].1
    }
}

/// The text `t` cut at the byte ranges `sp`: for each range, the text from
/// the end of the previous one to its start, and the text it covers.
pub open spec fn span_pieces(t: Seq<char>, sp: Seq<(usize, usize)>) -> Seq<(Seq<char>, Seq<char>)> {
    Seq::new(
        sp.len(),
        |k: int| (text_between(t, prev_end(sp, k), sp[k].0), text_between(t, sp[k].0, sp[k].1)),
    )
}

/// The text of `t` after the last range of `sp` (all of it without one).
pub open spec fn span_tail(t: Seq<char>, sp: Seq<(usize, usize)>) -> Seq<char> {
    text_between(t, prev_end(sp, sp.len() as int), encode_utf8(t).len() as usize)
}

/// The text of `t` between bytes `from` and `to`, as [`text_between`].
fn between(t: &str, from: usize, to: usize) -> (r: String)
    ensures
        r@ == text_between(t@, from, to),
{
    match str_slice(t, from, to) {
        Some(x) => x,
        None => String::new(),
    }
}

/// Cuts `text` at the byte ranges `spans`, such as the matches of a
/// search: each range with the text before it, and the text after the
/// last one.
pub fn split_at_spans(text: &str, spans: &[(usize, usize)]) -> (r: (Vec<(String, String)>, String))
    ensures
        pair_views(r.0@) == span_pieces(text@, spans@),
        r.1@ == span_tail(text@, spans@),
{
    let mut out: Vec<(String, String)> = Vec::new();
    let mut last: usize = 0;
    let mut i: usize = 0;
    while i < spans.len()
        invariant
            i <= spans@.len(),
            last == prev_end(spans@, i as int),
            pair_views(out@) == span_pieces(text@, spans@).take(i as int),
        decreases spans.len() - i,
    {
        let (start, end) = spans[i];
        let gap = between(text, last, start);
        let found = between(text, start, end);
        let ghost before = out@;
        let ghost piece = (gap@, found@);
        assert(piece == span_pieces(text@, spans@)[i as int]);
        out.push((gap, found));
        assert(pair_views(out@) =~= pair_views(before).push(piece));
        assert(pair_views(out@) =~= span_pieces(text@, spans@).take(i + 1));
        last = end;
        i += 1;
    }
    assert(span_pieces(text@, spans@).take(spans@.len() as int) =~= span_pieces(text@, spans@));
    let tail = between(text, last, text.len());
    (out, tail)
}

/// Calls `Regex::replace_all` with the regex compiled from `p` (which must
/// compile); named [`regex_replaced`].
#[verifier::external_body]
pub(crate) fn regex_replace_all(p: &str, text: &str, rep: &str) -> (r: String)
    requires
        regex_valid(p@),
    ensures
        r@ == regex_replaced(p@, text@, rep@),
{
    regex::Regex::new(p).unwrap().replace_all(text, rep).into_owned()
}

/// Calls `Regex::is_match` with the regex compiled from `p` (which must
/// compile); named [`regex_found`].
#[verifier::external_body]
pub(crate) fn regex_is_match(p: &str, text: &str) -> (r: bool)
    requires
        regex_valid(p@),
    ensures
        r == regex_found(p@, text@),
{
    regex::Regex::new(p).unwrap().is_match(text)
}

/// Calls `regex::escape`, which (as its source in `regex-syntax` shows)
/// puts a backslash before each meta character; see [`regex_escaped`].
#[verifier::external_body]
pub(crate) fn regex_escape(s: &str) -> (r: String)
    ensures
        r@ == regex_escaped(s@),
{
    regex::escape(s)
}

/// Calls `glob::Pattern::new` on `p` and keeps only whether it succeeded,
/// with the error; named [`glob_valid`].
#[verifier::external_body]
pub(crate) fn glob_check(p: &str) -> (r: Result<(), glob::PatternError>)
    ensures
        r is Ok <==> glob_valid(p@),
{
    glob::Pattern::new(p).map(|_| ())
}

/// The message of a `glob::PatternError` (its `Display`). Nothing is
/// stated of the text.
#[verifier::external_body]
pub(crate) fn glob_error_text(e: &glob::PatternError) -> String {
    e.to_string()
}

/// Calls `glob::Pattern::matches` with the pattern compiled from `p`
/// (which must compile); named [`glob_matches`].
#[verifier::external_body]
pub(crate) fn glob_match(p: &str, s: &str) -> (r: bool)
    requires
        glob_valid(p@),
    ensures
        r == glob_matches(p@, s@),
{
    glob::Pattern::new(p).unwrap().matches(s)
}

/// Calls `glob::Pattern::matches_path` with the pattern compiled from `p`
/// (which must compile) on the path `s`; named [`glob_matches_path`].
#[verifier::external_body]
pub(crate) fn glob_match_path(p: &str, s: &str) -> (r: bool)
    requires
        glob_valid(p@),
    ensures
        r == glob_matches_path(p@, s@),
{
    glob::Pattern::new(p).unwrap().matches_path(std::path::Path::new(s))
}


#[verifier::external_type_specification]
#[verifier::external_body]
pub struct ExAhoBuildError(aho_corasick::BuildError);

/// Whether `aho_corasick::AhoCorasick::new` builds a matcher for the
/// patterns `pats`.
pub uninterp spec fn ac_valid(pats: Seq<Seq<char>>) -> bool;

/// The matches `AhoCorasick::find_iter` reports for the patterns `pats` in
/// `text`, in order, each as (pattern index, start byte, end byte).
pub uninterp spec fn ac_matches(pats: Seq<Seq<char>>, text: Seq<char>) -> Seq<(usize, usize, usize)>;

/// Calls `aho_corasick::AhoCorasick::new` on the patterns and keeps only
/// whether it succeeded, with the error; named [`ac_valid`].
#[verifier::external_body]
pub(crate) fn ac_check(pats: &[String]) -> (r: Result<(), aho_corasick::BuildError>)
    ensures
        r is Ok <==> ac_valid(crate::text::strings_view(pats@)),
{
    aho_corasick::AhoCorasick::new(pats).map(|_| ())
}

/// The message of an `aho_corasick::BuildError` (its `Display`). Nothing is
/// stated of the text.
#[verifier::external_body]
pub(crate) fn ac_error_text(e: &aho_corasick::BuildError) -> String {
    e.to_string()
}

/// Calls `AhoCorasick::find_iter` with the matcher built from `pats`
/// (which must build) and hands out each match as (pattern index, start,
/// end); named [`ac_matches`]. As the crate documents, each match names
/// one of the patterns, lies within the text's bytes, and covers exactly
/// the bytes of the pattern it names.
#[verifier::external_body]
pub(crate) fn ac_find_all(pats: &[String], text: &str) -> (r: Vec<(usize, usize, usize)>)
    requires
        ac_valid(crate::text::strings_view(pats@)),
    ensures
        r@ == ac_matches(crate::text::strings_view(pats@), text@),
        forall|k: int|
            0 <= k < r@.len() ==> (#[trigger] r@[k]).0 < pats@.len() && r@[k].1 <= r@[k].2
                <= text.spec_bytes().len() && text.spec_bytes().subrange(r@[k].1 as int, r@[k].2 as int)
                == encode_utf8(pats@[r@[k].0 as int]@),
{
    let ac = aho_corasick::AhoCorasick::new(pats).unwrap();
    ac.find_iter(text).map(|m| (m.pattern().as_usize(), m.start(), m.end())).collect()
}

/// The byte offset at which character `k` of `s` starts in its UTF-8
/// encoding: the length of the encoding of the first `k` characters.
pub open spec fn char_offset(s: Seq<char>, k: int) -> int {
    encode_utf8(s.take(k)).len() as int
}

/// Byte `pos` of `s` is the boundary after its first `k` characters.
pub open spec fn at_char(s: Seq<char>, k: int, pos: int) -> bool {
    0 <= k <= s.len() && char_offset(s, k) == pos
}

/// The character that ends at byte `pos` of `s`: the last character of
/// the text before `pos`, if `pos` is a character boundary.
pub open spec fn char_before_of(s: Seq<char>, pos: usize) -> Option<char> {
    match slice_of(s, 0, pos) {
        Some(t) => if t.len() > 0 {
            Some(t.last())
        } else {
            None
        },
        None => None,
    }
}

/// The character that starts at byte `pos` of `s`: the first character of
/// the text from `pos` on, if `pos` is a character boundary.
pub open spec fn char_after_of(s: Seq<char>, pos: usize) -> Option<char> {
    match slice_of(s, pos, encode_utf8(s).len() as usize) {
        Some(t) => if t.len() > 0 {
            Some(t[0])
        } else {
            None
        },
        None => None,
    }
}

/// The text between bytes `from` and `to` of `s`, if both are character
/// boundaries and `from` comes first.
pub open spec fn slice_of(s: Seq<char>, from: usize, to: usize) -> Option<Seq<char>> {
    if from <= to && (exists|i: int| #[trigger] at_char(s, i, from as int)) && (exists|j: int|
        #[trigger] at_char(s, j, to as int)) {
        Some(
            s.subrange(
                choose|i: int| #[trigger] at_char(s, i, from as int),
                choose|j: int| #[trigger] at_char(s, j, to as int),
            ),
        )
    } else {
        None
    }
}

/// The character that ends at byte `pos` of `s`, as [`char_before_of`].
pub(crate) fn char_before(s: &str, pos: usize) -> (r: Option<char>)
    ensures
        r == char_before_of(s@, pos),
{
    match str_slice(s, 0, pos) {
        Some(t) => {
            let cs = chars_of(t.as_str());
            if cs.len() > 0 {
                Some(cs[cs.len() - 1])
            } else {
                None
            }
        },
        None => None,
    }
}

/// The character that starts at byte `pos` of `s`, as [`char_after_of`].
pub(crate) fn char_after(s: &str, pos: usize) -> (r: Option<char>)
    ensures
        r == char_after_of(s@, pos),
{
    match str_slice(s, pos, s.len()) {
        Some(t) => {
            let cs = chars_of(t.as_str());
            if cs.len() > 0 {
                Some(cs[0])
            } else {
                None
            }
        },
        None => None,
    }
}

/// Calls `str::get(from..to)`: as std documents, the text between the two
/// bytes when both are character boundaries within the text and `from`
/// does not come after `to`, and `None` otherwise.
#[verifier::external_body]
pub(crate) fn str_slice(s: &str, from: usize, to: usize) -> (r: Option<String>)
    ensures
        match r {
            Some(t) => slice_of(s@, from, to) == Some(t@),
            None => slice_of(s@, from, to) is None,
        },
{
    s.get(from..to).map(|t| t.to_string())
}

} // verus!
