//! Converting identifiers in file contents from one case format to
//! another.
//!
//! Candidates are found with the source format's regular expression,
//! widened to admit configured prefixes and suffixes; each candidate is
//! then cut into words and joined in the target format.

use vstd::prelude::*;
use crate::case::{CaseFormat, pattern_spec, split_words_spec, join_words_spec};
use crate::step::{ContentStep, FileTarget, accepted_by_extension, accepts_by_extension};
use crate::text::{
    owned, concat2, concat3, chars_of, string_of_range, str_eq, strings_view, texts, strs,
    starts_with, ends_with, has_prefix, has_suffix, usize_text, decimal, push_str, join,
    join_strings,
};
use crate::matching::{
    regex_valid, regex_matches, regex_tail, regex_found, regex_escaped, glob_valid, glob_matches,
    glob_matches_path, regex_check, regex_error_text, regex_find_spans, split_at_spans, regex_is_match,
    regex_escape, glob_check, glob_error_text, glob_match, glob_match_path, pair_views,
};
use crate::path::{file_name_of, strip_prefix_of, path_file_name, path_strip_prefix};
use crate::error::ReformatError;

verus! {

/// Options for case conversion.
#[derive(Debug, Clone)]
pub struct ConvertOptions {
    /// Case format of the identifiers to convert
    pub from: CaseFormat,
    /// Case format to convert them to
    pub to: CaseFormat,
    /// File extensions to process; empty matches every file
    pub file_extensions: Vec<String>,
    /// Process directories recursively
    pub recursive: bool,
    /// Dry run mode (don't modify files)
    pub dry_run: bool,
    /// Added to every converted identifier
    pub prefix: String,
    /// Added to every converted identifier
    pub suffix: String,
    /// Removed before conversion, e.g. `m_` from `m_userName`
    pub strip_prefix: Option<String>,
    /// Removed before conversion
    pub strip_suffix: Option<String>,
    /// `(from, to)`: a prefix replaced before conversion, e.g. `("I", "Abstract")`
    pub replace_prefix: Option<(String, String)>,
    /// `(from, to)`: a suffix replaced before conversion
    pub replace_suffix: Option<(String, String)>,
    /// Only process files whose name or relative path matches this glob
    pub glob: Option<String>,
    /// Only convert identifiers matching this regex
    pub word_filter: Option<String>,
}

/// The extensions the converter handles by default.
pub open spec fn default_convert_extensions() -> Seq<Seq<char>> {
    texts(seq![".c", ".h", ".py", ".md", ".js", ".ts", ".java", ".cpp", ".hpp"])
}

impl ConvertOptions {
    /// Options converting `from` to `to`, with every other setting at its
    /// default.
    pub fn new(from: CaseFormat, to: CaseFormat) -> (r: ConvertOptions)
        ensures
            r.from == from,
            r.to == to,
            strings_view(r.file_extensions@) == default_convert_extensions(),
            r.recursive,
            !r.dry_run,
            r.prefix@.len() == 0,
            r.suffix@.len() == 0,
            r.strip_prefix is None,
            r.strip_suffix is None,
            r.replace_prefix is None,
            r.replace_suffix is None,
            r.glob is None,
            r.word_filter is None,
    {
        let list = [".c", ".h", ".py", ".md", ".js", ".ts", ".java", ".cpp", ".hpp"];
        assert(list@ =~= seq![".c", ".h", ".py", ".md", ".js", ".ts", ".java", ".cpp", ".hpp"]);
        ConvertOptions {
            from,
            to,
            file_extensions: strs(&list),
            recursive: true,
            dry_run: false,
            prefix: String::new(),
            suffix: String::new(),
            strip_prefix: None,
            strip_suffix: None,
            replace_prefix: None,
            replace_suffix: None,
            glob: None,
            word_filter: None,
        }
    }
}

/// `s` without a leading `\b`, if it has one.
pub open spec fn drop_lead_boundary(s: Seq<char>) -> Option<Seq<char>> {
    if starts_with(s, "\\b"@) {
        Some(s.skip(2))
    } else {
        None
    }
}

/// `s` without a trailing `\b`, if it has one.
pub open spec fn drop_trail_boundary(s: Seq<char>) -> Option<Seq<char>> {
    if ends_with(s, "\\b"@) {
        Some(s.take(s.len() - 2))
    } else {
        None
    }
}

/// The core of a format pattern: the `\b` anchors removed from both ends;
/// the whole pattern where the trailing anchor is missing.
pub open spec fn pattern_core(base: Seq<char>) -> Seq<char> {
    let first = match drop_lead_boundary(base) {
        Some(x) => x,
        None => base,
    };
    match drop_trail_boundary(first) {
        Some(y) => y,
        None => base,
    }
}

/// The escaped alternatives of the non-empty affixes, in order.
pub open spec fn affix_alternatives(a: Option<Seq<char>>, b: Option<Seq<char>>) -> Seq<Seq<char>> {
    let first = match a {
        Some(x) => if x.len() > 0 {
            seq![regex_escaped(x)]
        } else {
            seq![]
        },
        None => seq![],
    };
    let second = match b {
        Some(x) => if x.len() > 0 {
            seq![regex_escaped(x)]
        } else {
            seq![]
        },
        None => seq![],
    };
    first + second
}

/// An optional group of the affix alternatives; empty without any.
pub open spec fn affix_group(a: Option<Seq<char>>, b: Option<Seq<char>>) -> Seq<char> {
    let alts = affix_alternatives(a, b);
    if alts.len() == 0 {
        seq![]
    } else {
        "(?:"@ + join(alts, "|"@) + ")?"@
    }
}

/// The candidate pattern: the format's core, between word boundaries,
/// widened by the optional prefix and suffix groups.
pub open spec fn source_pattern_spec(
    f: CaseFormat,
    p0: Option<Seq<char>>,
    p1: Option<Seq<char>>,
    s0: Option<Seq<char>>,
    s1: Option<Seq<char>>,
) -> Seq<char> {
    "\\b"@ + affix_group(p0, p1) + pattern_core(pattern_spec(f)) + affix_group(s0, s1) + "\\b"@
}

/// An optional string by its characters.
pub open spec fn opt_view(o: Option<String>) -> Option<Seq<char>> {
    match o {
        Some(s) => Some(s@),
        None => None,
    }
}

/// The first string of an optional pair, by its characters.
pub open spec fn first_view(o: Option<(String, String)>) -> Option<Seq<char>> {
    match o {
        Some(p) => Some(p.0@),
        None => None,
    }
}

/// The candidate pattern the options call for.
pub open spec fn source_of(o: ConvertOptions) -> Seq<char> {
    source_pattern_spec(
        o.from,
        opt_view(o.strip_prefix),
        first_view(o.replace_prefix),
        opt_view(o.strip_suffix),
        first_view(o.replace_suffix),
    )
}

/// An identifier after the affix options: the prefix and suffix stripped,
/// then the prefix and suffix replacements made, each where it applies.
pub open spec fn affixes_applied(o: ConvertOptions, name: Seq<char>) -> Seq<char> {
    let s1 = match o.strip_prefix {
        Some(p) => if starts_with(name, p@) {
            name.skip(p@.len() as int)
        } else {
            name
        },
        None => name,
    };
    let s2 = match o.strip_suffix {
        Some(p) => if ends_with(s1, p@) {
            s1.take(s1.len() - p@.len())
        } else {
            s1
        },
        None => s1,
    };
    let s3 = match o.replace_prefix {
        Some(r) => if starts_with(s2, r.0@) {
            r.1@ + s2.skip(r.0@.len() as int)
        } else {
            s2
        },
        None => s2,
    };
    match o.replace_suffix {
        Some(r) => if ends_with(s3, r.0@) {
            s3.take(s3.len() - r.0@.len()) + r.1@
        } else {
            s3
        },
        None => s3,
    }
}

/// One identifier converted: the affix options applied, then (unless the
/// word filter rejects it, which keeps the identifier as it was) cut into
/// words of the source format and joined in the target format.
pub open spec fn convert_spec(o: ConvertOptions, name: Seq<char>) -> Seq<char> {
    let s = affixes_applied(o, name);
    match o.word_filter {
        Some(w) => if !regex_found(w@, s) {
            name
        } else {
            join_words_spec(o.to, split_words_spec(o.from, s), o.prefix@, o.suffix@)
        },
        None => join_words_spec(o.to, split_words_spec(o.from, s), o.prefix@, o.suffix@),
    }
}

/// The text rebuilt from the matches with each match converted.
pub open spec fn converted_pieces(o: ConvertOptions, m: Seq<(Seq<char>, Seq<char>)>) -> Seq<char>
    decreases m.len(),
{
    if m.len() == 0 {
        seq![]
    } else {
        converted_pieces(o, m.drop_last()) + m.last().0 + convert_spec(o, m.last().1)
    }
}

/// How many matches the conversion changes.
pub open spec fn changed_count(o: ConvertOptions, m: Seq<(Seq<char>, Seq<char>)>) -> nat
    decreases m.len(),
{
    if m.len() == 0 {
        0
    } else {
        changed_count(o, m.drop_last()) + if convert_spec(o, m.last().1) != m.last().1 {
            1nat
        } else {
            0nat
        }
    }
}

/// What the converter makes of `text`.
pub open spec fn convert_transform(o: ConvertOptions, text: Seq<char>) -> Option<(Seq<char>, usize)> {
    let m = regex_matches(source_of(o), text);
    let out = converted_pieces(o, m) + regex_tail(source_of(o), text);
    if out == text {
        None
    } else {
        Some((out, changed_count(o, m) as usize))
    }
}

/// Whether a file passes the glob filter: no glob, or the glob matches its
/// name or its path relative to the directory walked.
pub open spec fn glob_accepts(o: ConvertOptions, path: Seq<char>, root: Seq<char>) -> bool {
    match o.glob {
        None => true,
        Some(g) => {
            ||| (file_name_of(path) matches Some(n) && glob_matches(g@, n))
            ||| (strip_prefix_of(path, root) matches Some(rel) && glob_matches_path(g@, rel))
        },
    }
}

/// The escaped affix alternatives of two optional affixes.
fn alternatives(a: Option<&str>, b: Option<&str>) -> (r: Vec<String>)
    ensures
        strings_view(r@) == affix_alternatives(
            match a {
                Some(x) => Some(x@),
                None => None,
            },
            match b {
                Some(x) => Some(x@),
                None => None,
            },
        ),
{
    let mut out: Vec<String> = Vec::new();
    if let Some(x) = a {
        if !x.is_empty() {
            out.push(regex_escape(x));
        }
    }
    let ghost first = strings_view(out@);
    if let Some(x) = b {
        if !x.is_empty() {
            out.push(regex_escape(x));
        }
    }
    assert(strings_view(out@) =~= affix_alternatives(
        match a {
            Some(x) => Some(x@),
            None => None,
        },
        match b {
            Some(x) => Some(x@),
            None => None,
        },
    ));
    out
}

/// The optional group for two affixes.
fn group(affixes: [Option<&str>; 2]) -> (r: String)
    ensures
        r@ == affix_group(
            match affixes@[0] {
                Some(x) => Some(x@),
                None => None,
            },
            match affixes@[1] {
                Some(x) => Some(x@),
                None => None,
            },
        ),
{
    let alts = alternatives(affixes[0], affixes[1]);
    if alts.len() == 0 {
        return String::new();
    }
    let joined = join_strings(alts.as_slice(), "|");
    concat3("(?:", joined.as_str(), ")?")
}

/// Builds the regex that finds conversion candidates, widening the
/// format's pattern to admit any configured prefix or suffix so that the
/// affix options can act on what was matched.
pub fn build_source_pattern(format: CaseFormat, prefixes: [Option<&str>; 2], suffixes: [Option<&str>; 2]) -> (r: String)
    ensures
        r@ == source_pattern_spec(
            format,
            match prefixes@[0] {
                Some(x) => Some(x@),
                None => None,
            },
            match prefixes@[1] {
                Some(x) => Some(x@),
                None => None,
            },
            match suffixes@[0] {
                Some(x) => Some(x@),
                None => None,
            },
            match suffixes@[1] {
                Some(x) => Some(x@),
                None => None,
            },
        ),
{
    let base = format.pattern();
    let b = chars_of(base);
    let anchor = ['\\', 'b'];
    proof {
        reveal_strlit("\\b");
    }
    assert(anchor@ =~= "\\b"@);
    let first_end: usize = b.len();
    let first_start: usize = if has_prefix(b.as_slice(), &anchor) {
        2
    } else {
        0
    };
    let first = string_of_range(b.as_slice(), first_start, first_end);
    let fc = chars_of(first.as_str());
    assert(fc@ == match drop_lead_boundary(base@) {
        Some(x) => x,
        None => base@,
    }) by {
        assert(b@.subrange(first_start as int, b@.len() as int) =~= b@.skip(first_start as int));
        assert(b@.skip(0) =~= b@);
    }
    let core = if has_suffix(fc.as_slice(), &anchor) {
        let c = string_of_range(fc.as_slice(), 0, fc.len() - 2);
        assert(fc@.subrange(0, fc@.len() - 2) =~= fc@.take(fc@.len() - 2));
        c
    } else {
        owned(base)
    };
    let mut out = owned("\\b");
    let g1 = group(prefixes);
    push_str(&mut out, g1.as_str());
    push_str(&mut out, core.as_str());
    let g2 = group(suffixes);
    push_str(&mut out, g2.as_str());
    push_str(&mut out, "\\b");
    out
}

/// Converts identifiers of one case format to another.
pub struct CaseConverter {
    options: ConvertOptions,
    source_pattern: String,
}

impl View for CaseConverter {
    type V = ConvertOptions;

    closed spec fn view(&self) -> ConvertOptions {
        self.options
    }
}

/// Whether the options hold only patterns that compile.
pub open spec fn converter_ready(o: ConvertOptions) -> bool {
    &&& regex_valid(source_of(o))
    &&& (o.glob matches Some(g) ==> glob_valid(g@))
    &&& (o.word_filter matches Some(w) ==> regex_valid(w@))
}

fn opt_str(o: &Option<String>) -> (r: Option<&str>)
    ensures
        match r {
            Some(x) => opt_view(*o) == Some(x@),
            None => o is None,
        },
{
    match o {
        Some(s) => Some(s.as_str()),
        None => None,
    }
}

fn first_str(o: &Option<(String, String)>) -> (r: Option<&str>)
    ensures
        match r {
            Some(x) => first_view(*o) == Some(x@),
            None => o is None,
        },
{
    match o {
        Some(p) => Some(p.0.as_str()),
        None => None,
    }
}

/// `s` without `p` at its start, if it begins with `p`.
fn strip_start(s: &str, p: &str) -> (r: Option<String>)
    ensures
        match r {
            Some(x) => starts_with(s@, p@) && x@ == s@.skip(p@.len() as int),
            None => !starts_with(s@, p@),
        },
{
    let c = chars_of(s);
    let pc = chars_of(p);
    if has_prefix(c.as_slice(), pc.as_slice()) {
        let r = string_of_range(c.as_slice(), pc.len(), c.len());
        assert(c@.subrange(pc@.len() as int, c@.len() as int) =~= c@.skip(pc@.len() as int));
        Some(r)
    } else {
        None
    }
}

/// `s` without `p` at its end, if it ends with `p`.
fn strip_end(s: &str, p: &str) -> (r: Option<String>)
    ensures
        match r {
            Some(x) => ends_with(s@, p@) && x@ == s@.take(s@.len() - p@.len()),
            None => !ends_with(s@, p@),
        },
{
    let c = chars_of(s);
    let pc = chars_of(p);
    if has_suffix(c.as_slice(), pc.as_slice()) {
        let r = string_of_range(c.as_slice(), 0, c.len() - pc.len());
        assert(c@.subrange(0, c@.len() - pc@.len()) =~= c@.take(c@.len() - pc@.len()));
        Some(r)
    } else {
        None
    }
}

impl CaseConverter {
    #[verifier::type_invariant]
    spec fn ready(self) -> bool {
        &&& converter_ready(self.options)
        &&& self.source_pattern@ == source_of(self.options)
    }

    /// Creates a converter. Fails with the pattern crate's message when the
    /// candidate pattern, the glob or the word filter does not compile.
    pub fn new(options: ConvertOptions) -> (r: Result<CaseConverter, ReformatError>)
        ensures
            r is Ok <==> converter_ready(options),
            r matches Ok(c) ==> c@ == options,
    {
        let source = build_source_pattern(
            options.from,
            [opt_str(&options.strip_prefix), first_str(&options.replace_prefix)],
            [opt_str(&options.strip_suffix), first_str(&options.replace_suffix)],
        );
        assert(source@ == source_of(options));
        if let Err(e) = regex_check(source.as_str()) {
            return Err(ReformatError::new(regex_error_text(&e)));
        }
        if let Some(g) = &options.glob {
            if let Err(e) = glob_check(g.as_str()) {
                return Err(ReformatError::new(glob_error_text(&e)));
            }
        }
        if let Some(w) = &options.word_filter {
            if let Err(e) = regex_check(w.as_str()) {
                return Err(ReformatError::new(regex_error_text(&e)));
            }
        }
        Ok(CaseConverter { options, source_pattern: source })
    }

    /// The options this converter runs with.
    pub fn options(&self) -> (r: &ConvertOptions)
        ensures
            *r == self@,
    {
        &self.options
    }

    /// The regex that finds conversion candidates.
    pub fn source_pattern(&self) -> (r: &str)
        ensures
            r@ == source_of(self@),
    {
        proof {
            use_type_invariant(self);
        }
        self.source_pattern.as_str()
    }

    /// Converts a single identifier.
    pub fn convert(&self, name: &str) -> (r: String)
        ensures
            r@ == convert_spec(self@, name@),
    {
        proof {
            use_type_invariant(self);
        }
        let o = &self.options;
        let mut processed = owned(name);
        if let Some(p) = &o.strip_prefix {
            if let Some(rest) = strip_start(processed.as_str(), p.as_str()) {
                processed = rest;
            }
        }
        if let Some(p) = &o.strip_suffix {
            if let Some(rest) = strip_end(processed.as_str(), p.as_str()) {
                processed = rest;
            }
        }
        if let Some((from, to)) = &o.replace_prefix {
            if let Some(rest) = strip_start(processed.as_str(), from.as_str()) {
                processed = concat2(to.as_str(), rest.as_str());
            }
        }
        if let Some((from, to)) = &o.replace_suffix {
            if let Some(rest) = strip_end(processed.as_str(), from.as_str()) {
                processed = concat2(rest.as_str(), to.as_str());
            }
        }
        assert(processed@ == affixes_applied(self@, name@));
        if let Some(filter) = &o.word_filter {
            if !regex_is_match(filter.as_str(), processed.as_str()) {
                return owned(name);
            }
        }
        let words = o.from.split_words(processed.as_str());
        o.to.join_words(words.as_slice(), o.prefix.as_str(), o.suffix.as_str())
    }

    /// Whether a file passes the glob filter: there is no glob, or it
    /// matches the file's name or its path relative to `base_path`.
    pub fn matches_glob(&self, filepath: &str, base_path: &str) -> (r: bool)
        ensures
            r == glob_accepts(self@, filepath@, base_path@),
    {
        proof {
            use_type_invariant(self);
        }
        match &self.options.glob {
            None => true,
            Some(g) => {
                let by_name = match path_file_name(filepath) {
                    Some(n) => glob_match(g.as_str(), n.as_str()),
                    None => false,
                };
                if by_name {
                    return true;
                }
                match path_strip_prefix(filepath, base_path) {
                    Some(rel) => glob_match_path(g.as_str(), rel.as_str()),
                    None => false,
                }
            },
        }
    }

    /// Reassembles a text from the pieces a search for the source pattern
    /// cut it into: each (gap, match) pair in order with the match
    /// converted, then the text after the last match. Gives the new text
    /// and how many matches the conversion changed.
    pub fn convert_matches(&self, found: &[(String, String)], tail: &str) -> (r: (String, usize))
        ensures
            r.0@ == converted_pieces(self@, pair_views(found@)) + tail@,
            r.1 == changed_count(self@, pair_views(found@)),
    {
        let ghost m = pair_views(found@);
        let mut out = String::new();
        let mut count: usize = 0;
        let mut i: usize = 0;
        while i < found.len()
            invariant
                i <= found@.len(),
                m == pair_views(found@),
                out@ == converted_pieces(self@, m.take(i as int)),
                count == changed_count(self@, m.take(i as int)),
                count <= i,
            decreases found.len() - i,
        {
            let (gap, matched) = (&found[i].0, &found[i].1);
            let converted = self.convert(matched.as_str());
            let changed = !str_eq(converted.as_str(), matched.as_str());
            push_str(&mut out, gap.as_str());
            push_str(&mut out, converted.as_str());
            if changed {
                count = count + 1;
            }
            proof {
                let t1 = m.take(i + 1);
                assert(t1.drop_last() =~= m.take(i as int));
                assert(t1.last() == (gap@, matched@));
            }
            i += 1;
        }
        assert(m.take(m.len() as int) =~= m);
        push_str(&mut out, tail);
        (out, count)
    }
}

impl ContentStep for CaseConverter {
    open spec fn spec_accepts(&self, file: FileTarget) -> bool {
        accepted_by_extension(file, strings_view(self@.file_extensions@), self@.recursive)
            && glob_accepts(self@, file.path@, file.root@)
    }

    open spec fn spec_transform(&self, text: Seq<char>, file: FileTarget) -> Option<(Seq<char>, usize)> {
        convert_transform(self@, text)
    }

    open spec fn spec_name(&self) -> Seq<char> {
        "convert"@
    }

    fn name(&self) -> (r: &'static str) {
        "convert"
    }

    fn accepts(&self, file: &FileTarget) -> (r: bool) {
        accepts_by_extension(file, self.options.file_extensions.as_slice(), self.options.recursive)
            && self.matches_glob(file.path.as_str(), file.root.as_str())
    }

    fn transform(&self, text: &str, file: &FileTarget) -> (r: Option<(String, usize)>) {
        proof {
            use_type_invariant(self);
        }
        let spans = regex_find_spans(self.source_pattern.as_str(), text);
        let (found, tail) = split_at_spans(text, spans.as_slice());
        let (out, count) = self.convert_matches(found.as_slice(), tail.as_str());
        if str_eq(out.as_str(), text) {
            None
        } else {
            Some((out, count))
        }
    }

    fn transform_bytes(&self, bytes: &[u8], file: &FileTarget) -> (r: Option<(Vec<u8>, usize)>) {
        None
    }

    fn supports_bytes(&self) -> (r: bool) {
        false
    }

    fn describe(&self, units: usize, dry_run: bool) -> (r: String)
        ensures
            r@ == if dry_run {
                "Would convert "@ + decimal(units as nat) + " identifier(s) in"@
            } else {
                "Converted "@ + decimal(units as nat) + " identifier(s) in"@
            },
    {
        let n = usize_text(units);
        if dry_run {
            concat3("Would convert ", n.as_str(), " identifier(s) in")
        } else {
            concat3("Converted ", n.as_str(), " identifier(s) in")
        }
    }
}

} // verus!
