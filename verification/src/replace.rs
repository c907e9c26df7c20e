//! Regular-expression find and replace over file contents.
//!
//! The patterns are applied in order, each to the result of the previous
//! one; a pattern counts its matches only when replacing them changes the
//! text.

use vstd::prelude::*;
use crate::step::{ContentStep, FileTarget, accepted_by_extension, accepts_by_extension};
use crate::text::{owned, concat3, str_eq, strings_view, texts, strs, usize_text, decimal, push_str};
use crate::matching::{
    regex_valid, regex_spans, regex_replaced, regex_check, regex_error_text, regex_find_spans,
    regex_replace_all,
};
use crate::error::ReformatError;
use crate::whitespace::sat;

verus! {

/// A single find-and-replace pattern.
#[derive(Debug, Clone)]
pub struct ReplacePattern {
    /// Regex pattern to search for
    pub find: String,
    /// Replacement string (supports capture groups: $1, $2, etc.)
    pub replace: String,
}

/// Options for content replacement.
#[derive(Debug, Clone)]
pub struct ReplaceOptions {
    /// Ordered list of patterns to apply
    pub patterns: Vec<ReplacePattern>,
    /// File extensions to process; empty matches every file
    pub file_extensions: Vec<String>,
    /// Process directories recursively
    pub recursive: bool,
    /// Dry run mode (don't modify files)
    pub dry_run: bool,
}

/// The extensions the replacer handles by default.
pub open spec fn default_replace_extensions() -> Seq<Seq<char>> {
    texts(
        seq![
            ".py", ".pyx", ".pxd", ".pxi", ".c", ".h", ".cpp", ".hpp", ".rs", ".go", ".java", ".js",
            ".ts", ".jsx", ".tsx", ".md", ".qmd", ".txt", ".toml", ".yaml", ".yml", ".json", ".xml",
            ".html", ".css", ".sh",
        ],
    )
}

impl Default for ReplaceOptions {
    fn default() -> (r: ReplaceOptions)
        ensures
            r.patterns@.len() == 0,
            strings_view(r.file_extensions@) == default_replace_extensions(),
            r.recursive,
            !r.dry_run,
    {
        let list = [
            ".py", ".pyx", ".pxd", ".pxi", ".c", ".h", ".cpp", ".hpp", ".rs", ".go", ".java", ".js",
            ".ts", ".jsx", ".tsx", ".md", ".qmd", ".txt", ".toml", ".yaml", ".yml", ".json", ".xml",
            ".html", ".css", ".sh",
        ];
        assert(list@ =~= seq![
            ".py", ".pyx", ".pxd", ".pxi", ".c", ".h", ".cpp", ".hpp", ".rs", ".go", ".java", ".js",
            ".ts", ".jsx", ".tsx", ".md", ".qmd", ".txt", ".toml", ".yaml", ".yml", ".json", ".xml",
            ".html", ".css", ".sh",
        ]);
        ReplaceOptions {
            patterns: Vec::new(),
            file_extensions: strs(&list),
            recursive: true,
            dry_run: false,
        }
    }
}

/// Whether every pattern from `k` on compiles.
pub open spec fn all_valid_from(ps: Seq<ReplacePattern>, k: int) -> bool {
    forall|j: int| k <= j < ps.len() ==> regex_valid(#[trigger] ps[j].find@)
}

/// The patterns from `k` on applied in order to `current`, with the
/// replacements counted so far: a pattern's matches count only when
/// replacing them changes the text.
pub open spec fn apply_patterns(ps: Seq<ReplacePattern>, k: int, current: Seq<char>, total: nat) -> (Seq<char>, nat)
    decreases ps.len() - k,
{
    if k < 0 || k >= ps.len() {
        (current, total)
    } else {
        let p = ps[k];
        let count = regex_spans(p.find@, current).len();
        let result = regex_replaced(p.find@, current, p.replace@);
        if count > 0 && result != current {
            apply_patterns(ps, k + 1, result, total + count)
        } else {
            apply_patterns(ps, k + 1, current, total)
        }
    }
}

/// What the replacer makes of `text`: `None` when nothing changed, else the
/// new text and the number of replacements.
pub open spec fn replace_transform(o: ReplaceOptions, text: Seq<char>) -> Option<(Seq<char>, usize)> {
    let r = apply_patterns(o.patterns@, 0, text, 0);
    if r.0 == text {
        None
    } else {
        Some((r.0, sat(r.1)))
    }
}

/// The index of the first pattern from `k` on that does not compile.
pub open spec fn first_invalid(ps: Seq<ReplacePattern>, k: int) -> int
    decreases ps.len() - k,
{
    if k < 0 || k >= ps.len() {
        ps.len() as int
    } else if !regex_valid(ps[k].find@) {
        k
    } else {
        first_invalid(ps, k + 1)
    }
}

/// Applies regex find-and-replace to file contents.
#[derive(Debug)]
pub struct ContentReplacer {
    options: ReplaceOptions,
}

impl View for ContentReplacer {
    type V = ReplaceOptions;

    closed spec fn view(&self) -> ReplaceOptions {
        self.options
    }
}

impl ContentReplacer {
    #[verifier::type_invariant]
    spec fn patterns_compile(self) -> bool {
        all_valid_from(self.options.patterns@, 0)
    }

    /// Creates a replacer. Fails, naming the pattern, when a pattern is not
    /// a valid regular expression.
    pub fn new(options: ReplaceOptions) -> (r: Result<ContentReplacer, ReformatError>)
        ensures
            r is Ok <==> all_valid_from(options.patterns@, 0),
            r matches Ok(c) ==> c@ == options,
            r matches Err(e) ==> {
                let k = first_invalid(options.patterns@, 0);
                &&& 0 <= k < options.patterns@.len()
                &&& !regex_valid(options.patterns@[k].find@)
                &&& e@.len() >= ("invalid regex pattern '"@ + options.patterns@[k].find@
                    + "': "@).len()
                &&& e@.take(("invalid regex pattern '"@ + options.patterns@[k].find@
                    + "': "@).len() as int) == "invalid regex pattern '"@
                    + options.patterns@[k].find@ + "': "@
            },
    {
        let mut k: usize = 0;
        while k < options.patterns.len()
            invariant
                k <= options.patterns@.len(),
                all_valid_from(options.patterns@, 0) <==> all_valid_from(options.patterns@, k as int),
                first_invalid(options.patterns@, 0) == first_invalid(options.patterns@, k as int),
            decreases options.patterns.len() - k,
        {
            let find = options.patterns[k].find.as_str();
            match regex_check(find) {
                Ok(()) => {},
                Err(e) => {
                    let detail = regex_error_text(&e);
                    let mut m = concat3("invalid regex pattern '", find, "': ");
                    let ghost head = m@;
                    push_str(&mut m, detail.as_str());
                    assert(m@.take(head.len() as int) =~= head);
                    return Err(ReformatError::new(m));
                },
            }
            k += 1;
        }
        Ok(ContentReplacer { options })
    }

    /// The options this replacer runs with.
    pub fn options(&self) -> (r: &ReplaceOptions)
        ensures
            *r == self@,
    {
        &self.options
    }
}

impl ContentStep for ContentReplacer {
    open spec fn spec_accepts(&self, file: FileTarget) -> bool {
        self@.patterns@.len() > 0 && accepted_by_extension(
            file,
            strings_view(self@.file_extensions@),
            self@.recursive,
        )
    }

    open spec fn spec_transform(&self, text: Seq<char>, file: FileTarget) -> Option<(Seq<char>, usize)> {
        replace_transform(self@, text)
    }

    open spec fn spec_name(&self) -> Seq<char> {
        "replace"@
    }

    fn name(&self) -> (r: &'static str) {
        "replace"
    }

    fn accepts(&self, file: &FileTarget) -> (r: bool) {
        self.options.patterns.len() > 0 && accepts_by_extension(
            file,
            self.options.file_extensions.as_slice(),
            self.options.recursive,
        )
    }

    fn transform(&self, text: &str, file: &FileTarget) -> (r: Option<(String, usize)>) {
        proof {
            use_type_invariant(self);
        }
        let ps = &self.options.patterns;
        let mut current = owned(text);
        let mut total: usize = 0;
        let ghost mut exact: nat = 0;
        let mut k: usize = 0;
        while k < ps.len()
            invariant
                k <= ps@.len(),
                ps@ == self@.patterns@,
                all_valid_from(ps@, 0),
                apply_patterns(ps@, 0, text@, 0) == apply_patterns(ps@, k as int, current@, exact),
                total == sat(exact),
            decreases ps.len() - k,
        {
            let p = &ps[k];
            assert(regex_valid(ps@[k as int].find@));
            let count = regex_find_spans(p.find.as_str(), current.as_str()).len();
            if count > 0 {
                let result = regex_replace_all(p.find.as_str(), current.as_str(), p.replace.as_str());
                if !str_eq(result.as_str(), current.as_str()) {
                    total = total.saturating_add(count);
                    proof {
                        exact = exact + count as nat;
                    }
                    current = result;
                }
            }
            k += 1;
        }
        if str_eq(current.as_str(), text) {
            None
        } else {
            Some((current, total))
        }
    }

    fn transform_bytes(&self, bytes: &[u8], file: &FileTarget) -> (r: Option<(Vec<u8>, usize)>) {
        None
    }

    fn supports_bytes(&self) -> (r: bool) {
        false
    }

    fn describe(&self, units: usize, dry_run: bool) -> (r: String)
        ensures
            r@ == if dry_run {
                "Would make "@ + decimal(units as nat) + " replacement(s) in"@
            } else {
                "Made "@ + decimal(units as nat) + " replacement(s) in"@
            },
    {
        let n = usize_text(units);
        if dry_run {
            concat3("Would make ", n.as_str(), " replacement(s) in")
        } else {
            concat3("Made ", n.as_str(), " replacement(s) in")
        }
    }
}

} // verus!
