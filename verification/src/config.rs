//! Presets: named transformation pipelines, and the per-step settings they
//! carry, turned into the options of each transformer.
//!
//! Every setting is optional; what is not given keeps the transformer's
//! default. Unknown values are rejected with a message that names them.

use vstd::prelude::*;
use crate::case::CaseFormat;
use crate::converter::{CaseConverter, ConvertOptions, converter_ready, opt_view};
use crate::emoji::{EmojiOptions, default_emoji_extensions};
use crate::endings::{EndingsOptions, LineEnding, parse_ending, default_endings_extensions};
use crate::group::GroupOptions;
use crate::header::{HeaderOptions, default_header_extensions};
use crate::indent::{IndentOptions, IndentStyle, parse_indent, default_indent_extensions};
use crate::rename::{CaseTransform, RenameOptions, SpaceReplace, TimestampFormat};
use crate::replace::{ReplaceOptions, ReplacePattern, default_replace_extensions};
use crate::whitespace::{WhitespaceOptions, default_clean_extensions};
use crate::matching::{regex_escaped, regex_escape};
use crate::text::{
    owned, concat2, concat3, chars_of, str_eq, strings_view, texts, join, join_strings, strs,
    usize_text, decimal, replaced, replace_str, push_str,
};
use crate::error::ReformatError;

verus! {

/// Valid step names for presets.
pub const VALID_STEPS: [&'static str; 10] = [
    "rename",
    "emojis",
    "clean",
    "convert",
    "group",
    "endings",
    "indent",
    "replace",
    "header",
    "editorconfig",
];

/// The valid step names, as sequences.
pub open spec fn valid_steps() -> Seq<Seq<char>> {
    texts(VALID_STEPS@)
}

/// Position of the first step in `steps` that is not a valid step name
/// (the length when all are).
pub open spec fn first_unknown_step(steps: Seq<Seq<char>>) -> int
    decreases steps.len(),
{
    if steps.len() == 0 {
        0
    } else if !valid_steps().contains(steps[0]) {
        0
    } else {
        1 + first_unknown_step(steps.drop_first())
    }
}

proof fn lemma_first_unknown_step(steps: Seq<Seq<char>>)
    ensures
        0 <= first_unknown_step(steps) <= steps.len(),
        forall|j: int| 0 <= j < first_unknown_step(steps) ==> valid_steps().contains(steps[j]),
        first_unknown_step(steps) < steps.len() ==> !valid_steps().contains(
            steps[first_unknown_step(steps)],
        ),
    decreases steps.len(),
{
    if steps.len() > 0 && valid_steps().contains(steps[0]) {
        let t = steps.drop_first();
        lemma_first_unknown_step(t);
        assert forall|j: int| 0 <= j < first_unknown_step(steps) implies valid_steps().contains(
            steps[j],
        ) by {
            if j > 0 {
                assert(steps[j] == t[j - 1]);
            }
        }
        if first_unknown_step(steps) < steps.len() {
            assert(steps[first_unknown_step(steps)] == t[first_unknown_step(t)]);
        }
    }
}

/// Whether `s` is one of the valid step names.
pub fn is_valid_step(s: &str) -> (r: bool)
    ensures
        r == valid_steps().contains(s@),
{
    let mut i: usize = 0;
    while i < VALID_STEPS.len()
        invariant
            i <= 10,
            forall|j: int| 0 <= j < i ==> VALID_STEPS@[j]@ != s@,
        decreases 10 - i,
    {
        if str_eq(VALID_STEPS[i], s) {
            assert(valid_steps()[i as int] == s@);
            return true;
        }
        i += 1;
    }
    assert forall|j: int| 0 <= j < valid_steps().len() implies valid_steps()[j] != s@ by {
        assert(valid_steps()[j] == VALID_STEPS@[j]@);
    }
    false
}

/// Checks that every step of a preset is recognised; the first unknown
/// one is reported with the preset's name and the valid names.
pub fn validate_steps(preset_name: &str, steps: &[String]) -> (r: Result<(), ReformatError>)
    ensures
        r is Ok <==> forall|j: int| 0 <= j < steps@.len() ==> valid_steps().contains(
            #[trigger] steps@[j]@,
        ),
        r matches Err(e) ==> {
            let k = first_unknown_step(strings_view(steps@));
            &&& 0 <= k < steps@.len()
            &&& e@ == "preset '"@ + preset_name@ + "': unknown step '"@ + steps@[k]@
                + "'. Valid steps: "@ + join(valid_steps(), ", "@)
        },
{
    let ghost sv = strings_view(steps@);
    proof {
        lemma_first_unknown_step(sv);
    }
    let mut i: usize = 0;
    while i < steps.len()
        invariant
            i <= steps@.len(),
            sv == strings_view(steps@),
            0 <= first_unknown_step(sv) <= sv.len(),
            forall|j: int| 0 <= j < first_unknown_step(sv) ==> valid_steps().contains(sv[j]),
            first_unknown_step(sv) < sv.len() ==> !valid_steps().contains(
                sv[first_unknown_step(sv)],
            ),
            forall|j: int| 0 <= j < i ==> valid_steps().contains(#[trigger] steps@[j]@),
        decreases steps.len() - i,
    {
        let step = steps[i].as_str();
        if !is_valid_step(step) {
            proof {
                if first_unknown_step(sv) < i {
                    assert(sv[first_unknown_step(sv)] == steps@[first_unknown_step(sv)]@);
                }
                if first_unknown_step(sv) > i {
                    assert(sv[i as int] == steps@[i as int]@);
                }
            }
            let names = strs(&VALID_STEPS);
            let listed = join_strings(names.as_slice(), ", ");
            let mut m = concat3("preset '", preset_name, "': unknown step '");
            push_str(&mut m, step);
            push_str(&mut m, "'. Valid steps: ");
            push_str(&mut m, listed.as_str());
            return Err(ReformatError::new(m));
        }
        i += 1;
    }
    Ok(())
}

/// Settings for the rename step.
#[derive(Debug, Clone, Default)]
pub struct RenameConfig {
    pub case_transform: Option<String>,
    pub space_replace: Option<String>,
    pub recursive: Option<bool>,
    pub include_symlinks: Option<bool>,
    pub add_prefix: Option<String>,
    pub remove_prefix: Option<String>,
    pub add_suffix: Option<String>,
    pub remove_suffix: Option<String>,
    /// Two entries: the prefix to match and its replacement.
    pub replace_prefix: Option<Vec<String>>,
    /// Two entries: the suffix to match and its replacement.
    pub replace_suffix: Option<Vec<String>>,
    /// "long" (YYYYMMDD) or "short" (YYMMDD).
    pub timestamp: Option<String>,
    /// Only rename files with these extensions. Applied by the caller that
    /// selects files; the rename options have no extension filter.
    pub file_extensions: Option<Vec<String>>,
}

/// Settings for the emojis step.
#[derive(Debug, Clone, Default)]
pub struct EmojiConfig {
    pub replace_task_emojis: Option<bool>,
    pub remove_other_emojis: Option<bool>,
    pub file_extensions: Option<Vec<String>>,
    pub recursive: Option<bool>,
}

/// Settings for the clean step.
#[derive(Debug, Clone, Default)]
pub struct CleanConfig {
    pub remove_trailing: Option<bool>,
    pub insert_final_newline: Option<bool>,
    pub trim_trailing_blank_lines: Option<bool>,
    pub file_extensions: Option<Vec<String>>,
    pub recursive: Option<bool>,
}

/// Settings for the convert step.
#[derive(Debug, Clone, Default)]
pub struct ConvertConfig {
    pub from_format: Option<String>,
    pub to_format: Option<String>,
    pub file_extensions: Option<Vec<String>>,
    pub recursive: Option<bool>,
    pub prefix: Option<String>,
    pub suffix: Option<String>,
    pub glob: Option<String>,
    pub word_filter: Option<String>,
    pub strip_prefix: Option<String>,
    pub strip_suffix: Option<String>,
    pub replace_prefix_from: Option<String>,
    pub replace_prefix_to: Option<String>,
    pub replace_suffix_from: Option<String>,
    pub replace_suffix_to: Option<String>,
}

/// Settings for the group step.
#[derive(Debug, Clone, Default)]
pub struct GroupConfig {
    pub separator: Option<String>,
    pub min_count: Option<usize>,
    pub strip_prefix: Option<bool>,
    pub from_suffix: Option<bool>,
    pub recursive: Option<bool>,
}

/// Settings for the endings step.
#[derive(Debug, Clone, Default)]
pub struct EndingsConfig {
    pub style: Option<String>,
    pub file_extensions: Option<Vec<String>>,
    pub recursive: Option<bool>,
}

/// Settings for the indent step.
#[derive(Debug, Clone, Default)]
pub struct IndentConfig {
    pub style: Option<String>,
    pub width: Option<usize>,
    pub file_extensions: Option<Vec<String>>,
    pub recursive: Option<bool>,
}

/// One replace pattern as a preset writes it.
#[derive(Debug, Clone)]
pub struct ReplacePatternEntry {
    pub find: String,
    pub replace: String,
    /// Match `find` as plain text and insert `replace` without `$` expansion.
    pub literal: bool,
    /// Match regardless of case.
    pub ignore_case: bool,
}

/// Settings for the replace step.
#[derive(Debug, Clone, Default)]
pub struct ReplaceConfig {
    pub patterns: Option<Vec<ReplacePatternEntry>>,
    pub file_extensions: Option<Vec<String>>,
    pub recursive: Option<bool>,
}

/// Settings for the header step.
#[derive(Debug, Clone, Default)]
pub struct HeaderConfig {
    pub text: Option<String>,
    pub update_year: Option<bool>,
    pub file_extensions: Option<Vec<String>>,
    pub recursive: Option<bool>,
}

/// Settings for the editorconfig step.
#[derive(Debug, Clone, Default)]
pub struct EditorConfigConfig {
    /// Also rewrite indentation from `indent_style` and `tab_width`.
    pub indent: Option<bool>,
    pub recursive: Option<bool>,
}

/// A named preset: an ordered list of steps and their settings.
#[derive(Debug, Clone, Default)]
pub struct Preset {
    /// Ordered list of step names to execute (see [`VALID_STEPS`]).
    pub steps: Vec<String>,
    pub rename: Option<RenameConfig>,
    pub emojis: Option<EmojiConfig>,
    pub clean: Option<CleanConfig>,
    pub convert: Option<ConvertConfig>,
    pub group: Option<GroupConfig>,
    pub endings: Option<EndingsConfig>,
    pub indent: Option<IndentConfig>,
    pub replace: Option<ReplaceConfig>,
    pub header: Option<HeaderConfig>,
    pub editorconfig: Option<EditorConfigConfig>,
}

/// The case transform a setting names.
pub open spec fn case_transform_named(s: Seq<char>) -> Option<CaseTransform> {
    if s == "lowercase"@ {
        Some(CaseTransform::Lowercase)
    } else if s == "uppercase"@ {
        Some(CaseTransform::Uppercase)
    } else if s == "capitalize"@ {
        Some(CaseTransform::Capitalize)
    } else if s == "none"@ {
        Some(CaseTransform::Keep)
    } else {
        None
    }
}

/// The space replacement a setting names.
pub open spec fn space_replace_named(s: Seq<char>) -> Option<SpaceReplace> {
    if s == "underscore"@ {
        Some(SpaceReplace::Underscore)
    } else if s == "hyphen"@ {
        Some(SpaceReplace::Hyphen)
    } else if s == "none"@ {
        Some(SpaceReplace::Keep)
    } else {
        None
    }
}

/// The timestamp format a setting names.
pub open spec fn timestamp_named(s: Seq<char>) -> Option<TimestampFormat> {
    if s == "long"@ {
        Some(TimestampFormat::Long)
    } else if s == "short"@ {
        Some(TimestampFormat::Short)
    } else if s == "none"@ {
        Some(TimestampFormat::Omit)
    } else {
        None
    }
}

/// The case format a name stands for: the short name or the format written
/// in itself.
pub open spec fn case_format_named(s: Seq<char>) -> Option<CaseFormat> {
    if s == "camel"@ || s == "camelCase"@ {
        Some(CaseFormat::CamelCase)
    } else if s == "pascal"@ || s == "PascalCase"@ {
        Some(CaseFormat::PascalCase)
    } else if s == "snake"@ || s == "snake_case"@ {
        Some(CaseFormat::SnakeCase)
    } else if s == "screaming_snake"@ || s == "SCREAMING_SNAKE_CASE"@ {
        Some(CaseFormat::ScreamingSnakeCase)
    } else if s == "kebab"@ || s == "kebab-case"@ {
        Some(CaseFormat::KebabCase)
    } else if s == "screaming_kebab"@ || s == "SCREAMING-KEBAB-CASE"@ {
        Some(CaseFormat::ScreamingKebabCase)
    } else {
        None
    }
}

/// Parses a case format name.
pub fn parse_case_format(s: &str) -> (r: Option<CaseFormat>)
    ensures
        r == case_format_named(s@),
{
    if str_eq(s, "camel") || str_eq(s, "camelCase") {
        Some(CaseFormat::CamelCase)
    } else if str_eq(s, "pascal") || str_eq(s, "PascalCase") {
        Some(CaseFormat::PascalCase)
    } else if str_eq(s, "snake") || str_eq(s, "snake_case") {
        Some(CaseFormat::SnakeCase)
    } else if str_eq(s, "screaming_snake") || str_eq(s, "SCREAMING_SNAKE_CASE") {
        Some(CaseFormat::ScreamingSnakeCase)
    } else if str_eq(s, "kebab") || str_eq(s, "kebab-case") {
        Some(CaseFormat::KebabCase)
    } else if str_eq(s, "screaming_kebab") || str_eq(s, "SCREAMING-KEBAB-CASE") {
        Some(CaseFormat::ScreamingKebabCase)
    } else {
        None
    }
}

/// A copy of an optional string.
pub fn clone_opt(o: &Option<String>) -> (r: Option<String>)
    ensures
        opt_view(r) == opt_view(*o),
{
    match o {
        Some(s) => Some(owned(s.as_str())),
        None => None,
    }
}

/// A copy of a list of strings.
pub fn clone_strings(v: &[String]) -> (r: Vec<String>)
    ensures
        strings_view(r@) == strings_view(v@),
{
    let mut out: Vec<String> = Vec::new();
    let mut i: usize = 0;
    while i < v.len()
        invariant
            i <= v@.len(),
            strings_view(out@) == strings_view(v@.take(i as int)),
        decreases v.len() - i,
    {
        let ghost before = out@;
        out.push(owned(v[i].as_str()));
        proof {
            crate::text::lemma_take_push(v@, i as int);
            crate::text::lemma_texts_push(before, out@.last());
            crate::text::lemma_texts_push(v@.take(i as int), v@[i as int]);
            assert(out@ == before.push(out@.last()));
        }
        i += 1;
    }
    assert(v@.take(v@.len() as int) == v@);
    out
}

/// A two-entry `[from, to]` setting as a pair.
pub open spec fn pair_of(values: Option<Vec<String>>, field: Seq<char>) -> Result<Option<(Seq<char>, Seq<char>)>, Seq<char>> {
    match values {
        None => Ok(None),
        Some(v) => if v@.len() == 2 {
            Ok(Some((v@[0]@, v@[1]@)))
        } else {
            Err(field + " expects exactly 2 values, got "@ + decimal(v@.len()))
        },
    }
}

/// Whether a parsed pair setting came out as `p`.
pub open spec fn pair_of_is(p: Option<(String, String)>, values: Option<Vec<String>>, field: Seq<char>) -> bool {
    pair_of(values, field) == Result::<Option<(Seq<char>, Seq<char>)>, Seq<char>>::Ok(pair_view(p))
}

/// Whether a pair of settings came out as `p`.
pub open spec fn both_of_is(p: Option<(String, String)>, from: Option<String>, to: Option<String>, field: Seq<char>) -> bool {
    both_of(from, to, field) == Result::<Option<(Seq<char>, Seq<char>)>, Seq<char>>::Ok(pair_view(p))
}

/// An optional pair of strings by their characters.
pub open spec fn pair_view(o: Option<(String, String)>) -> Option<(Seq<char>, Seq<char>)> {
    match o {
        Some(p) => Some((p.0@, p.1@)),
        None => None,
    }
}

/// Converts a two-element `[from, to]` setting into a pair.
fn pair(values: &Option<Vec<String>>, field: &str) -> (r: Result<Option<(String, String)>, ReformatError>)
    ensures
        match pair_of(*values, field@) {
            Ok(p) => r matches Ok(q) && pair_view(q) == p,
            Err(m) => r matches Err(e) && e@ == m,
        },
{
    match values {
        None => Ok(None),
        Some(v) => {
            if v.len() == 2 {
                Ok(Some((owned(v[0].as_str()), owned(v[1].as_str()))))
            } else {
                let n = usize_text(v.len());
                let m = concat3(field, " expects exactly 2 values, got ", n.as_str());
                Err(ReformatError::new(m))
            }
        },
    }
}

/// Two settings that must be given together, as a pair.
pub open spec fn both_of(from: Option<String>, to: Option<String>, field: Seq<char>) -> Result<Option<(Seq<char>, Seq<char>)>, Seq<char>> {
    match (from, to) {
        (None, None) => Ok(None),
        (Some(f), Some(t)) => Ok(Some((f@, t@))),
        _ => Err(field + "_from and "@ + field + "_to must be given together"@),
    }
}

/// Pairs `{field}_from` and `{field}_to`, which must be given together.
fn both(from: &Option<String>, to: &Option<String>, field: &str) -> (r: Result<Option<(String, String)>, ReformatError>)
    ensures
        match both_of(*from, *to, field@) {
            Ok(p) => r matches Ok(q) && pair_view(q) == p,
            Err(m) => r matches Err(e) && e@ == m,
        },
{
    match (from, to) {
        (None, None) => Ok(None),
        (Some(f), Some(t)) => Ok(Some((owned(f.as_str()), owned(t.as_str())))),
        _ => {
            let mut m = concat3(field, "_from and ", field);
            push_str(&mut m, "_to must be given together");
            Err(ReformatError::new(m))
        },
    }
}

/// The first problem with a rename setting, if any.
pub open spec fn rename_config_error(c: RenameConfig) -> Option<Seq<char>> {
    let ct = match c.case_transform {
        Some(v) => if case_transform_named(v@) is None {
            Some(
                "unknown rename.case_transform '"@ + v@
                    + "'. Valid values: lowercase, uppercase, capitalize, none"@,
            )
        } else {
            None
        },
        None => None,
    };
    let sr = match c.space_replace {
        Some(v) => if space_replace_named(v@) is None {
            Some("unknown rename.space_replace '"@ + v@ + "'. Valid values: underscore, hyphen, none"@)
        } else {
            None
        },
        None => None,
    };
    let rp = match pair_of(c.replace_prefix, "rename.replace_prefix"@) {
        Err(m) => Some(m),
        Ok(_) => None,
    };
    let rs = match pair_of(c.replace_suffix, "rename.replace_suffix"@) {
        Err(m) => Some(m),
        Ok(_) => None,
    };
    let ts = match c.timestamp {
        Some(v) => if timestamp_named(v@) is None {
            Some("unknown rename.timestamp '"@ + v@ + "'. Valid values: long, short, none"@)
        } else {
            None
        },
        None => None,
    };
    if ct is Some {
        ct
    } else if sr is Some {
        sr
    } else if rp is Some {
        rp
    } else if rs is Some {
        rs
    } else {
        ts
    }
}

impl RenameConfig {
    /// Parses `case_transform`, rejecting unrecognised values.
    pub fn parse_case_transform(&self) -> (r: Result<Option<CaseTransform>, ReformatError>)
        ensures
            match self.case_transform {
                None => r matches Ok(None),
                Some(v) => match case_transform_named(v@) {
                    Some(t) => r matches Ok(Some(u)) && u == t,
                    None => r matches Err(e) && e@ == "unknown rename.case_transform '"@ + v@
                        + "'. Valid values: lowercase, uppercase, capitalize, none"@,
                },
            },
    {
        match &self.case_transform {
            None => Ok(None),
            Some(v) => {
                let s = v.as_str();
                if str_eq(s, "lowercase") {
                    Ok(Some(CaseTransform::Lowercase))
                } else if str_eq(s, "uppercase") {
                    Ok(Some(CaseTransform::Uppercase))
                } else if str_eq(s, "capitalize") {
                    Ok(Some(CaseTransform::Capitalize))
                } else if str_eq(s, "none") {
                    Ok(Some(CaseTransform::Keep))
                } else {
                    Err(
                        ReformatError::new(
                            concat3(
                                "unknown rename.case_transform '",
                                s,
                                "'. Valid values: lowercase, uppercase, capitalize, none",
                            ),
                        ),
                    )
                }
            },
        }
    }

    /// Parses `space_replace`, rejecting unrecognised values.
    pub fn parse_space_replace(&self) -> (r: Result<Option<SpaceReplace>, ReformatError>)
        ensures
            match self.space_replace {
                None => r matches Ok(None),
                Some(v) => match space_replace_named(v@) {
                    Some(t) => r matches Ok(Some(u)) && u == t,
                    None => r matches Err(e) && e@ == "unknown rename.space_replace '"@ + v@
                        + "'. Valid values: underscore, hyphen, none"@,
                },
            },
    {
        match &self.space_replace {
            None => Ok(None),
            Some(v) => {
                let s = v.as_str();
                if str_eq(s, "underscore") {
                    Ok(Some(SpaceReplace::Underscore))
                } else if str_eq(s, "hyphen") {
                    Ok(Some(SpaceReplace::Hyphen))
                } else if str_eq(s, "none") {
                    Ok(Some(SpaceReplace::Keep))
                } else {
                    Err(
                        ReformatError::new(
                            concat3(
                                "unknown rename.space_replace '",
                                s,
                                "'. Valid values: underscore, hyphen, none",
                            ),
                        ),
                    )
                }
            },
        }
    }

    /// Builds the renamer options this setting describes.
    pub fn to_options(&self, dry_run: bool) -> (r: Result<RenameOptions, ReformatError>)
        ensures
            r is Err <==> rename_config_error(*self) is Some,
            r matches Err(e) ==> rename_config_error(*self) == Some(e@),
            r matches Ok(o) ==> {
                &&& o.dry_run == dry_run
                &&& o.case_transform == match self.case_transform {
                    Some(v) => case_transform_named(v@).unwrap(),
                    None => CaseTransform::Keep,
                }
                &&& o.space_replace == match self.space_replace {
                    Some(v) => space_replace_named(v@).unwrap(),
                    None => SpaceReplace::Keep,
                }
                &&& o.recursive == match self.recursive {
                    Some(b) => b,
                    None => true,
                }
                &&& o.include_symlinks == match self.include_symlinks {
                    Some(b) => b,
                    None => false,
                }
                &&& opt_view(o.add_prefix) == opt_view(self.add_prefix)
                &&& opt_view(o.remove_prefix) == opt_view(self.remove_prefix)
                &&& opt_view(o.add_suffix) == opt_view(self.add_suffix)
                &&& opt_view(o.remove_suffix) == opt_view(self.remove_suffix)
                &&& pair_of_is(o.replace_prefix, 
                    self.replace_prefix,
                    "rename.replace_prefix"@,
                )
                &&& pair_of_is(o.replace_suffix, 
                    self.replace_suffix,
                    "rename.replace_suffix"@,
                )
                &&& o.timestamp_format == match self.timestamp {
                    Some(v) => timestamp_named(v@).unwrap(),
                    None => TimestampFormat::Omit,
                }
            },
    {
        let mut options = RenameOptions::default();
        options.dry_run = dry_run;
        match self.parse_case_transform() {
            Err(e) => return Err(e),
            Ok(Some(v)) => options.case_transform = v,
            Ok(None) => {},
        }
        match self.parse_space_replace() {
            Err(e) => return Err(e),
            Ok(Some(v)) => options.space_replace = v,
            Ok(None) => {},
        }
        if let Some(v) = self.recursive {
            options.recursive = v;
        }
        if let Some(v) = self.include_symlinks {
            options.include_symlinks = v;
        }
        options.add_prefix = clone_opt(&self.add_prefix);
        options.remove_prefix = clone_opt(&self.remove_prefix);
        options.add_suffix = clone_opt(&self.add_suffix);
        options.remove_suffix = clone_opt(&self.remove_suffix);
        options.replace_prefix = match pair(&self.replace_prefix, "rename.replace_prefix") {
            Err(e) => return Err(e),
            Ok(p) => p,
        };
        options.replace_suffix = match pair(&self.replace_suffix, "rename.replace_suffix") {
            Err(e) => return Err(e),
            Ok(p) => p,
        };
        options.timestamp_format = match &self.timestamp {
            None => TimestampFormat::Omit,
            Some(v) => {
                let s = v.as_str();
                if str_eq(s, "long") {
                    TimestampFormat::Long
                } else if str_eq(s, "short") {
                    TimestampFormat::Short
                } else if str_eq(s, "none") {
                    TimestampFormat::Omit
                } else {
                    return Err(
                        ReformatError::new(
                            concat3(
                                "unknown rename.timestamp '",
                                s,
                                "'. Valid values: long, short, none",
                            ),
                        ),
                    );
                }
            },
        };
        Ok(options)
    }
}

impl EmojiConfig {
    /// Whether `r` are the emoji transformer options this setting describes:
    /// what is not given keeps its default.
    pub open spec fn gives(&self, r: EmojiOptions, dry_run: bool) -> bool {
        &&& r.dry_run == dry_run
        &&& r.replace_task_emojis == match self.replace_task_emojis {
            Some(b) => b,
            None => true,
        }
        &&& r.remove_other_emojis == match self.remove_other_emojis {
            Some(b) => b,
            None => true,
        }
        &&& strings_view(r.file_extensions@) == match self.file_extensions {
            Some(v) => strings_view(v@),
            None => default_emoji_extensions(),
        }
        &&& r.recursive == match self.recursive {
            Some(b) => b,
            None => true,
        }
    }

    /// Builds the emoji transformer options this setting describes.
    pub fn to_options(&self, dry_run: bool) -> (r: EmojiOptions)
        ensures
            self.gives(r, dry_run),
    {
        let mut options = EmojiOptions::default();
        options.dry_run = dry_run;
        if let Some(v) = self.replace_task_emojis {
            options.replace_task_emojis = v;
        }
        if let Some(v) = self.remove_other_emojis {
            options.remove_other_emojis = v;
        }
        if let Some(v) = &self.file_extensions {
            options.file_extensions = clone_strings(v.as_slice());
        }
        if let Some(v) = self.recursive {
            options.recursive = v;
        }
        options
    }
}

impl CleanConfig {
    /// Whether `r` are the whitespace cleaner options this setting
    /// describes: what is not given keeps its default.
    pub open spec fn gives(&self, r: WhitespaceOptions, dry_run: bool) -> bool {
        &&& r.dry_run == dry_run
        &&& r.remove_trailing == match self.remove_trailing {
            Some(b) => b,
            None => true,
        }
        &&& r.insert_final_newline == match self.insert_final_newline {
            Some(b) => b,
            None => false,
        }
        &&& r.trim_trailing_blank_lines == match self.trim_trailing_blank_lines {
            Some(b) => b,
            None => false,
        }
        &&& strings_view(r.file_extensions@) == match self.file_extensions {
            Some(v) => strings_view(v@),
            None => default_clean_extensions(),
        }
        &&& r.recursive == match self.recursive {
            Some(b) => b,
            None => true,
        }
    }

    /// Builds the whitespace cleaner options this setting describes.
    pub fn to_options(&self, dry_run: bool) -> (r: WhitespaceOptions)
        ensures
            self.gives(r, dry_run),
    {
        let mut options = WhitespaceOptions::default();
        options.dry_run = dry_run;
        if let Some(v) = self.remove_trailing {
            options.remove_trailing = v;
        }
        if let Some(v) = self.insert_final_newline {
            options.insert_final_newline = v;
        }
        if let Some(v) = self.trim_trailing_blank_lines {
            options.trim_trailing_blank_lines = v;
        }
        if let Some(v) = &self.file_extensions {
            options.file_extensions = clone_strings(v.as_slice());
        }
        if let Some(v) = self.recursive {
            options.recursive = v;
        }
        options
    }
}

/// The first problem with a convert setting, if any.
pub open spec fn convert_config_error(c: ConvertConfig) -> Option<Seq<char>> {
    let from = match c.from_format {
        Some(v) => case_format_named(v@),
        None => None,
    };
    let to = match c.to_format {
        Some(v) => case_format_named(v@),
        None => None,
    };
    if from is None {
        Some("convert.from_format is missing or invalid"@)
    } else if to is None {
        Some("convert.to_format is missing or invalid"@)
    } else {
        match both_of(c.replace_prefix_from, c.replace_prefix_to, "convert.replace_prefix"@) {
            Err(m) => Some(m),
            Ok(_) => match both_of(
                c.replace_suffix_from,
                c.replace_suffix_to,
                "convert.replace_suffix"@,
            ) {
                Err(m) => Some(m),
                Ok(_) => None,
            },
        }
    }
}

impl ConvertConfig {
    /// Whether `o` are the case converter options this setting describes.
    pub open spec fn gives(&self, o: ConvertOptions, dry_run: bool) -> bool {
        &&& Some(o.from) == self.parse_from_format_spec()
        &&& Some(o.to) == self.parse_to_format_spec()
        &&& strings_view(o.file_extensions@) == match self.file_extensions {
            Some(v) => strings_view(v@),
            None => crate::converter::default_convert_extensions(),
        }
        &&& o.recursive == match self.recursive {
            Some(b) => b,
            None => true,
        }
        &&& o.dry_run == dry_run
        &&& o.prefix@ == match self.prefix {
            Some(s) => s@,
            None => seq![],
        }
        &&& o.suffix@ == match self.suffix {
            Some(s) => s@,
            None => seq![],
        }
        &&& opt_view(o.strip_prefix) == opt_view(self.strip_prefix)
        &&& opt_view(o.strip_suffix) == opt_view(self.strip_suffix)
        &&& both_of_is(o.replace_prefix, 
            self.replace_prefix_from,
            self.replace_prefix_to,
            "convert.replace_prefix"@,
        )
        &&& both_of_is(o.replace_suffix, 
            self.replace_suffix_from,
            self.replace_suffix_to,
            "convert.replace_suffix"@,
        )
        &&& opt_view(o.glob) == opt_view(self.glob)
        &&& opt_view(o.word_filter) == opt_view(self.word_filter)
    }

    /// The source format, if it is given and known.
    pub fn parse_from_format(&self) -> (r: Option<CaseFormat>)
        ensures
            r == match self.from_format {
                Some(v) => case_format_named(v@),
                None => None,
            },
    {
        match &self.from_format {
            Some(v) => parse_case_format(v.as_str()),
            None => None,
        }
    }

    /// The target format, if it is given and known.
    pub fn parse_to_format(&self) -> (r: Option<CaseFormat>)
        ensures
            r == match self.to_format {
                Some(v) => case_format_named(v@),
                None => None,
            },
    {
        match &self.to_format {
            Some(v) => parse_case_format(v.as_str()),
            None => None,
        }
    }

    /// Builds the case converter options this setting describes.
    pub fn to_options(&self, dry_run: bool) -> (r: Result<ConvertOptions, ReformatError>)
        ensures
            r is Err <==> convert_config_error(*self) is Some,
            r matches Err(e) ==> convert_config_error(*self) == Some(e@),
            r matches Ok(o) ==> self.gives(o, dry_run),
    {
        let from = match self.parse_from_format() {
            Some(f) => f,
            None => return Err(ReformatError::new(owned("convert.from_format is missing or invalid"))),
        };
        let to = match self.parse_to_format() {
            Some(t) => t,
            None => return Err(ReformatError::new(owned("convert.to_format is missing or invalid"))),
        };
        let replace_prefix = match both(
            &self.replace_prefix_from,
            &self.replace_prefix_to,
            "convert.replace_prefix",
        ) {
            Err(e) => return Err(e),
            Ok(p) => p,
        };
        let replace_suffix = match both(
            &self.replace_suffix_from,
            &self.replace_suffix_to,
            "convert.replace_suffix",
        ) {
            Err(e) => return Err(e),
            Ok(p) => p,
        };
        let mut options = ConvertOptions::new(from, to);
        if let Some(v) = &self.file_extensions {
            options.file_extensions = clone_strings(v.as_slice());
        }
        options.recursive = match self.recursive {
            Some(b) => b,
            None => true,
        };
        options.dry_run = dry_run;
        options.prefix = match &self.prefix {
            Some(s) => owned(s.as_str()),
            None => String::new(),
        };
        options.suffix = match &self.suffix {
            Some(s) => owned(s.as_str()),
            None => String::new(),
        };
        options.strip_prefix = clone_opt(&self.strip_prefix);
        options.strip_suffix = clone_opt(&self.strip_suffix);
        options.replace_prefix = replace_prefix;
        options.replace_suffix = replace_suffix;
        options.glob = clone_opt(&self.glob);
        options.word_filter = clone_opt(&self.word_filter);
        Ok(options)
    }

    /// The source format this setting names (as a specification).
    pub open spec fn parse_from_format_spec(&self) -> Option<CaseFormat> {
        match self.from_format {
            Some(v) => case_format_named(v@),
            None => None,
        }
    }

    /// The target format this setting names (as a specification).
    pub open spec fn parse_to_format_spec(&self) -> Option<CaseFormat> {
        match self.to_format {
            Some(v) => case_format_named(v@),
            None => None,
        }
    }

    /// Builds the case converter this setting describes.
    pub fn to_converter(&self, dry_run: bool) -> (r: Result<CaseConverter, ReformatError>)
        ensures
            convert_config_error(*self) is Some ==> (r matches Err(e) && convert_config_error(
                *self,
            ) == Some(e@)),
            r matches Ok(c) ==> convert_config_error(*self) is None && converter_ready(c@)
                && self.gives(c@, dry_run),
            r is Err && convert_config_error(*self) is None ==> exists|o: ConvertOptions|
                self.gives(o, dry_run) && !converter_ready(o),
    {
        match self.to_options(dry_run) {
            Err(e) => Err(e),
            Ok(o) => CaseConverter::new(o),
        }
    }
}

/// The first problem with a group setting, if any.
pub open spec fn group_config_error(c: GroupConfig) -> Option<Seq<char>> {
    match c.separator {
        Some(v) => if v@.len() != 1 {
            Some("group.separator must be a single character, got '"@ + v@ + "'"@)
        } else {
            None
        },
        None => None,
    }
}

impl GroupConfig {
    /// Builds the file grouper options this setting describes. Splitting at
    /// the last separator implies stripping the prefix before it.
    pub fn to_options(&self, dry_run: bool) -> (r: Result<GroupOptions, ReformatError>)
        ensures
            r is Err <==> group_config_error(*self) is Some,
            r matches Err(e) ==> group_config_error(*self) == Some(e@),
            r matches Ok(o) ==> {
                &&& o.dry_run == dry_run
                &&& o.separator == match self.separator {
                    Some(v) => v@[0],
                    None => '_',
                }
                &&& o.min_count == match self.min_count {
                    Some(n) => n,
                    None => 2,
                }
                &&& o.from_suffix == match self.from_suffix {
                    Some(b) => b,
                    None => false,
                }
                &&& o.strip_prefix == (o.from_suffix || match self.strip_prefix {
                    Some(b) => b,
                    None => false,
                })
                &&& o.recursive == match self.recursive {
                    Some(b) => b,
                    None => false,
                }
            },
    {
        let mut options = GroupOptions::default();
        options.dry_run = dry_run;
        if let Some(v) = &self.separator {
            let cs = chars_of(v.as_str());
            if cs.len() == 1 {
                options.separator = cs[0];
            } else {
                proof {
                    reveal_strlit("'");
                }
                return Err(
                    ReformatError::new(
                        concat3("group.separator must be a single character, got '", v.as_str(), "'"),
                    ),
                );
            }
        }
        if let Some(v) = self.min_count {
            options.min_count = v;
        }
        if let Some(v) = self.strip_prefix {
            options.strip_prefix = v;
        }
        if let Some(v) = self.from_suffix {
            options.from_suffix = v;
            if v {
                options.strip_prefix = true;
            }
        }
        if let Some(v) = self.recursive {
            options.recursive = v;
        }
        Ok(options)
    }
}

impl EndingsConfig {
    /// Whether `o` are the line ending normalizer options this setting
    /// describes.
    pub open spec fn gives(&self, o: EndingsOptions, dry_run: bool) -> bool {
        &&& o.dry_run == dry_run
        &&& o.style == match self.style {
            Some(v) => parse_ending(v@).unwrap(),
            None => LineEnding::Lf,
        }
        &&& strings_view(o.file_extensions@) == match self.file_extensions {
            Some(v) => strings_view(v@),
            None => default_endings_extensions(),
        }
        &&& o.recursive == match self.recursive {
            Some(b) => b,
            None => true,
        }
    }

    /// Builds the line ending normalizer options this setting describes.
    pub fn to_options(&self, dry_run: bool) -> (r: Result<EndingsOptions, ReformatError>)
        ensures
            r is Err <==> (self.style matches Some(v) && parse_ending(v@) is None),
            r matches Err(e) ==> self.style matches Some(v) && e@ == "unknown endings.style '"@
                + v@ + "'. Valid values: lf, crlf, cr"@,
            r matches Ok(o) ==> self.gives(o, dry_run),
    {
        let mut options = EndingsOptions::default();
        options.dry_run = dry_run;
        if let Some(v) = &self.style {
            match LineEnding::parse(v.as_str()) {
                Some(s) => options.style = s,
                None => {
                    return Err(
                        ReformatError::new(
                            concat3("unknown endings.style '", v.as_str(), "'. Valid values: lf, crlf, cr"),
                        ),
                    );
                },
            }
        }
        if let Some(v) = &self.file_extensions {
            options.file_extensions = clone_strings(v.as_slice());
        }
        if let Some(v) = self.recursive {
            options.recursive = v;
        }
        Ok(options)
    }
}

/// The first problem with an indent setting, if any.
pub open spec fn indent_config_error(c: IndentConfig) -> Option<Seq<char>> {
    match c.style {
        Some(v) => if parse_indent(v@) is None {
            Some("unknown indent.style '"@ + v@ + "'. Valid values: spaces, tabs"@)
        } else if c.width == Some(0usize) {
            Some("indent.width must be greater than 0"@)
        } else {
            None
        },
        None => if c.width == Some(0usize) {
            Some("indent.width must be greater than 0"@)
        } else {
            None
        },
    }
}

impl IndentConfig {
    /// Whether `o` are the indentation normalizer options this setting
    /// describes.
    pub open spec fn gives(&self, o: IndentOptions, dry_run: bool) -> bool {
        &&& o.dry_run == dry_run
        &&& o.style == match self.style {
            Some(v) => parse_indent(v@).unwrap(),
            None => IndentStyle::Spaces,
        }
        &&& o.width == match self.width {
            Some(w) => w,
            None => 4,
        }
        &&& o.width > 0
        &&& strings_view(o.file_extensions@) == match self.file_extensions {
            Some(v) => strings_view(v@),
            None => default_indent_extensions(),
        }
        &&& o.recursive == match self.recursive {
            Some(b) => b,
            None => true,
        }
    }

    /// Builds the indentation normalizer options this setting describes.
    pub fn to_options(&self, dry_run: bool) -> (r: Result<IndentOptions, ReformatError>)
        ensures
            r is Err <==> indent_config_error(*self) is Some,
            r matches Err(e) ==> indent_config_error(*self) == Some(e@),
            r matches Ok(o) ==> self.gives(o, dry_run),
    {
        let mut options = IndentOptions::default();
        options.dry_run = dry_run;
        if let Some(v) = &self.style {
            match IndentStyle::parse(v.as_str()) {
                Some(s) => options.style = s,
                None => {
                    return Err(
                        ReformatError::new(
                            concat3("unknown indent.style '", v.as_str(), "'. Valid values: spaces, tabs"),
                        ),
                    );
                },
            }
        }
        if let Some(v) = self.width {
            if v == 0 {
                return Err(ReformatError::new(owned("indent.width must be greater than 0")));
            }
            options.width = v;
        }
        if let Some(v) = &self.file_extensions {
            options.file_extensions = clone_strings(v.as_slice());
        }
        if let Some(v) = self.recursive {
            options.recursive = v;
        }
        Ok(options)
    }
}

/// The regex pattern an entry describes, with `literal` and `ignore_case`
/// folded into `find` and `replace`.
pub open spec fn entry_find(e: ReplacePatternEntry) -> Seq<char> {
    let f = if e.literal {
        regex_escaped(e.find@)
    } else {
        e.find@
    };
    if e.ignore_case {
        "(?i)"@ + f
    } else {
        f
    }
}

/// The replacement an entry describes: `$` doubled when literal, so that no
/// capture group is expanded.
pub open spec fn entry_replace(e: ReplacePatternEntry) -> Seq<char> {
    if e.literal {
        replaced(e.replace@, "$"@, "$$"@)
    } else {
        e.replace@
    }
}

impl ReplacePatternEntry {
    /// The regex pattern this entry describes.
    pub fn to_pattern(&self) -> (r: ReplacePattern)
        ensures
            r.find@ == entry_find(*self),
            r.replace@ == entry_replace(*self),
    {
        let (find, replace) = if self.literal {
            proof {
                reveal_strlit("$");
            }
            (regex_escape(self.find.as_str()), replace_str(self.replace.as_str(), "$", "$$"))
        } else {
            (owned(self.find.as_str()), owned(self.replace.as_str()))
        };
        let find = if self.ignore_case {
            concat2("(?i)", find.as_str())
        } else {
            find
        };
        ReplacePattern { find, replace }
    }
}

impl ReplaceConfig {
    /// Whether `o` are the content replacer options this setting describes.
    pub open spec fn gives(&self, o: ReplaceOptions, dry_run: bool) -> bool {
        &&& o.dry_run == dry_run
        &&& self.patterns matches Some(ps) && o.patterns@.len() == ps@.len() && forall|k: int|
            0 <= k < ps@.len() ==> (#[trigger] o.patterns@[k]).find@ == entry_find(ps@[k])
                && o.patterns@[k].replace@ == entry_replace(ps@[k])
        &&& strings_view(o.file_extensions@) == match self.file_extensions {
            Some(v) => strings_view(v@),
            None => default_replace_extensions(),
        }
        &&& o.recursive == match self.recursive {
            Some(b) => b,
            None => true,
        }
    }

    /// Builds the content replacer options this setting describes; the
    /// patterns are required.
    pub fn to_options(&self, dry_run: bool) -> (r: Result<ReplaceOptions, ReformatError>)
        ensures
            r is Err <==> self.patterns is None,
            r matches Err(e) ==> e@ == "replace.patterns is missing"@,
            r matches Ok(o) ==> self.gives(o, dry_run),
    {
        let entries = match &self.patterns {
            None => return Err(ReformatError::new(owned("replace.patterns is missing"))),
            Some(v) => v,
        };
        let mut patterns: Vec<ReplacePattern> = Vec::new();
        let mut i: usize = 0;
        while i < entries.len()
            invariant
                i <= entries@.len(),
                patterns@.len() == i,
                forall|k: int|
                    0 <= k < i ==> (#[trigger] patterns@[k]).find@ == entry_find(entries@[k])
                        && patterns@[k].replace@ == entry_replace(entries@[k]),
            decreases entries.len() - i,
        {
            patterns.push(entries[i].to_pattern());
            i += 1;
        }
        let mut options = ReplaceOptions::default();
        options.patterns = patterns;
        options.dry_run = dry_run;
        if let Some(v) = &self.file_extensions {
            options.file_extensions = clone_strings(v.as_slice());
        }
        if let Some(v) = self.recursive {
            options.recursive = v;
        }
        Ok(options)
    }
}

impl HeaderConfig {
    /// Whether `o` are the header manager options this setting describes.
    pub open spec fn gives(&self, o: HeaderOptions, dry_run: bool) -> bool {
        &&& o.dry_run == dry_run
        &&& self.text matches Some(t) && o.text@ == t@
        &&& o.update_year == match self.update_year {
            Some(b) => b,
            None => false,
        }
        &&& strings_view(o.file_extensions@) == match self.file_extensions {
            Some(v) => strings_view(v@),
            None => default_header_extensions(),
        }
        &&& o.recursive == match self.recursive {
            Some(b) => b,
            None => true,
        }
    }

    /// Builds the header manager options this setting describes; the text
    /// is required.
    pub fn to_options(&self, dry_run: bool) -> (r: Result<HeaderOptions, ReformatError>)
        ensures
            r is Err <==> self.text is None,
            r matches Err(e) ==> e@ == "header.text is missing"@,
            r matches Ok(o) ==> self.gives(o, dry_run),
    {
        let text = match &self.text {
            None => return Err(ReformatError::new(owned("header.text is missing"))),
            Some(t) => owned(t.as_str()),
        };
        let mut options = HeaderOptions::default();
        options.text = text;
        options.dry_run = dry_run;
        if let Some(v) = self.update_year {
            options.update_year = v;
        }
        if let Some(v) = &self.file_extensions {
            options.file_extensions = clone_strings(v.as_slice());
        }
        if let Some(v) = self.recursive {
            options.recursive = v;
        }
        Ok(options)
    }
}

} // verus!
