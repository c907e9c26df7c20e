//! The decisions of a run: which steps a command runs and in what batches,
//! how each content step is built from its settings, and what a run's
//! outcome means for the caller. Reading, writing and walking files are the
//! caller's part; every function here maps plain values to plain values.

use vstd::prelude::*;
use crate::config::{
    CleanConfig, ConvertConfig, EditorConfigConfig, EmojiConfig, EndingsConfig, HeaderConfig,
    IndentConfig, Preset, RenameConfig, ReplaceConfig, convert_config_error, indent_config_error,
};
use crate::converter::{CaseConverter, converter_ready};
use crate::emoji::EmojiTransformer;
use crate::endings::{EndingsNormalizer, parse_ending};
use crate::error::ReformatError;
use crate::group::GroupStats;
use crate::header::{HeaderManager, HeaderOptions, header_fails, header_resolved};
use crate::indent::IndentNormalizer;
use crate::rename::RenameStats;
use crate::replace::{ContentReplacer, all_valid_from};
use crate::step::ContentStep;
use crate::text::{
    owned, str_eq, concat2, concat3, push_str, decimal, usize_text, strings_view, join, join_strings,
    replaced, replace_str, split_char, split_on, lower_of, to_lowercase,
};
use crate::config::{ReplacePatternEntry, valid_steps, first_unknown_step, validate_steps};
use crate::refs::{FixRecord, trim, trim_str};
use crate::path::{components_of, path_components};
use crate::refs::{ApplyResult, ReferenceFix};
use crate::command::preset_names;
use crate::order::{sorted_unique, strictly_sorted};
use crate::walk::contains_text;
use crate::whitespace::WhitespaceCleaner;
use vstd::utf8::{decode_utf8, valid_utf8};

verus! {

/// Where input comes from, and whether and how changes are written.
#[derive(Debug, Clone, Default)]
pub struct RunFlags {
    /// Read content from stdin as if it were this file, and write the
    /// result to stdout.
    pub stdin_filename: Option<String>,
    /// Report what would change, modify nothing.
    pub dry_run: bool,
    /// Modify nothing; the run reports whether any file would change.
    pub check: bool,
    /// Print a unified diff of content changes; modify nothing.
    pub diff: bool,
}

impl RunFlags {
    /// Whether the run writes its changes.
    pub fn writes(&self) -> (r: bool)
        ensures
            r == !(self.dry_run || self.check || self.diff),
    {
        !(self.dry_run || self.check || self.diff)
    }

    /// Whether stdout carries data (content or a diff), so that log lines
    /// must go to stderr.
    pub fn stdout_is_data(&self) -> (r: bool)
        ensures
            r == (self.stdin_filename is Some || self.diff),
    {
        self.stdin_filename.is_some() || self.diff
    }

    /// The prefix of report lines: empty when the run writes, a dry-run
    /// marker otherwise.
    pub fn prefix(&self) -> (r: &'static str)
        ensures
            r@ == if !(self.dry_run || self.check || self.diff) {
                ""@
            } else {
                "[DRY-RUN] "@
            },
    {
        if self.writes() {
            ""
        } else {
            "[DRY-RUN] "
        }
    }
}

/// Recursion for commands that recurse by default.
#[derive(Debug, Clone, Copy, Default)]
pub struct Recursion {
    /// Process directories recursively (the default).
    pub recursive: bool,
    /// Process only the top level of each directory.
    pub no_recursive: bool,
}

impl Recursion {
    /// Recursion is on unless it was switched off.
    pub fn enabled(&self) -> (r: bool)
        ensures
            r == !self.no_recursive,
    {
        !self.no_recursive
    }
}

/// The case format named by the first of five exclusive choices that is
/// set; the sixth (SCREAMING-KEBAB-CASE) when none is.
pub open spec fn format_chosen(
    camel: bool,
    pascal: bool,
    snake: bool,
    screaming_snake: bool,
    kebab: bool,
) -> Seq<char> {
    if camel {
        "camel"@
    } else if pascal {
        "pascal"@
    } else if snake {
        "snake"@
    } else if screaming_snake {
        "screaming_snake"@
    } else if kebab {
        "kebab"@
    } else {
        "screaming_kebab"@
    }
}

/// Picks the selected case format from a group of exclusive flags.
pub fn selected_format(
    camel: bool,
    pascal: bool,
    snake: bool,
    screaming_snake: bool,
    kebab: bool,
) -> (r: &'static str)
    ensures
        r@ == format_chosen(camel, pascal, snake, screaming_snake, kebab),
{
    if camel {
        "camel"
    } else if pascal {
        "pascal"
    } else if snake {
        "snake"
    } else if screaming_snake {
        "screaming_snake"
    } else if kebab {
        "kebab"
    } else {
        "screaming_kebab"
    }
}

/// The name chosen by the first flag that is set, if any: `flags[k]`
/// chooses `names[k]`.
pub open spec fn first_chosen(flags: Seq<bool>, names: Seq<&'static str>) -> Option<Seq<char>>
    decreases flags.len(),
{
    if flags.len() == 0 || names.len() == 0 {
        None
    } else if flags[0] {
        Some(names[0]@)
    } else {
        first_chosen(flags.drop_first(), names.drop_first())
    }
}

/// Executable [`first_chosen`].
pub fn chosen(flags: &[bool], names: &[&'static str]) -> (r: Option<&'static str>)
    ensures
        match r {
            Some(n) => first_chosen(flags@, names@) == Some(n@),
            None => first_chosen(flags@, names@) is None,
        },
{
    let mut i: usize = 0;
    assert(flags@.skip(0) =~= flags@);
    assert(names@.skip(0) =~= names@);
    while i < flags.len() && i < names.len()
        invariant
            i <= flags@.len(),
            i <= names@.len(),
            first_chosen(flags@, names@) == first_chosen(flags@.skip(i as int), names@.skip(i as int)),
        decreases flags.len() - i,
    {
        if flags[i] {
            return Some(names[i]);
        }
        assert(flags@.skip(i as int).drop_first() =~= flags@.skip(i + 1));
        assert(names@.skip(i as int).drop_first() =~= names@.skip(i + 1));
        i += 1;
    }
    None
}

/// Steps whose changes need review, so they refuse uncommitted work.
pub const NEEDS_CLEAN_TREE: [&'static str; 4] = ["rename", "group", "convert", "replace"];

/// Whether a step refuses to run over uncommitted work.
pub open spec fn needs_review(step: Seq<char>) -> bool {
    step == "rename"@ || step == "group"@ || step == "convert"@ || step == "replace"@
}

/// Whether `step` is one of [`NEEDS_CLEAN_TREE`].
pub fn needs_clean_tree(step: &str) -> (r: bool)
    ensures
        r == needs_review(step@),
{
    let r = contains_text(&NEEDS_CLEAN_TREE, step);
    proof {
        let t = crate::text::texts(NEEDS_CLEAN_TREE@);
        assert(t[0] == "rename"@ && t[1] == "group"@ && t[2] == "convert"@ && t[3] == "replace"@);
        if needs_review(step@) {
            if step@ == "rename"@ {
                assert(t[0] == step@);
            } else if step@ == "group"@ {
                assert(t[1] == step@);
            } else if step@ == "convert"@ {
                assert(t[2] == step@);
            } else {
                assert(t[3] == step@);
            }
        }
        if r {
            let k = choose|k: int| 0 <= k < t.len() && t[k] == step@;
            assert(k == 0 || k == 1 || k == 2 || k == 3);
        }
    }
    r
}

/// Whether any step of a run refuses uncommitted work.
pub fn any_needs_clean_tree(steps: &[String]) -> (r: bool)
    ensures
        r == exists|j: int| 0 <= j < steps@.len() && needs_review(#[trigger] steps@[j]@),
{
    let mut i: usize = 0;
    while i < steps.len()
        invariant
            i <= steps@.len(),
            forall|j: int| 0 <= j < i ==> !needs_review(#[trigger] steps@[j]@),
        decreases steps.len() - i,
    {
        if needs_clean_tree(steps[i].as_str()) {
            return true;
        }
        i += 1;
    }
    false
}

/// Steps that change paths rather than contents run on their own.
pub open spec fn content_step(step: Seq<char>) -> bool {
    step != "rename"@ && step != "group"@
}

/// Whether `step` changes contents (every step but rename and group).
pub fn is_content_step(step: &str) -> (r: bool)
    ensures
        r == content_step(step@),
{
    !(str_eq(step, "rename") || str_eq(step, "group"))
}

/// Where the batch of content steps that starts at `i` ends: the first
/// step from `i` on that is not a content step, or the end.
pub fn content_run_end(steps: &[String], i: usize) -> (r: usize)
    requires
        i <= steps@.len(),
    ensures
        i <= r <= steps@.len(),
        forall|j: int| i <= j < r ==> content_step(#[trigger] steps@[j]@),
        r < steps@.len() ==> !content_step(steps@[r as int]@),
{
    let mut j: usize = i;
    while j < steps.len()
        invariant
            i <= j <= steps@.len(),
            forall|k: int| i <= k < j ==> content_step(#[trigger] steps@[k]@),
        decreases steps.len() - j,
    {
        if !is_content_step(steps[j].as_str()) {
            return j;
        }
        j += 1;
    }
    j
}

/// The `recursive` setting that the config of `step` gives, if any.
pub open spec fn configured_recursion(p: Preset, step: Seq<char>) -> Option<bool> {
    if step == "rename"@ {
        match p.rename {
            Some(c) => c.recursive,
            None => None,
        }
    } else if step == "emojis"@ {
        match p.emojis {
            Some(c) => c.recursive,
            None => None,
        }
    } else if step == "clean"@ {
        match p.clean {
            Some(c) => c.recursive,
            None => None,
        }
    } else if step == "convert"@ {
        match p.convert {
            Some(c) => c.recursive,
            None => None,
        }
    } else if step == "endings"@ {
        match p.endings {
            Some(c) => c.recursive,
            None => None,
        }
    } else if step == "indent"@ {
        match p.indent {
            Some(c) => c.recursive,
            None => None,
        }
    } else if step == "replace"@ {
        match p.replace {
            Some(c) => c.recursive,
            None => None,
        }
    } else if step == "header"@ {
        match p.header {
            Some(c) => c.recursive,
            None => None,
        }
    } else if step == "editorconfig"@ {
        match p.editorconfig {
            Some(c) => c.recursive,
            None => None,
        }
    } else {
        None
    }
}

/// The `recursive` setting a step's config resolves to: every step
/// recurses when its config leaves it unset.
pub open spec fn recursion_of(p: Preset, step: Seq<char>) -> bool {
    match configured_recursion(p, step) {
        Some(b) => b,
        None => true,
    }
}

/// Executable [`recursion_of`].
pub fn step_recursive(preset: &Preset, step: &str) -> (r: bool)
    ensures
        r == recursion_of(*preset, step@),
{
    let configured: Option<bool> = if str_eq(step, "rename") {
        match &preset.rename {
            Some(c) => c.recursive,
            None => None,
        }
    } else if str_eq(step, "emojis") {
        match &preset.emojis {
            Some(c) => c.recursive,
            None => None,
        }
    } else if str_eq(step, "clean") {
        match &preset.clean {
            Some(c) => c.recursive,
            None => None,
        }
    } else if str_eq(step, "convert") {
        match &preset.convert {
            Some(c) => c.recursive,
            None => None,
        }
    } else if str_eq(step, "endings") {
        match &preset.endings {
            Some(c) => c.recursive,
            None => None,
        }
    } else if str_eq(step, "indent") {
        match &preset.indent {
            Some(c) => c.recursive,
            None => None,
        }
    } else if str_eq(step, "replace") {
        match &preset.replace {
            Some(c) => c.recursive,
            None => None,
        }
    } else if str_eq(step, "header") {
        match &preset.header {
            Some(c) => c.recursive,
            None => None,
        }
    } else if str_eq(step, "editorconfig") {
        match &preset.editorconfig {
            Some(c) => c.recursive,
            None => None,
        }
    } else {
        None
    };
    match configured {
        Some(b) => b,
        None => true,
    }
}

/// Whether any of `names[from..to]` recurses under `p`.
pub open spec fn any_recursive(p: Preset, names: Seq<Seq<char>>) -> bool {
    exists|j: int| 0 <= j < names.len() && recursion_of(p, #[trigger] names[j])
}

/// Whether a batch of steps walks below the first level: it does when any
/// of its steps does.
pub fn batch_recursive(preset: &Preset, steps: &[String], from: usize, to: usize) -> (r: bool)
    requires
        from <= to <= steps@.len(),
    ensures
        r == any_recursive(*preset, crate::text::strings_view(steps@.subrange(from as int, to as int))),
{
    let ghost names = crate::text::strings_view(steps@.subrange(from as int, to as int));
    let mut i: usize = from;
    while i < to
        invariant
            from <= i <= to <= steps@.len(),
            names == crate::text::strings_view(steps@.subrange(from as int, to as int)),
            forall|j: int| 0 <= j < i - from ==> !recursion_of(*preset, #[trigger] names[j]),
        decreases to - i,
    {
        if step_recursive(preset, steps[i].as_str()) {
            assert(names[i - from] == steps@[i as int]@);
            return true;
        }
        assert(names[i - from] == steps@[i as int]@);
        i += 1;
    }
    false
}

/// What one step of a run did.
#[derive(Debug, Clone)]
pub enum StepOutcome {
    /// Files touched, and a step-specific count of units (lines, changes,
    /// replacements, endings).
    Counted { files: usize, units: usize },
    /// What a rename step did.
    Renamed(RenameStats),
    /// What a group step did.
    Grouped(GroupStats),
}

/// The number of files a step touched.
pub open spec fn files_of(o: StepOutcome) -> usize {
    match o {
        StepOutcome::Counted { files, .. } => files,
        StepOutcome::Renamed(s) => s.renamed,
        StepOutcome::Grouped(s) => s.files_moved,
    }
}

impl StepOutcome {
    /// The number of files the step touched: renamed, moved, or changed.
    pub fn files(&self) -> (r: usize)
        ensures
            r == files_of(*self),
    {
        match self {
            StepOutcome::Counted { files, .. } => *files,
            StepOutcome::Renamed(s) => s.renamed,
            StepOutcome::Grouped(s) => s.files_moved,
        }
    }

    /// The counts of a content step's outcome: files and units.
    pub fn counted(&self) -> (r: (usize, usize))
        requires
            self is Counted,
        ensures
            *self == (StepOutcome::Counted { files: r.0, units: r.1 }),
    {
        match self {
            StepOutcome::Counted { files, units } => (*files, *units),
            _ => (0, 0),
        }
    }
}

/// The result of running a pipeline: each step's outcome under its name,
/// and one message per file that failed.
pub struct Execution {
    pub outcomes: Vec<(String, StepOutcome)>,
    pub errors: Vec<String>,
}

/// Whether any step of a run touched a file.
pub open spec fn anything_changed(outcomes: Seq<(String, StepOutcome)>) -> bool {
    exists|j: int| 0 <= j < outcomes.len() && files_of(#[trigger] outcomes[j].1) > 0
}

/// Converts an execution into the run's outcome: an error when any file
/// failed; otherwise whether `--check` found files that would change.
pub fn finish(exec: &Execution, flags: &RunFlags) -> (r: Result<bool, ReformatError>)
    ensures
        r is Err <==> exec.errors@.len() > 0,
        r matches Err(e) ==> e@ == crate::text::decimal(exec.errors@.len()) + " file(s) could not be processed"@,
        r matches Ok(b) ==> b == (flags.check && anything_changed(exec.outcomes@)),
{
    if exec.errors.len() > 0 {
        let n = crate::text::usize_text(exec.errors.len());
        return Err(ReformatError::new(crate::text::concat2(n.as_str(), " file(s) could not be processed")));
    }
    let mut changed = false;
    let mut i: usize = 0;
    while i < exec.outcomes.len()
        invariant
            i <= exec.outcomes@.len(),
            changed == exists|j: int| 0 <= j < i && files_of(#[trigger] exec.outcomes@[j].1) > 0,
        decreases exec.outcomes.len() - i,
    {
        if exec.outcomes[i].1.files() > 0 {
            changed = true;
        }
        i += 1;
    }
    Ok(flags.check && changed)
}


/// A rename setting with nothing set.
pub open spec fn rename_unset() -> RenameConfig {
    RenameConfig {
        case_transform: None,
        space_replace: None,
        recursive: None,
        include_symlinks: None,
        add_prefix: None,
        remove_prefix: None,
        add_suffix: None,
        remove_suffix: None,
        replace_prefix: None,
        replace_suffix: None,
        timestamp: None,
        file_extensions: None,
    }
}

/// An emojis setting with nothing set.
pub open spec fn emojis_unset() -> EmojiConfig {
    EmojiConfig {
        replace_task_emojis: None,
        remove_other_emojis: None,
        file_extensions: None,
        recursive: None,
    }
}

/// A clean setting with nothing set.
pub open spec fn clean_unset() -> CleanConfig {
    CleanConfig {
        remove_trailing: None,
        insert_final_newline: None,
        trim_trailing_blank_lines: None,
        file_extensions: None,
        recursive: None,
    }
}

/// An endings setting with nothing set.
pub open spec fn endings_unset() -> EndingsConfig {
    EndingsConfig { style: None, file_extensions: None, recursive: None }
}

/// An indent setting with nothing set.
pub open spec fn indent_unset() -> IndentConfig {
    IndentConfig { style: None, width: None, file_extensions: None, recursive: None }
}

/// An editorconfig setting with nothing set.
pub open spec fn editorconfig_unset() -> EditorConfigConfig {
    EditorConfigConfig { indent: None, recursive: None }
}

/// The rename setting of a preset, or one with nothing set.
pub open spec fn rename_or_unset(o: Option<RenameConfig>) -> RenameConfig {
    match o {
        Some(c) => c,
        None => rename_unset(),
    }
}

/// The emojis setting of a preset, or one with nothing set.
pub open spec fn emojis_or_unset(o: Option<EmojiConfig>) -> EmojiConfig {
    match o {
        Some(c) => c,
        None => emojis_unset(),
    }
}

/// The clean setting of a preset, or one with nothing set.
pub open spec fn clean_or_unset(o: Option<CleanConfig>) -> CleanConfig {
    match o {
        Some(c) => c,
        None => clean_unset(),
    }
}

/// The endings setting of a preset, or one with nothing set.
pub open spec fn endings_or_unset(o: Option<EndingsConfig>) -> EndingsConfig {
    match o {
        Some(c) => c,
        None => endings_unset(),
    }
}

/// The indent setting of a preset, or one with nothing set.
pub open spec fn indent_or_unset(o: Option<IndentConfig>) -> IndentConfig {
    match o {
        Some(c) => c,
        None => indent_unset(),
    }
}

/// The editorconfig setting of a preset, or one with nothing set.
pub open spec fn editorconfig_or_unset(o: Option<EditorConfigConfig>) -> EditorConfigConfig {
    match o {
        Some(c) => c,
        None => editorconfig_unset(),
    }
}

/// A preset that holds no step settings.
pub open spec fn settings_unset(p: Preset) -> bool {
    &&& p.rename is None
    &&& p.emojis is None
    &&& p.clean is None
    &&& p.convert is None
    &&& p.group is None
    &&& p.endings is None
    &&& p.indent is None
    &&& p.replace is None
    &&& p.header is None
    &&& p.editorconfig is None
}

/// The preset of a single-step command: that one step, no settings.
pub fn preset_of(step: &str) -> (r: Preset)
    ensures
        r.steps@.len() == 1,
        r.steps@[0]@ == step@,
        settings_unset(r),
{
    let mut steps: Vec<String> = Vec::new();
    steps.push(owned(step));
    Preset {
        steps,
        rename: None,
        emojis: None,
        clean: None,
        convert: None,
        group: None,
        endings: None,
        indent: None,
        replace: None,
        header: None,
        editorconfig: None,
    }
}

/// The default command: replace task emojis, then strip trailing
/// whitespace, both recursing as asked and otherwise with their defaults.
pub fn default_preset(recursive: bool) -> (r: Preset)
    ensures
        r.steps@.len() == 2,
        r.steps@[0]@ == "emojis"@,
        r.steps@[1]@ == "clean"@,
        r.emojis == Some(EmojiConfig { recursive: Some(recursive), ..emojis_unset() }),
        r.clean == Some(CleanConfig { recursive: Some(recursive), ..clean_unset() }),
        r.rename is None && r.convert is None && r.group is None && r.endings is None,
        r.indent is None && r.replace is None && r.header is None && r.editorconfig is None,
{
    let mut steps: Vec<String> = Vec::new();
    steps.push(owned("emojis"));
    steps.push(owned("clean"));
    Preset {
        steps,
        rename: None,
        emojis: Some(
            EmojiConfig {
                replace_task_emojis: None,
                remove_other_emojis: None,
                file_extensions: None,
                recursive: Some(recursive),
            },
        ),
        clean: Some(
            CleanConfig {
                remove_trailing: None,
                insert_final_newline: None,
                trim_trailing_blank_lines: None,
                file_extensions: None,
                recursive: Some(recursive),
            },
        ),
        convert: None,
        group: None,
        endings: None,
        indent: None,
        replace: None,
        header: None,
        editorconfig: None,
    }
}

/// An extension list after widening: an unset list becomes the empty list,
/// which matches every extension; a set one is kept.
pub open spec fn widened(new: Option<Vec<String>>, old: Option<Vec<String>>) -> bool {
    match old {
        Some(v) => new == Some(v),
        None => new matches Some(w) && w@.len() == 0,
    }
}

fn widen(e: Option<Vec<String>>) -> (r: Option<Vec<String>>)
    ensures
        widened(r, e),
{
    match e {
        Some(v) => Some(v),
        None => Some(Vec::new()),
    }
}

/// The emojis setting after widening: present, with its extensions widened
/// and everything else as before.
pub open spec fn emojis_widened(new: Option<EmojiConfig>, old: Option<EmojiConfig>) -> bool {
    let o = emojis_or_unset(old);
    new matches Some(n) && n == (EmojiConfig { file_extensions: n.file_extensions, ..o })
        && widened(n.file_extensions, o.file_extensions)
}

/// The clean setting after widening.
pub open spec fn clean_widened(new: Option<CleanConfig>, old: Option<CleanConfig>) -> bool {
    let o = clean_or_unset(old);
    new matches Some(n) && n == (CleanConfig { file_extensions: n.file_extensions, ..o })
        && widened(n.file_extensions, o.file_extensions)
}

/// The endings setting after widening.
pub open spec fn endings_widened(new: Option<EndingsConfig>, old: Option<EndingsConfig>) -> bool {
    let o = endings_or_unset(old);
    new matches Some(n) && n == (EndingsConfig { file_extensions: n.file_extensions, ..o })
        && widened(n.file_extensions, o.file_extensions)
}

/// The indent setting after widening.
pub open spec fn indent_widened(new: Option<IndentConfig>, old: Option<IndentConfig>) -> bool {
    let o = indent_or_unset(old);
    new matches Some(n) && n == (IndentConfig { file_extensions: n.file_extensions, ..o })
        && widened(n.file_extensions, o.file_extensions)
}

/// The rename setting after widening.
pub open spec fn rename_widened(new: Option<RenameConfig>, old: Option<RenameConfig>) -> bool {
    let o = rename_or_unset(old);
    new matches Some(n) && n == (RenameConfig { file_extensions: n.file_extensions, ..o })
        && widened(n.file_extensions, o.file_extensions)
}

/// The convert setting after widening: widened when present, absent when
/// absent.
pub open spec fn convert_widened(new: Option<ConvertConfig>, old: Option<ConvertConfig>) -> bool {
    match old {
        None => new is None,
        Some(o) => new matches Some(n) && n == (ConvertConfig { file_extensions: n.file_extensions, ..o })
            && widened(n.file_extensions, o.file_extensions),
    }
}

/// The replace setting after widening: widened when present.
pub open spec fn replace_widened(new: Option<ReplaceConfig>, old: Option<ReplaceConfig>) -> bool {
    match old {
        None => new is None,
        Some(o) => new matches Some(n) && n == (ReplaceConfig { file_extensions: n.file_extensions, ..o })
            && widened(n.file_extensions, o.file_extensions),
    }
}

/// The header setting after widening: widened when present.
pub open spec fn header_widened(new: Option<HeaderConfig>, old: Option<HeaderConfig>) -> bool {
    match old {
        None => new is None,
        Some(o) => new matches Some(n) && n == (HeaderConfig { file_extensions: n.file_extensions, ..o })
            && widened(n.file_extensions, o.file_extensions),
    }
}

/// `new` is `old` with its extension lists widened for `--include`.
pub open spec fn preset_widened(new: Preset, old: Preset) -> bool {
    &&& new.steps == old.steps
    &&& new.group == old.group
    &&& new.editorconfig == old.editorconfig
    &&& emojis_widened(new.emojis, old.emojis)
    &&& clean_widened(new.clean, old.clean)
    &&& endings_widened(new.endings, old.endings)
    &&& indent_widened(new.indent, old.indent)
    &&& rename_widened(new.rename, old.rename)
    &&& convert_widened(new.convert, old.convert)
    &&& replace_widened(new.replace, old.replace)
    &&& header_widened(new.header, old.header)
}

/// Widening is idempotent: widening a widened preset changes nothing.
pub proof fn lemma_widening_idempotent(a: Preset, b: Preset, c: Preset)
    requires
        preset_widened(b, a),
        preset_widened(c, b),
    ensures
        c == b,
{
}

/// With `--include` and no explicit extensions, a step matches any
/// extension: the globs do the selecting. Emojis, clean, endings, indent and
/// rename get a setting if they had none; convert, replace and header are
/// widened only when present, since they have required settings.
pub fn widen_extensions_for_include(preset: &mut Preset)
    ensures
        preset_widened(*final(preset), *old(preset)),
{
    let mut e = match preset.emojis.take() {
        Some(c) => c,
        None => EmojiConfig {
            replace_task_emojis: None,
            remove_other_emojis: None,
            file_extensions: None,
            recursive: None,
        },
    };
    e.file_extensions = widen(e.file_extensions.take());
    preset.emojis = Some(e);

    let mut c = match preset.clean.take() {
        Some(c) => c,
        None => CleanConfig {
            remove_trailing: None,
            insert_final_newline: None,
            trim_trailing_blank_lines: None,
            file_extensions: None,
            recursive: None,
        },
    };
    c.file_extensions = widen(c.file_extensions.take());
    preset.clean = Some(c);

    let mut n = match preset.endings.take() {
        Some(c) => c,
        None => EndingsConfig { style: None, file_extensions: None, recursive: None },
    };
    n.file_extensions = widen(n.file_extensions.take());
    preset.endings = Some(n);

    let mut i = match preset.indent.take() {
        Some(c) => c,
        None => IndentConfig { style: None, width: None, file_extensions: None, recursive: None },
    };
    i.file_extensions = widen(i.file_extensions.take());
    preset.indent = Some(i);

    let mut r = match preset.rename.take() {
        Some(c) => c,
        None => RenameConfig {
            case_transform: None,
            space_replace: None,
            recursive: None,
            include_symlinks: None,
            add_prefix: None,
            remove_prefix: None,
            add_suffix: None,
            remove_suffix: None,
            replace_prefix: None,
            replace_suffix: None,
            timestamp: None,
            file_extensions: None,
        },
    };
    r.file_extensions = widen(r.file_extensions.take());
    preset.rename = Some(r);

    if let Some(mut c) = preset.convert.take() {
        c.file_extensions = widen(c.file_extensions.take());
        preset.convert = Some(c);
    }
    if let Some(mut c) = preset.replace.take() {
        c.file_extensions = widen(c.file_extensions.take());
        preset.replace = Some(c);
    }
    if let Some(mut c) = preset.header.take() {
        c.file_extensions = widen(c.file_extensions.take());
        preset.header = Some(c);
    }
}


/// A content step built from its settings.
pub enum BuiltStep {
    Emojis(EmojiTransformer),
    Clean(WhitespaceCleaner),
    Convert(CaseConverter),
    Endings(EndingsNormalizer),
    Indent(IndentNormalizer),
    Replace(ContentReplacer),
    Header(HeaderManager),
    /// The editorconfig step. Its styles come from `.editorconfig` files,
    /// which the caller resolves for each path.
    Editorconfig { indent: bool, recursive: bool },
}

impl BuiltStep {
    /// The step as a [`ContentStep`]; `None` for the editorconfig step,
    /// whose resolver the caller supplies.
    pub fn as_step(&self) -> (r: Option<&dyn ContentStep>)
        ensures
            r is None <==> self is Editorconfig,
    {
        match self {
            BuiltStep::Emojis(t) => Some(t),
            BuiltStep::Clean(t) => Some(t),
            BuiltStep::Convert(t) => Some(t),
            BuiltStep::Endings(t) => Some(t),
            BuiltStep::Indent(t) => Some(t),
            BuiltStep::Replace(t) => Some(t),
            BuiltStep::Header(t) => Some(t),
            BuiltStep::Editorconfig { .. } => None,
        }
    }
}

/// The message for a step whose required setting is missing.
pub open spec fn missing_setting(label: Seq<char>, step: Seq<char>, what: Seq<char>) -> Seq<char> {
    label + ": '"@ + step + "' step requires a ["@ + step + "] config with "@ + what
}

fn missing(label: &str, step: &str, what: &str) -> (r: ReformatError)
    ensures
        r@ == missing_setting(label@, step@, what@),
{
    let mut m = concat3(label, ": '", step);
    push_str(&mut m, "' step requires a [");
    push_str(&mut m, step);
    push_str(&mut m, "] config with ");
    push_str(&mut m, what);
    ReformatError::new(m)
}

fn build_emojis(preset: &Preset, dry_run: bool) -> (r: BuiltStep)
    ensures
        r matches BuiltStep::Emojis(t) && emojis_or_unset(preset.emojis).gives(t@, dry_run),
{
    let o = match &preset.emojis {
        Some(c) => c.to_options(dry_run),
        None => EmojiConfig {
            replace_task_emojis: None,
            remove_other_emojis: None,
            file_extensions: None,
            recursive: None,
        }.to_options(dry_run),
    };
    BuiltStep::Emojis(EmojiTransformer::new(o))
}

fn build_clean(preset: &Preset, dry_run: bool) -> (r: BuiltStep)
    ensures
        r matches BuiltStep::Clean(t) && clean_or_unset(preset.clean).gives(t@, dry_run),
{
    let o = match &preset.clean {
        Some(c) => c.to_options(dry_run),
        None => CleanConfig {
            remove_trailing: None,
            insert_final_newline: None,
            trim_trailing_blank_lines: None,
            file_extensions: None,
            recursive: None,
        }.to_options(dry_run),
    };
    BuiltStep::Clean(WhitespaceCleaner::new(o))
}

fn build_convert(preset: &Preset, dry_run: bool, label: &str, step: &str) -> (r: Result<BuiltStep, ReformatError>)
    ensures
        match preset.convert {
            None => r matches Err(e) && e@ == missing_setting(
                label@,
                step@,
                "from_format and to_format"@,
            ),
            Some(c) => {
                &&& r matches Ok(b) ==> b matches BuiltStep::Convert(t) && c.gives(t@, dry_run)
                    && converter_ready(t@)
                &&& convert_config_error(c) matches Some(m) ==> r matches Err(e) && e@ == m
                &&& r is Err && convert_config_error(c) is None ==> exists|o: crate::converter::ConvertOptions|
                    c.gives(o, dry_run) && !converter_ready(o)
            },
        },
{
    match &preset.convert {
        None => Err(missing(label, step, "from_format and to_format")),
        Some(c) => match c.to_converter(dry_run) {
            Ok(t) => Ok(BuiltStep::Convert(t)),
            Err(e) => Err(e),
        },
    }
}

fn build_endings(preset: &Preset, dry_run: bool) -> (r: Result<BuiltStep, ReformatError>)
    ensures
        ({
            let c = endings_or_unset(preset.endings);
            &&& r is Err <==> (c.style matches Some(v) && parse_ending(v@) is None)
            &&& r matches Err(e) ==> c.style matches Some(v) && e@ == "unknown endings.style '"@
                + v@ + "'. Valid values: lf, crlf, cr"@
            &&& r matches Ok(b) ==> b matches BuiltStep::Endings(t) && c.gives(t@, dry_run)
        }),
{
    let o = match &preset.endings {
        Some(c) => c.to_options(dry_run),
        None => EndingsConfig { style: None, file_extensions: None, recursive: None }.to_options(
            dry_run,
        ),
    };
    match o {
        Ok(o) => Ok(BuiltStep::Endings(EndingsNormalizer::new(o))),
        Err(e) => Err(e),
    }
}

fn build_indent(preset: &Preset, dry_run: bool) -> (r: Result<BuiltStep, ReformatError>)
    ensures
        ({
            let c = indent_or_unset(preset.indent);
            &&& r is Err <==> indent_config_error(c) is Some
            &&& r matches Err(e) ==> indent_config_error(c) == Some(e@)
            &&& r matches Ok(b) ==> b matches BuiltStep::Indent(t) && c.gives(t@, dry_run)
        }),
{
    let o = match &preset.indent {
        Some(c) => c.to_options(dry_run),
        None => IndentConfig {
            style: None,
            width: None,
            file_extensions: None,
            recursive: None,
        }.to_options(dry_run),
    };
    match o {
        Ok(o) => Ok(BuiltStep::Indent(IndentNormalizer::new(o))),
        Err(e) => Err(e),
    }
}

fn build_replace(preset: &Preset, dry_run: bool, label: &str, step: &str) -> (r: Result<BuiltStep, ReformatError>)
    ensures
        match preset.replace {
            None => r matches Err(e) && e@ == missing_setting(label@, step@, "patterns"@),
            Some(c) => {
                &&& c.patterns is None ==> (r matches Err(e) && e@ == "replace.patterns is missing"@)
                &&& r matches Ok(b) ==> b matches BuiltStep::Replace(t) && c.gives(t@, dry_run)
                    && all_valid_from(t@.patterns@, 0)
                &&& r is Err && c.patterns is Some ==> exists|o: crate::replace::ReplaceOptions|
                    c.gives(o, dry_run) && !all_valid_from(o.patterns@, 0)
            },
        },
{
    match &preset.replace {
        None => Err(missing(label, step, "patterns")),
        Some(c) => match c.to_options(dry_run) {
            Err(e) => Err(e),
            Ok(o) => match ContentReplacer::new(o) {
                Ok(t) => Ok(BuiltStep::Replace(t)),
                Err(e) => Err(e),
            },
        },
    }
}

fn build_header(preset: &Preset, dry_run: bool, label: &str, step: &str) -> (r: Result<BuiltStep, ReformatError>)
    ensures
        match preset.header {
            None => r matches Err(e) && e@ == missing_setting(label@, step@, "text"@),
            Some(c) => match c.text {
                None => r matches Err(e) && e@ == "header.text is missing"@,
                Some(t) => (r matches Ok(BuiltStep::Header(m)) && c.gives(m@.0, dry_run) && (
                !m@.0.update_year ==> m@.1 == t@) && header_resolved(m@.0, m@.1)) || (r matches Err(
                    e,
                ) && exists|o: HeaderOptions| c.gives(o, dry_run) && header_fails(o, e@)),
            },
        },
{
    match &preset.header {
        None => Err(missing(label, step, "text")),
        Some(c) => match c.to_options(dry_run) {
            Err(e) => Err(e),
            Ok(o) => match HeaderManager::new(o) {
                Ok(m) => Ok(BuiltStep::Header(m)),
                Err(e) => Err(e),
            },
        },
    }
}

fn build_editorconfig(preset: &Preset) -> (r: BuiltStep)
    ensures
        ({
            let c = editorconfig_or_unset(preset.editorconfig);
            r matches BuiltStep::Editorconfig { indent, recursive } && indent == match c.indent {
                Some(b) => b,
                None => false,
            } && recursive == match c.recursive {
                Some(b) => b,
                None => true,
            }
        }),
{
    let (indent, recursive) = match &preset.editorconfig {
        Some(c) => (
            match c.indent {
                Some(b) => b,
                None => false,
            },
            match c.recursive {
                Some(b) => b,
                None => true,
            },
        ),
        None => (false, true),
    };
    BuiltStep::Editorconfig { indent, recursive }
}

/// The content step names differ in length or first letter.
proof fn lemma_content_step_names()
    ensures
        "emojis"@.len() == 6 && "emojis"@[0] == 'e',
        "clean"@.len() == 5 && "clean"@[0] == 'c',
        "convert"@.len() == 7 && "convert"@[0] == 'c',
        "endings"@.len() == 7 && "endings"@[0] == 'e',
        "indent"@.len() == 6 && "indent"@[0] == 'i',
        "replace"@.len() == 7 && "replace"@[0] == 'r',
        "header"@.len() == 6 && "header"@[0] == 'h',
        "editorconfig"@.len() == 12 && "editorconfig"@[0] == 'e',
        "rename"@.len() == 6 && "rename"@[0] == 'r',
        "group"@.len() == 5 && "group"@[0] == 'g',
{
    reveal_strlit("rename");
    reveal_strlit("group");
    reveal_strlit("emojis");
    reveal_strlit("clean");
    reveal_strlit("convert");
    reveal_strlit("endings");
    reveal_strlit("indent");
    reveal_strlit("replace");
    reveal_strlit("header");
    reveal_strlit("editorconfig");
}

/// Builds the content step `step` from its setting in `preset`. Emojis,
/// clean, endings, indent and editorconfig fall back to their defaults when
/// the preset has no setting for them; convert, replace and header need
/// one.
pub fn build_content_step(preset: &Preset, step: &str, dry_run: bool, label: &str) -> (r: Result<
    BuiltStep,
    ReformatError,
>)
    requires
        crate::config::valid_steps().contains(step@),
        content_step(step@),
    ensures
        step@ == "emojis"@ ==> (r matches Ok(BuiltStep::Emojis(t)) && emojis_or_unset(
            preset.emojis,
        ).gives(t@, dry_run)),
        step@ == "clean"@ ==> (r matches Ok(BuiltStep::Clean(t)) && clean_or_unset(
            preset.clean,
        ).gives(t@, dry_run)),
        step@ == "convert"@ ==> match preset.convert {
            None => r matches Err(e) && e@ == missing_setting(
                label@,
                step@,
                "from_format and to_format"@,
            ),
            Some(c) => {
                &&& r matches Ok(b) ==> b matches BuiltStep::Convert(t) && c.gives(t@, dry_run)
                    && converter_ready(t@)
                &&& convert_config_error(c) matches Some(m) ==> r matches Err(e) && e@ == m
                &&& r is Err && convert_config_error(c) is None ==> exists|o: crate::converter::ConvertOptions|
                    c.gives(o, dry_run) && !converter_ready(o)
            },
        },
        step@ == "endings"@ ==> {
            let c = endings_or_unset(preset.endings);
            &&& r is Err <==> (c.style matches Some(v) && parse_ending(v@) is None)
            &&& r matches Err(e) ==> c.style matches Some(v) && e@ == "unknown endings.style '"@
                + v@ + "'. Valid values: lf, crlf, cr"@
            &&& r matches Ok(b) ==> b matches BuiltStep::Endings(t) && c.gives(t@, dry_run)
        },
        step@ == "indent"@ ==> {
            let c = indent_or_unset(preset.indent);
            &&& r is Err <==> indent_config_error(c) is Some
            &&& r matches Err(e) ==> indent_config_error(c) == Some(e@)
            &&& r matches Ok(b) ==> b matches BuiltStep::Indent(t) && c.gives(t@, dry_run)
        },
        step@ == "replace"@ ==> match preset.replace {
            None => r matches Err(e) && e@ == missing_setting(label@, step@, "patterns"@),
            Some(c) => {
                &&& c.patterns is None ==> (r matches Err(e) && e@ == "replace.patterns is missing"@)
                &&& r matches Ok(b) ==> b matches BuiltStep::Replace(t) && c.gives(t@, dry_run)
                    && all_valid_from(t@.patterns@, 0)
                &&& r is Err && c.patterns is Some ==> exists|o: crate::replace::ReplaceOptions|
                    c.gives(o, dry_run) && !all_valid_from(o.patterns@, 0)
            },
        },
        step@ == "header"@ ==> match preset.header {
            None => r matches Err(e) && e@ == missing_setting(label@, step@, "text"@),
            Some(c) => match c.text {
                None => r matches Err(e) && e@ == "header.text is missing"@,
                Some(t) => (r matches Ok(BuiltStep::Header(m)) && c.gives(m@.0, dry_run) && (
                !m@.0.update_year ==> m@.1 == t@) && header_resolved(m@.0, m@.1)) || (r matches Err(
                    e,
                ) && exists|o: HeaderOptions| c.gives(o, dry_run) && header_fails(o, e@)),
            },
        },
        step@ == "editorconfig"@ ==> {
            let c = editorconfig_or_unset(preset.editorconfig);
            r matches Ok(BuiltStep::Editorconfig { indent, recursive }) && indent == match c.indent {
                Some(b) => b,
                None => false,
            } && recursive == match c.recursive {
                Some(b) => b,
                None => true,
            }
        },
{
    proof {
        lemma_content_step_names();
    }
    if str_eq(step, "emojis") {
        Ok(build_emojis(preset, dry_run))
    } else if str_eq(step, "clean") {
        Ok(build_clean(preset, dry_run))
    } else if str_eq(step, "convert") {
        build_convert(preset, dry_run, label, step)
    } else if str_eq(step, "endings") {
        build_endings(preset, dry_run)
    } else if str_eq(step, "indent") {
        build_indent(preset, dry_run)
    } else if str_eq(step, "replace") {
        build_replace(preset, dry_run, label, step)
    } else if str_eq(step, "header") {
        build_header(preset, dry_run, label, step)
    } else {
        Ok(build_editorconfig(preset))
    }
}


/// Position of the first step that is not a content step (the length when
/// all are).
pub open spec fn is_first_path_step(steps: Seq<Seq<char>>, k: int) -> bool {
    &&& 0 <= k < steps.len()
    &&& !content_step(steps[k])
    &&& forall|j: int| 0 <= j < k ==> content_step(#[trigger] steps[j])
}

/// Checks the steps of a run that reads stdin: they must be valid, as
/// [`validate_steps`] checks, and none may rename or move files.
pub fn check_stdin_steps(label: &str, steps: &[String]) -> (r: Result<(), ReformatError>)
    ensures
        !(forall|j: int| 0 <= j < steps@.len() ==> valid_steps().contains(#[trigger] steps@[j]@))
            ==> (r matches Err(e) && e@ == "preset '"@ + label@ + "': unknown step '"@
            + steps@[first_unknown_step(strings_view(steps@))]@ + "'. Valid steps: "@ + join(
            valid_steps(),
            ", "@,
        )),
        (forall|j: int| 0 <= j < steps@.len() ==> valid_steps().contains(#[trigger] steps@[j]@))
            ==> {
            &&& r is Ok <==> forall|j: int| 0 <= j < steps@.len() ==> content_step(#[trigger] steps@[j]@)
            &&& r matches Err(e) ==> exists|k: int|
                is_first_path_step(strings_view(steps@), k) && e@ == label@ + ": the "@
                    + steps@[k]@ + " step renames or moves files, so it cannot read stdin"@
        },
{
    match validate_steps(label, steps) {
        Err(e) => return Err(e),
        Ok(()) => {},
    }
    let mut i: usize = 0;
    while i < steps.len()
        invariant
            i <= steps@.len(),
            forall|j: int| 0 <= j < i ==> content_step(#[trigger] steps@[j]@),
            forall|j: int| 0 <= j < steps@.len() ==> valid_steps().contains(#[trigger] steps@[j]@),
        decreases steps.len() - i,
    {
        if !is_content_step(steps[i].as_str()) {
            let mut m = concat3(label, ": the ", steps[i].as_str());
            push_str(&mut m, " step renames or moves files, so it cannot read stdin");
            proof {
                let sv = strings_view(steps@);
                assert forall|j: int| 0 <= j < i implies content_step(#[trigger] sv[j]) by {
                    assert(sv[j] == steps@[j]@);
                }
                assert(is_first_path_step(sv, i as int));
            }
            return Err(ReformatError::new(m));
        }
        i += 1;
    }
    Ok(())
}

/// The one directory a group step works on: a run that groups takes
/// exactly one path.
pub fn group_target<'a>(label: &str, paths: &'a [String]) -> (r: Result<&'a String, ReformatError>)
    ensures
        r is Ok <==> paths@.len() == 1,
        r matches Ok(p) ==> *p == paths@[0],
        r matches Err(e) ==> e@ == label@ + ": the group step takes exactly one directory, got "@
            + decimal(paths@.len()) + " paths"@,
{
    if paths.len() == 1 {
        Ok(&paths[0])
    } else {
        let n = usize_text(paths.len());
        let mut m = concat3(label, ": the group step takes exactly one directory, got ", n.as_str());
        push_str(&mut m, " paths");
        Err(ReformatError::new(m))
    }
}

/// Pairs the `--find` and `--replace-with` arguments in order; the counts
/// must agree.
pub fn pair_replace_patterns(
    find: &[String],
    replace_with: &[String],
    literal: bool,
    ignore_case: bool,
) -> (r: Result<Vec<ReplacePatternEntry>, ReformatError>)
    ensures
        r is Ok <==> find@.len() == replace_with@.len(),
        r matches Err(e) ==> e@ == "--find was given "@ + decimal(find@.len())
            + " time(s) and --replace-with "@ + decimal(replace_with@.len())
            + "; they pair in order"@,
        r matches Ok(v) ==> v@.len() == find@.len() && forall|k: int|
            0 <= k < v@.len() ==> (#[trigger] v@[k]).find@ == find@[k]@ && v@[k].replace@
                == replace_with@[k]@ && v@[k].literal == literal && v@[k].ignore_case
                == ignore_case,
{
    if find.len() != replace_with.len() {
        let a = usize_text(find.len());
        let b = usize_text(replace_with.len());
        let mut m = concat3("--find was given ", a.as_str(), " time(s) and --replace-with ");
        push_str(&mut m, b.as_str());
        push_str(&mut m, "; they pair in order");
        return Err(ReformatError::new(m));
    }
    let mut out: Vec<ReplacePatternEntry> = Vec::new();
    let mut i: usize = 0;
    while i < find.len()
        invariant
            find@.len() == replace_with@.len(),
            i <= find@.len(),
            out@.len() == i,
            forall|k: int|
                0 <= k < i ==> (#[trigger] out@[k]).find@ == find@[k]@ && out@[k].replace@
                    == replace_with@[k]@ && out@[k].literal == literal && out@[k].ignore_case
                    == ignore_case,
        decreases find.len() - i,
    {
        out.push(
            ReplacePatternEntry {
                find: owned(find[i].as_str()),
                replace: owned(replace_with[i].as_str()),
                literal,
                ignore_case,
            },
        );
        i += 1;
    }
    Ok(out)
}

/// Header text given on the command line: each `\\n` (a backslash and an
/// `n`) stands for a newline.
pub fn header_text(text: &str) -> (r: String)
    ensures
        r@ == replaced(text@, "\\n"@, "\n"@),
{
    proof {
        reveal_strlit("\\n");
    }
    replace_str(text, "\\n", "\n")
}

/// Whether an answer to a yes/no question is yes: `y` or `yes`, in any
/// case, around whitespace.
pub fn is_yes(answer: &str) -> (r: bool)
    ensures
        r == (lower_of(trim(answer@)) == "y"@ || lower_of(trim(answer@)) == "yes"@),
{
    let t = trim_str(answer);
    let l = to_lowercase(t.as_str());
    str_eq(l.as_str(), "y") || str_eq(l.as_str(), "yes")
}

/// The directories named in an answer: comma-separated and trimmed, or
/// `default` when the answer is blank.
pub open spec fn scan_dirs_of(answer: Seq<char>, default: Seq<char>) -> Seq<Seq<char>> {
    let t = trim(answer);
    if t.len() == 0 {
        seq![default]
    } else {
        split_char(t, ',').map_values(|p: Seq<char>| trim(p))
    }
}

/// Executable [`scan_dirs_of`].
pub fn parse_scan_dirs(answer: &str, default: &str) -> (r: Vec<String>)
    ensures
        strings_view(r@) == scan_dirs_of(answer@, default@),
{
    let t = trim_str(answer);
    if crate::text::chars_of(t.as_str()).len() == 0 {
        let mut out: Vec<String> = Vec::new();
        out.push(owned(default));
        assert(strings_view(out@) =~= seq![default@]);
        return out;
    }
    let pieces = split_on(t.as_str(), ',');
    let mut out: Vec<String> = Vec::new();
    let mut i: usize = 0;
    while i < pieces.len()
        invariant
            i <= pieces@.len(),
            out@.len() == i,
            forall|k: int| 0 <= k < i ==> (#[trigger] out@[k])@ == trim(pieces@[k]@),
        decreases pieces.len() - i,
    {
        out.push(trim_str(pieces[i].as_str()));
        i += 1;
    }
    proof {
        let want = split_char(t@, ',').map_values(|p: Seq<char>| trim(p));
        assert(split_char(t@, ',') == strings_view(pieces@));
        assert forall|k: int| 0 <= k < want.len() implies strings_view(out@)[k] == want[k] by {
            assert(strings_view(pieces@)[k] == pieces@[k]@);
        }
        assert(strings_view(out@) =~= want);
    }
    out
}


/// Whether the components of `base` begin the components of `p`: how
/// `Path::starts_with` compares, whole components at a time.
pub open spec fn path_starts_with(p: Seq<char>, base: Seq<char>) -> bool {
    let a = components_of(base);
    let b = components_of(p);
    a.len() <= b.len() && b.take(a.len() as int) == a
}

/// Executable [`path_starts_with`].
pub fn starts_with_path(p: &str, base: &str) -> (r: bool)
    ensures
        r == path_starts_with(p@, base@),
{
    let a = path_components(base);
    let b = path_components(p);
    if a.len() > b.len() {
        return false;
    }
    let ghost av = strings_view(a@);
    let ghost bv = strings_view(b@);
    let mut i: usize = 0;
    while i < a.len()
        invariant
            a@.len() <= b@.len(),
            i <= a@.len(),
            av == strings_view(a@),
            bv == strings_view(b@),
            av == components_of(base@),
            bv == components_of(p@),
            forall|j: int| 0 <= j < i ==> av[j] == bv[j],
        decreases a.len() - i,
    {
        assert(av[i as int] == a@[i as int]@ && bv[i as int] == b@[i as int]@);
        if !str_eq(a[i].as_str(), b[i].as_str()) {
            assert(av[i as int] != bv.take(av.len() as int)[i as int]);
            assert(bv.take(av.len() as int) != av);
            return false;
        }
        i += 1;
    }
    assert(bv.take(av.len() as int) =~= av);
    true
}

/// The warning for a scan scope that holds the grouped directory.
pub open spec fn scope_contains_message(scope: Seq<char>, target: Seq<char>) -> Seq<char> {
    "Warning: --scope '"@ + scope + "' contains the target directory '"@ + target
        + "'\nThis will scan the newly created group directories and may be slow.\nConsider using a more specific --scope that only includes directories\nwith files that reference the moved files (e.g., --scope ./src)."@
}

/// The warning for a scan scope inside the grouped directory.
pub open spec fn scope_inside_message(scope: Seq<char>, target: Seq<char>) -> Seq<char> {
    "Warning: --scope '"@ + scope + "' is inside the target directory '"@ + target
        + "'.\nThis is unusual - typically --scope should point to directories\ncontaining files that reference the moved files."@
}

/// A warning when the scan scope and the grouped directory overlap. The
/// paths are compared as resolved (`scope_real`, `target_real`) and shown
/// as given (`scope_shown`, `target_shown`).
pub fn scope_overlap(
    scope_real: &str,
    target_real: &str,
    scope_shown: &str,
    target_shown: &str,
) -> (r: Option<String>)
    ensures
        path_starts_with(target_real@, scope_real@) ==> (r matches Some(m) && m@
            == scope_contains_message(scope_shown@, target_shown@)),
        !path_starts_with(target_real@, scope_real@) && path_starts_with(scope_real@, target_real@)
            ==> (r matches Some(m) && m@ == scope_inside_message(scope_shown@, target_shown@)),
        !path_starts_with(target_real@, scope_real@) && !path_starts_with(scope_real@, target_real@)
            ==> r is None,
{
    if starts_with_path(target_real, scope_real) {
        let mut m = concat3("Warning: --scope '", scope_shown, "' contains the target directory '");
        push_str(&mut m, target_shown);
        push_str(
            &mut m,
            "'\nThis will scan the newly created group directories and may be slow.\nConsider using a more specific --scope that only includes directories\nwith files that reference the moved files (e.g., --scope ./src).",
        );
        return Some(m);
    }
    if starts_with_path(scope_real, target_real) {
        let mut m = concat3("Warning: --scope '", scope_shown, "' is inside the target directory '");
        push_str(&mut m, target_shown);
        push_str(
            &mut m,
            "'.\nThis is unusual - typically --scope should point to directories\ncontaining files that reference the moved files.",
        );
        return Some(m);
    }
    None
}

/// How a proposed fix is shown: file, line, and the two references.
pub open spec fn fix_line(f: ReferenceFix) -> Seq<char> {
    "  "@ + f.file@ + ":"@ + decimal(f.line as nat) + ": '"@ + f.old_reference@ + "' -> '"@
        + f.new_reference@ + "'"@
}

/// How many fixes a preview shows.
pub const PREVIEW_FIXES: usize = 10;

/// The lines that preview a fix record: the first ten fixes, and a count
/// of the rest.
pub fn fix_preview(record: &FixRecord) -> (r: Vec<String>)
    ensures
        ({
            let n = record.fixes@.len();
            let shown = if n > 10 { 10 } else { n };
            &&& r@.len() == shown + if n > 10 { 1int } else { 0int }
            &&& forall|k: int| 0 <= k < shown ==> (#[trigger] r@[k])@ == fix_line(record.fixes@[k])
            &&& n > 10 ==> r@[10]@ == "  ... and "@ + decimal((n - 10) as nat)
                + " more (see fixes.json)"@
        }),
{
    let n = record.fixes.len();
    let shown: usize = if n > PREVIEW_FIXES { PREVIEW_FIXES } else { n };
    let mut out: Vec<String> = Vec::new();
    let mut i: usize = 0;
    while i < shown
        invariant
            shown <= n == record.fixes@.len(),
            shown == if n > 10 { 10 } else { n },
            i <= shown,
            out@.len() == i,
            forall|k: int| 0 <= k < i ==> (#[trigger] out@[k])@ == fix_line(record.fixes@[k]),
        decreases shown - i,
    {
        let f = &record.fixes[i];
        let line = usize_text(f.line);
        let mut m = concat3("  ", f.file.as_str(), ":");
        push_str(&mut m, line.as_str());
        push_str(&mut m, ": '");
        push_str(&mut m, f.old_reference.as_str());
        push_str(&mut m, "' -> '");
        push_str(&mut m, f.new_reference.as_str());
        push_str(&mut m, "'");
        out.push(m);
        i += 1;
    }
    if n > PREVIEW_FIXES {
        let rest = usize_text(n - PREVIEW_FIXES);
        out.push(concat3("  ... and ", rest.as_str(), " more (see fixes.json)"));
    }
    out
}

/// The settings of the first preset named `name`.
pub open spec fn preset_named(config: Seq<(String, Preset)>, name: Seq<char>) -> Option<Preset>
    decreases config.len(),
{
    if config.len() == 0 {
        None
    } else if config[0].0@ == name {
        Some(config[0].1)
    } else {
        preset_named(config.drop_first(), name)
    }
}

/// One line of the preset listing: the name and its steps.
pub open spec fn listing_line(config: Seq<(String, Preset)>, name: Seq<char>) -> Seq<char> {
    let steps = match preset_named(config, name) {
        Some(p) => strings_view(p.steps@),
        None => seq![],
    };
    "  "@ + name + ": "@ + join(steps, ", "@) + "\n"@
}

/// The listing lines of `names`, in order.
pub open spec fn listing_lines(config: Seq<(String, Preset)>, names: Seq<Seq<char>>) -> Seq<char>
    decreases names.len(),
{
    if names.len() == 0 {
        seq![]
    } else {
        listing_lines(config, names.drop_last()) + listing_line(config, names.last())
    }
}

fn find_preset<'a>(config: &'a [(String, Preset)], name: &str) -> (r: Option<&'a Preset>)
    ensures
        match r {
            Some(p) => preset_named(config@, name@) == Some(*p),
            None => preset_named(config@, name@) is None,
        },
{
    let mut i: usize = 0;
    assert(config@.skip(0) =~= config@);
    while i < config.len()
        invariant
            i <= config@.len(),
            preset_named(config@, name@) == preset_named(config@.skip(i as int), name@),
        decreases config.len() - i,
    {
        if str_eq(config[i].0.as_str(), name) {
            return Some(&config[i].1);
        }
        assert(config@.skip(i as int).drop_first() =~= config@.skip(i + 1));
        i += 1;
    }
    None
}

/// The listing of a preset file: its path, then one line per preset name,
/// in sorted order, with the preset's steps.
pub fn presets_listing(shown: &str, config: &[(String, Preset)]) -> (r: String)
    ensures
        exists|names: Seq<Seq<char>>|
            #![trigger listing_lines(config@, names)]
            strictly_sorted(names) && (forall|x: Seq<char>| names.contains(x) <==> preset_names(config@).contains(x))
                && r@ == shown@ + ":\n"@ + listing_lines(config@, names),
{
    let mut keys: Vec<String> = Vec::new();
    let mut i: usize = 0;
    while i < config.len()
        invariant
            i <= config@.len(),
            strings_view(keys@) == preset_names(config@.take(i as int)),
        decreases config.len() - i,
    {
        keys.push(owned(config[i].0.as_str()));
        assert(preset_names(config@.take(i + 1)) =~= preset_names(config@.take(i as int)).push(config@[i as int].0@));
        assert(strings_view(keys@) =~= preset_names(config@.take(i + 1)));
        i += 1;
    }
    assert(config@.take(config@.len() as int) =~= config@);
    let names = sorted_unique(keys.as_slice());
    let mut out = concat2(shown, ":\n");
    let ghost nv = strings_view(names@);
    let mut j: usize = 0;
    while j < names.len()
        invariant
            j <= names@.len(),
            nv == strings_view(names@),
            out@ == shown@ + ":\n"@ + listing_lines(config@, nv.take(j as int)),
        decreases names.len() - j,
    {
        let steps = match find_preset(config, names[j].as_str()) {
            Some(p) => join_strings(p.steps.as_slice(), ", "),
            None => String::new(),
        };
        proof {
            assert(nv.take(j + 1).drop_last() =~= nv.take(j as int));
            assert(nv.take(j + 1).last() == names@[j as int]@);
            if preset_named(config@, names@[j as int]@) is None {
                assert(join(seq![], ", "@) == Seq::<char>::empty());
            }
        }
        push_str(&mut out, "  ");
        push_str(&mut out, names[j].as_str());
        push_str(&mut out, ": ");
        push_str(&mut out, steps.as_str());
        push_str(&mut out, "\n");
        j += 1;
    }
    assert(nv.take(nv.len() as int) =~= nv);
    out
}


/// What a single-step command reports when it touched files.
pub open spec fn command_summary_text(step: Seq<char>, files: nat, units: nat) -> Seq<char> {
    if step == "convert"@ {
        "Converted "@ + decimal(units) + " identifier(s) in "@ + decimal(files) + " file(s)"@
    } else if step == "clean"@ {
        "Cleaned "@ + decimal(units) + " lines in "@ + decimal(files) + " file(s)"@
    } else if step == "emojis"@ {
        "Transformed emojis in "@ + decimal(files) + " file(s) ("@ + decimal(units) + " changes)"@
    } else if step == "rename"@ {
        "Renamed "@ + decimal(files) + " file(s)"@
    } else if step == "endings"@ {
        "Normalized "@ + decimal(units) + " ending(s) in "@ + decimal(files) + " file(s)"@
    } else if step == "indent"@ {
        "Normalized "@ + decimal(units) + " line(s) in "@ + decimal(files) + " file(s)"@
    } else if step == "replace"@ {
        "Made "@ + decimal(units) + " replacement(s) in "@ + decimal(files) + " file(s)"@
    } else if step == "header"@ {
        "Updated headers in "@ + decimal(files) + " file(s)"@
    } else {
        "Applied EditorConfig to "@ + decimal(files) + " file(s) ("@ + decimal(units)
            + " changes)"@
    }
}

/// What a single-step command reports when it touched nothing.
pub open spec fn command_nothing_text(step: Seq<char>) -> Seq<char> {
    if step == "convert"@ {
        "No changes needed"@
    } else if step == "clean"@ {
        "No files needed cleaning"@
    } else if step == "emojis"@ {
        "No files contained emojis to transform"@
    } else if step == "rename"@ {
        "No files needed renaming"@
    } else if step == "endings"@ {
        "No files needed line ending normalization"@
    } else if step == "indent"@ {
        "No files needed indentation normalization"@
    } else if step == "replace"@ {
        "No files matched the pattern"@
    } else if step == "header"@ {
        "All files already have correct headers"@
    } else {
        "All files already match .editorconfig"@
    }
}

/// The summary a single-step command reports: `files` touched and `units`
/// changed, in that step's words.
pub fn command_summary(step: &str, files: usize, units: usize) -> (r: String)
    ensures
        r@ == command_summary_text(step@, files as nat, units as nat),
{
    let f = usize_text(files);
    let u = usize_text(units);
    if str_eq(step, "convert") {
        let mut m = concat3("Converted ", u.as_str(), " identifier(s) in ");
        push_str(&mut m, f.as_str());
        push_str(&mut m, " file(s)");
        m
    } else if str_eq(step, "clean") {
        let mut m = concat3("Cleaned ", u.as_str(), " lines in ");
        push_str(&mut m, f.as_str());
        push_str(&mut m, " file(s)");
        m
    } else if str_eq(step, "emojis") {
        let mut m = concat3("Transformed emojis in ", f.as_str(), " file(s) (");
        push_str(&mut m, u.as_str());
        push_str(&mut m, " changes)");
        m
    } else if str_eq(step, "rename") {
        concat3("Renamed ", f.as_str(), " file(s)")
    } else if str_eq(step, "endings") {
        let mut m = concat3("Normalized ", u.as_str(), " ending(s) in ");
        push_str(&mut m, f.as_str());
        push_str(&mut m, " file(s)");
        m
    } else if str_eq(step, "indent") {
        let mut m = concat3("Normalized ", u.as_str(), " line(s) in ");
        push_str(&mut m, f.as_str());
        push_str(&mut m, " file(s)");
        m
    } else if str_eq(step, "replace") {
        let mut m = concat3("Made ", u.as_str(), " replacement(s) in ");
        push_str(&mut m, f.as_str());
        push_str(&mut m, " file(s)");
        m
    } else if str_eq(step, "header") {
        concat3("Updated headers in ", f.as_str(), " file(s)")
    } else {
        let mut m = concat3("Applied EditorConfig to ", f.as_str(), " file(s) (");
        push_str(&mut m, u.as_str());
        push_str(&mut m, " changes)");
        m
    }
}

/// What a single-step command reports when it touched nothing.
pub fn command_nothing(step: &str) -> (r: &'static str)
    ensures
        r@ == command_nothing_text(step@),
{
    if str_eq(step, "convert") {
        "No changes needed"
    } else if str_eq(step, "clean") {
        "No files needed cleaning"
    } else if str_eq(step, "emojis") {
        "No files contained emojis to transform"
    } else if str_eq(step, "rename") {
        "No files needed renaming"
    } else if str_eq(step, "endings") {
        "No files needed line ending normalization"
    } else if str_eq(step, "indent") {
        "No files needed indentation normalization"
    } else if str_eq(step, "replace") {
        "No files matched the pattern"
    } else if str_eq(step, "header") {
        "All files already have correct headers"
    } else {
        "All files already match .editorconfig"
    }
}

/// The line a pipeline reports for one step's outcome.
pub open spec fn outcome_line_text(prefix: Seq<char>, step: Seq<char>, o: StepOutcome) -> Seq<char> {
    match o {
        StepOutcome::Renamed(s) => if s.renamed > 0 {
            prefix + "  rename: "@ + decimal(s.renamed as nat) + " file(s) renamed"@
        } else {
            "  rename: no files needed renaming"@
        },
        StepOutcome::Grouped(s) => if s.files_moved > 0 {
            prefix + "  group: "@ + decimal(s.dirs_created as nat) + " dir(s) created, "@
                + decimal(s.files_moved as nat) + " file(s) moved"@
        } else {
            "  group: no files needed grouping"@
        },
        StepOutcome::Counted { files, units } => if files > 0 {
            prefix + "  "@ + step + ": "@ + decimal(files as nat) + " file(s), "@ + decimal(
                units as nat,
            ) + " change(s)"@
        } else {
            "  "@ + step + ": nothing to do"@
        },
    }
}

/// Executable [`outcome_line_text`].
pub fn outcome_line(prefix: &str, step: &str, outcome: &StepOutcome) -> (r: String)
    ensures
        r@ == outcome_line_text(prefix@, step@, *outcome),
{
    match outcome {
        StepOutcome::Renamed(s) => if s.renamed > 0 {
            let n = usize_text(s.renamed);
            let mut m = concat3(prefix, "  rename: ", n.as_str());
            push_str(&mut m, " file(s) renamed");
            m
        } else {
            owned("  rename: no files needed renaming")
        },
        StepOutcome::Grouped(s) => if s.files_moved > 0 {
            let d = usize_text(s.dirs_created);
            let f = usize_text(s.files_moved);
            let mut m = concat3(prefix, "  group: ", d.as_str());
            push_str(&mut m, " dir(s) created, ");
            push_str(&mut m, f.as_str());
            push_str(&mut m, " file(s) moved");
            m
        } else {
            owned("  group: no files needed grouping")
        },
        StepOutcome::Counted { files, units } => if *files > 0 {
            let f = usize_text(*files);
            let u = usize_text(*units);
            let mut m = concat3(prefix, "  ", step);
            push_str(&mut m, ": ");
            push_str(&mut m, f.as_str());
            push_str(&mut m, " file(s), ");
            push_str(&mut m, u.as_str());
            push_str(&mut m, " change(s)");
            m
        } else {
            concat3("  ", step, ": nothing to do")
        },
    }
}

/// The report of the default command: what the emoji and whitespace steps
/// did, or that nothing needed doing.
pub fn default_report(
    prefix: &str,
    emoji_files: usize,
    emoji_changes: usize,
    clean_files: usize,
    clean_lines: usize,
) -> (r: Vec<String>)
    ensures
        emoji_files == 0 && clean_files == 0 ==> strings_view(r@) == seq![
            "No files needed processing"@,
        ],
        emoji_files > 0 || clean_files > 0 ==> strings_view(r@) == seq![prefix@ + "Processed files:"@]
            + (if emoji_files > 0 {
            seq![
                "  - Emoji transformations: "@ + decimal(emoji_files as nat) + " file(s) ("@
                    + decimal(emoji_changes as nat) + " changes)"@,
            ]
        } else {
            seq![]
        }) + (if clean_files > 0 {
            seq![
                "  - Whitespace cleaned: "@ + decimal(clean_files as nat) + " file(s) ("@
                    + decimal(clean_lines as nat) + " lines)"@,
            ]
        } else {
            seq![]
        }),
{
    let mut out: Vec<String> = Vec::new();
    if emoji_files == 0 && clean_files == 0 {
        out.push(owned("No files needed processing"));
        assert(strings_view(out@) =~= seq!["No files needed processing"@]);
        return out;
    }
    out.push(concat2(prefix, "Processed files:"));
    let ghost first = strings_view(out@);
    let ghost emoji_part: Seq<Seq<char>> = seq![];
    if emoji_files > 0 {
        let f = usize_text(emoji_files);
        let c = usize_text(emoji_changes);
        let mut m = concat3("  - Emoji transformations: ", f.as_str(), " file(s) (");
        push_str(&mut m, c.as_str());
        push_str(&mut m, " changes)");
        proof {
            emoji_part = seq![m@];
        }
        out.push(m);
    }
    assert(strings_view(out@) =~= first + emoji_part);
    let ghost second = strings_view(out@);
    let ghost clean_part: Seq<Seq<char>> = seq![];
    if clean_files > 0 {
        let f = usize_text(clean_files);
        let l = usize_text(clean_lines);
        let mut m = concat3("  - Whitespace cleaned: ", f.as_str(), " file(s) (");
        push_str(&mut m, l.as_str());
        push_str(&mut m, " lines)");
        proof {
            clean_part = seq![m@];
        }
        out.push(m);
    }
    assert(strings_view(out@) =~= second + clean_part);
    out
}


/// What a run that reads stdin writes to stdout.
#[derive(Debug, Clone, Copy, PartialEq, Eq, Structural)]
pub enum StdinReply {
    /// A diff of the change.
    Diff,
    /// The (possibly changed) content.
    Content,
    /// Nothing.
    Silent,
}

/// What to write for content read from stdin: with `--diff`, a diff when
/// the content changed; with `--check` or `--dry-run`, nothing; otherwise
/// the content, changed or not.
pub fn stdin_reply(flags: &RunFlags, changed: bool) -> (r: StdinReply)
    ensures
        r == if flags.diff {
            if changed {
                StdinReply::Diff
            } else {
                StdinReply::Silent
            }
        } else if flags.check || flags.dry_run {
            StdinReply::Silent
        } else {
            StdinReply::Content
        },
{
    if flags.diff {
        if changed {
            StdinReply::Diff
        } else {
            StdinReply::Silent
        }
    } else if flags.check || flags.dry_run {
        StdinReply::Silent
    } else {
        StdinReply::Content
    }
}

/// The exit status of a run: 0 on success, 1 when `--check` found files
/// that would change, 2 on error (`None`).
pub fn exit_status(outcome: Option<bool>) -> (r: u8)
    ensures
        r == match outcome {
            Some(false) => 0u8,
            Some(true) => 1u8,
            None => 2u8,
        },
{
    match outcome {
        Some(false) => 0,
        Some(true) => 1,
        None => 2,
    }
}

/// Without a subcommand, a run needs a path or `--stdin-filename`.
pub fn check_default_args(paths: usize, reads_stdin: bool) -> (r: Result<(), ReformatError>)
    ensures
        r is Err <==> (paths == 0 && !reads_stdin),
        r matches Err(e) ==> e@ == "no command or path specified. Use --help for usage information."@,
{
    if paths == 0 && !reads_stdin {
        Err(ReformatError::new(owned("no command or path specified. Use --help for usage information.")))
    } else {
        Ok(())
    }
}

/// A job read from stdin cannot share stdin with the content.
pub fn check_job_source(source: &str, reads_stdin: bool) -> (r: Result<(), ReformatError>)
    ensures
        r is Err <==> (source@ == "-"@ && reads_stdin),
        r matches Err(e) ==> e@ == "--job - and --stdin-filename both read stdin; put the job in a file"@,
{
    if str_eq(source, "-") && reads_stdin {
        Err(ReformatError::new(owned("--job - and --stdin-filename both read stdin; put the job in a file")))
    } else {
        Ok(())
    }
}

/// The label a job runs under: `stdin` for a job read from stdin, else its
/// file.
pub fn job_label(source: &str) -> (r: &str)
    ensures
        r@ == if source@ == "-"@ {
            "stdin"@
        } else {
            source@
        },
{
    if str_eq(source, "-") {
        "stdin"
    } else {
        source
    }
}

/// The editorconfig command selects files from `.editorconfig`, so it takes
/// no extension list.
pub fn check_editorconfig_args(extensions_given: bool) -> (r: Result<(), ReformatError>)
    ensures
        r is Err <==> extensions_given,
        r matches Err(e) ==> e@ == "editorconfig selects files from .editorconfig; use --include or --exclude instead of -e"@,
{
    if extensions_given {
        Err(ReformatError::new(owned("editorconfig selects files from .editorconfig; use --include or --exclude instead of -e")))
    } else {
        Ok(())
    }
}

/// The report of applying a fix record: how many references were fixed in
/// how many files, and how many stale ones were skipped.
pub fn applied_report(result: &ApplyResult) -> (r: Vec<String>)
    ensures
        r@.len() == if result.references_skipped > 0 { 2int } else { 1int },
        r@[0]@ == "\nFixed "@ + decimal(result.references_fixed as nat) + " reference(s) in "@
            + decimal(result.files_modified as nat) + " file(s)."@,
        result.references_skipped > 0 ==> r@[1]@ == "Skipped "@ + decimal(
            result.references_skipped as nat,
        )
            + " reference(s): the recorded text no longer matches the file. The fixes may already have been applied, or the file changed since the scan."@,
{
    let mut out: Vec<String> = Vec::new();
    let fixed = usize_text(result.references_fixed);
    let files = usize_text(result.files_modified);
    let mut m = concat3("\nFixed ", fixed.as_str(), " reference(s) in ");
    push_str(&mut m, files.as_str());
    push_str(&mut m, " file(s).");
    out.push(m);
    if result.references_skipped > 0 {
        let n = usize_text(result.references_skipped);
        out.push(
            concat3(
                "Skipped ",
                n.as_str(),
                " reference(s): the recorded text no longer matches the file. The fixes may already have been applied, or the file changed since the scan.",
            ),
        );
    }
    out
}

/// What `String::from_utf8_lossy` gives for `b`: valid UTF-8 as it is,
/// other bytes with each invalid sequence replaced by U+FFFD.
pub uninterp spec fn lossy_of(b: Seq<u8>) -> Seq<char>;

/// Calls `String::from_utf8_lossy`; named [`lossy_of`]. As std documents,
/// valid UTF-8 comes back unchanged.
#[verifier::external_body]
fn utf8_lossy(b: &[u8]) -> (r: String)
    ensures
        r@ == lossy_of(b@),
        valid_utf8(b@) ==> r@ == decode_utf8(b@),
{
    String::from_utf8_lossy(b).into_owned()
}

/// What `similar` renders as the unified line diff from `old` to `new`
/// under the headers `old_header` and `new_header`.
pub uninterp spec fn unified_diff_of(
    old: Seq<char>,
    new: Seq<char>,
    old_header: Seq<char>,
    new_header: Seq<char>,
) -> Seq<char>;

/// Calls `similar::TextDiff::from_lines`, `unified_diff` and `header`, and
/// renders the result; named [`unified_diff_of`].
#[verifier::external_body]
fn unified_diff(old: &str, new: &str, old_header: &str, new_header: &str) -> (r: String)
    ensures
        r@ == unified_diff_of(old@, new@, old_header@, new_header@),
{
    similar::TextDiff::from_lines(old, new).unified_diff().header(old_header, new_header).to_string()
}

/// `text` with each carriage return shown as the two characters `\r`, so
/// that a change of line endings shows in a diff.
pub open spec fn shown_cr(text: Seq<char>) -> Seq<char> {
    replaced(text, seq!['\r'], seq!['\\', 'r'])
}

/// Executable [`shown_cr`].
pub fn show_cr(text: &str) -> (r: String)
    ensures
        r@ == shown_cr(text@),
{
    proof {
        reveal_strlit("\r");
        reveal_strlit("\\r");
        assert("\r"@ =~= seq!['\r']);
        assert("\\r"@ =~= seq!['\\', 'r']);
    }
    replace_str(text, "\r", "\\r")
}

/// The `--diff` text for a file at `path` changed from `before` to
/// `after`: the unified diff of the two contents (read as UTF-8, invalid
/// sequences replaced) with carriage returns shown, under the headers
/// `a/path` and `b/path`.
pub fn diff_text(path: &str, before: &[u8], after: &[u8]) -> (r: String)
    ensures
        r@ == unified_diff_of(
            shown_cr(lossy_of(before@)),
            shown_cr(lossy_of(after@)),
            "a/"@ + path@,
            "b/"@ + path@,
        ),
{
    let old = show_cr(utf8_lossy(before).as_str());
    let new = show_cr(utf8_lossy(after).as_str());
    let old_header = concat2("a/", path);
    let new_header = concat2("b/", path);
    unified_diff(old.as_str(), new.as_str(), old_header.as_str(), new_header.as_str())
}

} // verus!
