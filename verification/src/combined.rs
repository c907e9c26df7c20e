//! Several transformations in one pass over the files: emoji, then
//! whitespace, optionally after lowercasing file names.

use vstd::prelude::*;
use crate::step::{ContentStep, FileTarget, RunReport};
use crate::emoji::{EmojiOptions, EmojiTransformer, default_emoji_extensions};
use crate::whitespace::{WhitespaceOptions, WhitespaceCleaner, default_clean_extensions, sat};
use crate::rename::{CaseTransform, FileRenamer, RenameOptions, SpaceReplace, TimestampFormat};
use crate::text::strings_view;

verus! {

/// Options for combined processing.
#[derive(Debug, Clone)]
pub struct CombinedOptions {
    /// Process directories recursively
    pub recursive: bool,
    /// Dry run mode (don't modify files)
    pub dry_run: bool,
    /// Also rename files to lowercase. Off by default: lowercasing
    /// `Cargo.toml`, `Makefile` or `Button.tsx` breaks builds and imports.
    pub lowercase_filenames: bool,
}

impl Default for CombinedOptions {
    fn default() -> (r: CombinedOptions)
        ensures
            r.recursive,
            !r.dry_run,
            !r.lowercase_filenames,
    {
        CombinedOptions { recursive: true, dry_run: false, lowercase_filenames: false }
    }
}

/// Statistics from combined processing.
#[derive(Debug)]
pub struct CombinedStats {
    /// Number of files renamed
    pub files_renamed: usize,
    /// Number of files with emoji transformations
    pub files_emoji_transformed: usize,
    /// Number of emoji changes
    pub emoji_changes: usize,
    /// Number of files with whitespace cleaned
    pub files_whitespace_cleaned: usize,
    /// Number of lines with whitespace cleaned
    pub whitespace_lines_cleaned: usize,
}

impl Default for CombinedStats {
    fn default() -> (r: CombinedStats)
        ensures
            r.files_renamed == 0,
            r.files_emoji_transformed == 0,
            r.emoji_changes == 0,
            r.files_whitespace_cleaned == 0,
            r.whitespace_lines_cleaned == 0,
    {
        CombinedStats {
            files_renamed: 0,
            files_emoji_transformed: 0,
            emoji_changes: 0,
            files_whitespace_cleaned: 0,
            whitespace_lines_cleaned: 0,
        }
    }
}

impl CombinedStats {
    /// Counts a renamed file (saturating).
    pub fn record_rename(&mut self)
        ensures
            final(self).files_renamed == sat((old(self).files_renamed + 1) as nat),
            final(self).files_emoji_transformed == old(self).files_emoji_transformed,
            final(self).emoji_changes == old(self).emoji_changes,
            final(self).files_whitespace_cleaned == old(self).files_whitespace_cleaned,
            final(self).whitespace_lines_cleaned == old(self).whitespace_lines_cleaned,
    {
        self.files_renamed = self.files_renamed.saturating_add(1);
    }

    /// Adds the totals of a run of the two content steps (emoji first,
    /// whitespace second), saturating.
    pub fn record_report(&mut self, report: &RunReport)
        requires
            report.steps@.len() == 2,
        ensures
            final(self).files_renamed == old(self).files_renamed,
            final(self).files_emoji_transformed == sat(
                (old(self).files_emoji_transformed + report.steps@[0].files) as nat,
            ),
            final(self).emoji_changes == sat((old(self).emoji_changes + report.steps@[0].units) as nat),
            final(self).files_whitespace_cleaned == sat(
                (old(self).files_whitespace_cleaned + report.steps@[1].files) as nat,
            ),
            final(self).whitespace_lines_cleaned == sat(
                (old(self).whitespace_lines_cleaned + report.steps@[1].units) as nat,
            ),
    {
        let emojis = &report.steps[0];
        let whitespace = &report.steps[1];
        self.files_emoji_transformed = self.files_emoji_transformed.saturating_add(emojis.files);
        self.emoji_changes = self.emoji_changes.saturating_add(emojis.units);
        self.files_whitespace_cleaned = self.files_whitespace_cleaned.saturating_add(whitespace.files);
        self.whitespace_lines_cleaned = self.whitespace_lines_cleaned.saturating_add(whitespace.units);
    }
}

/// Applies several transformations in a single pass.
pub struct CombinedProcessor {
    options: CombinedOptions,
    renamer: Option<FileRenamer>,
    emojis: EmojiTransformer,
    whitespace: WhitespaceCleaner,
}

impl CombinedProcessor {
    /// Creates a processor: the emoji and whitespace steps with their
    /// defaults, and (when asked) a renamer that lowercases names, all
    /// sharing the recursion and dry-run settings.
    pub fn new(options: CombinedOptions) -> (r: CombinedProcessor)
        ensures
            r.options() == options,
            r.renamer_spec() is Some == options.lowercase_filenames,
            r.renamer_spec() matches Some(f) ==> f@.case_transform == CaseTransform::Lowercase
                && f@.space_replace == SpaceReplace::Keep && f@.timestamp_format
                == TimestampFormat::Omit && f@.add_prefix is None && f@.remove_prefix is None
                && f@.add_suffix is None && f@.remove_suffix is None && f@.replace_prefix is None
                && f@.replace_suffix is None && f@.recursive == options.recursive && f@.dry_run
                == options.dry_run && !f@.include_symlinks,
            r.emojis_spec()@.replace_task_emojis && r.emojis_spec()@.remove_other_emojis,
            strings_view(r.emojis_spec()@.file_extensions@) == default_emoji_extensions(),
            r.emojis_spec()@.recursive == options.recursive,
            r.emojis_spec()@.dry_run == options.dry_run,
            r.whitespace_spec()@.remove_trailing,
            !r.whitespace_spec()@.insert_final_newline,
            !r.whitespace_spec()@.trim_trailing_blank_lines,
            strings_view(r.whitespace_spec()@.file_extensions@) == default_clean_extensions(),
            r.whitespace_spec()@.recursive == options.recursive,
            r.whitespace_spec()@.dry_run == options.dry_run,
    {
        let renamer = if options.lowercase_filenames {
            let mut ro = RenameOptions::default();
            ro.case_transform = CaseTransform::Lowercase;
            ro.recursive = options.recursive;
            ro.dry_run = options.dry_run;
            Some(FileRenamer::new(ro))
        } else {
            None
        };
        let mut eo = EmojiOptions::default();
        eo.recursive = options.recursive;
        eo.dry_run = options.dry_run;
        let mut wo = WhitespaceOptions::default();
        wo.recursive = options.recursive;
        wo.dry_run = options.dry_run;
        CombinedProcessor {
            options,
            renamer,
            emojis: EmojiTransformer::new(eo),
            whitespace: WhitespaceCleaner::new(wo),
        }
    }

    /// Creates a processor with the default options.
    pub fn with_defaults() -> (r: CombinedProcessor)
        ensures
            r.options().recursive && !r.options().dry_run && !r.options().lowercase_filenames,
            r.renamer_spec() is None,
    {
        CombinedProcessor::new(CombinedOptions::default())
    }

    /// The options, as a specification.
    pub closed spec fn options(&self) -> CombinedOptions {
        self.options
    }

    /// The renamer, as a specification.
    pub closed spec fn renamer_spec(&self) -> Option<FileRenamer> {
        self.renamer
    }

    /// The emoji step, as a specification.
    pub closed spec fn emojis_spec(&self) -> EmojiTransformer {
        self.emojis
    }

    /// The whitespace step, as a specification.
    pub closed spec fn whitespace_spec(&self) -> WhitespaceCleaner {
        self.whitespace
    }

    /// The options this processor runs with.
    pub fn combined_options(&self) -> (r: &CombinedOptions)
        ensures
            *r == self.options(),
    {
        &self.options
    }

    /// The renamer that lowercases file names, if asked for.
    pub fn renamer(&self) -> (r: Option<&FileRenamer>)
        ensures
            match r {
                Some(f) => self.renamer_spec() == Some(*f),
                None => self.renamer_spec() is None,
            },
    {
        match &self.renamer {
            Some(f) => Some(f),
            None => None,
        }
    }

    /// The content steps this processor applies, in order: emoji, then
    /// whitespace.
    pub fn content_steps(&self) -> (r: (&dyn ContentStep, &dyn ContentStep))
        ensures
            r.0.spec_name() == self.emojis_spec().spec_name(),
            r.1.spec_name() == self.whitespace_spec().spec_name(),
            forall|f: FileTarget| #[trigger] r.0.spec_accepts(f) == self.emojis_spec().spec_accepts(f),
            forall|f: FileTarget| #[trigger] r.1.spec_accepts(f) == self.whitespace_spec().spec_accepts(f),
            forall|t: Seq<char>, f: FileTarget|
                #[trigger] r.0.spec_transform(t, f) == self.emojis_spec().spec_transform(t, f),
            forall|t: Seq<char>, f: FileTarget|
                #[trigger] r.1.spec_transform(t, f) == self.whitespace_spec().spec_transform(t, f),
    {
        (&self.emojis, &self.whitespace)
    }
}

} // verus!
