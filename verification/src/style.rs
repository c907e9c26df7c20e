//! Applying per-file style settings, such as those declared in
//! `.editorconfig`.
//!
//! This module does not parse `.editorconfig`: the caller supplies a
//! resolver that maps a path to a [`FileStyle`], and [`StyleStep`] applies
//! it with the `clean`, `indent` and `endings` transformations.

use vstd::prelude::*;
use crate::endings::{endings_transform, EndingsNormalizer, EndingsOptions, LineEnding};
use crate::indent::{indent_transform, IndentNormalizer, IndentOptions, IndentStyle};
use crate::step::{ContentStep, FileTarget};
use crate::text::{concat3, decimal, str_eq, usize_text};
use crate::whitespace::{clean_transform, trim_bodies, CleanMode, WhitespaceCleaner, WhitespaceOptions};
use crate::lines::{split_spec, lemma_split_roundtrip};

verus! {

/// Style settings for one file. `None` or `false` leaves that aspect alone.
#[derive(Debug, Clone, Copy, Default, PartialEq, Eq)]
pub struct FileStyle {
    /// Indentation style and tab width.
    pub indent: Option<(IndentStyle, usize)>,
    /// Line terminator.
    pub end_of_line: Option<LineEnding>,
    /// Strip trailing whitespace from each line.
    pub trim_trailing_whitespace: bool,
    /// Ensure a non-empty file ends with a line terminator.
    pub insert_final_newline: bool,
}

/// A style that can change nothing.
pub open spec fn style_is_empty(s: FileStyle) -> bool {
    s.indent is None && s.end_of_line is None && !s.trim_trailing_whitespace && !s.insert_final_newline
}

impl FileStyle {
    /// True if applying this style can change nothing.
    pub fn is_empty(&self) -> (r: bool)
        ensures
            r == style_is_empty(*self),
    {
        self.indent.is_none() && self.end_of_line.is_none() && !self.trim_trailing_whitespace
            && !self.insert_final_newline
    }
}

/// The properties `.editorconfig` declares for one file, as plain values:
/// `None` where a property is unset or has a value that is not understood.
#[derive(Debug, Clone, Default)]
pub struct EditorProperties {
    pub trim_trailing_whitespace: Option<bool>,
    pub insert_final_newline: Option<bool>,
    pub end_of_line: Option<LineEnding>,
    pub indent_style: Option<IndentStyle>,
    /// The tab width, with `indent_size` as its fallback.
    pub tab_width: Option<usize>,
}

/// The style that `.editorconfig` properties declare. Indentation is
/// resolved only when `indent` is set (`indent_style = space` under `[*]`
/// would otherwise rewrite the tabs a `Makefile` requires), and only with a
/// positive width; `insert_final_newline = false` leaves newlines alone.
pub open spec fn style_of_properties(p: EditorProperties, indent: bool) -> FileStyle {
    FileStyle {
        trim_trailing_whitespace: p.trim_trailing_whitespace == Some(true),
        insert_final_newline: p.insert_final_newline == Some(true),
        end_of_line: p.end_of_line,
        indent: match (p.indent_style, p.tab_width) {
            (Some(s), Some(w)) => if indent && w > 0 {
                Some((s, w))
            } else {
                None
            },
            _ => None,
        },
    }
}

/// Executable [`style_of_properties`].
pub fn style_from_properties(p: &EditorProperties, indent: bool) -> (r: FileStyle)
    ensures
        r == style_of_properties(*p, indent),
{
    FileStyle {
        trim_trailing_whitespace: match p.trim_trailing_whitespace {
            Some(b) => b,
            None => false,
        },
        insert_final_newline: match p.insert_final_newline {
            Some(b) => b,
            None => false,
        },
        end_of_line: p.end_of_line,
        indent: match (p.indent_style, p.tab_width) {
            (Some(s), Some(w)) => if indent && w > 0 {
                Some((s, w))
            } else {
                None
            },
            _ => None,
        },
    }
}

/// The result of one step applied after another: the step's output when it
/// changed the text, the previous text otherwise, with counts added.
pub open spec fn then_step(prev: (Seq<char>, nat), r: Option<(Seq<char>, usize)>) -> (Seq<char>, nat) {
    match r {
        Some((t, n)) => (t, (prev.1 + n) as nat),
        None => prev,
    }
}

/// The text and change count after applying `style` to `text`: whitespace
/// first, then indentation (when set with a nonzero width), then line
/// endings last, so that an added newline takes the target style.
pub open spec fn apply_style(style: FileStyle, text: Seq<char>) -> (Seq<char>, nat) {
    let mode = CleanMode {
        remove_trailing: style.trim_trailing_whitespace,
        insert_final_newline: style.insert_final_newline,
        trim_trailing_blank_lines: false,
    };
    let a = then_step((text, 0), clean_transform(mode, text));
    let b = match style.indent {
        Some((st, w)) => if w > 0 {
            then_step(a, indent_transform(st, w as nat, a.0))
        } else {
            a
        },
        None => a,
    };
    match style.end_of_line {
        Some(e) => then_step(b, endings_transform(b.0, e)),
        None => b,
    }
}

/// A style that can change nothing leaves every text as it is.
pub proof fn lemma_empty_style_changes_nothing(style: FileStyle, text: Seq<char>)
    requires
        style_is_empty(style),
    ensures
        apply_style(style, text).0 == text,
{
    assert(trim_bodies(split_spec(text), false) =~= split_spec(text));
    lemma_split_roundtrip(text);
}

/// A count as a `usize`, saturating at `usize::MAX`.
pub open spec fn sat_nat(n: nat) -> usize {
    if n > usize::MAX { usize::MAX } else { n as usize }
}

/// A content step that applies the [`FileStyle`] resolved for each file.
pub struct StyleStep<F: Fn(&str) -> FileStyle> {
    resolve: F,
    recursive: bool,
}

impl<F: Fn(&str) -> FileStyle> StyleStep<F> {
    /// The resolver answers every path, and paths with the same text always
    /// get the same style.
    pub open spec fn resolver_ok(f: F) -> bool {
        &&& forall|p: &str| #[trigger] f.requires((p,))
        &&& forall|p1: &str, p2: &str, s1: FileStyle, s2: FileStyle|
            #[trigger] f.ensures((p1,), s1) && #[trigger] f.ensures((p2,), s2) && p1@ == p2@ ==> s1 == s2
    }

    /// The style the resolver gives for a path with text `v`.
    pub open spec fn style_of(f: F, v: Seq<char>) -> FileStyle {
        choose|s: FileStyle| #[trigger] Self::gives(f, v, s)
    }

    /// The resolver may answer `s` for a path with text `v`.
    pub open spec fn gives(f: F, v: Seq<char>, s: FileStyle) -> bool {
        exists|p: &str| p@ == v && #[trigger] f.ensures((p,), s)
    }

    /// The resolver this step asks.
    pub closed spec fn resolver(&self) -> F {
        self.resolve
    }

    /// Whether the step walks below the first level.
    pub closed spec fn is_recursive(&self) -> bool {
        self.recursive
    }

    /// The resolver is usable.
    #[verifier::type_invariant]
    closed spec fn resolver_usable(self) -> bool {
        Self::resolver_ok(self.resolve)
    }

    /// Creates a step that asks `resolve` for each file's style.
    pub fn new(resolve: F, recursive: bool) -> (r: Self)
        requires
            Self::resolver_ok(resolve),
        ensures
            r.resolver() == resolve,
            r.is_recursive() == recursive,
    {
        StyleStep { resolve, recursive }
    }

    /// Resolves the style for `path`.
    fn style_for(&self, path: &str) -> (r: FileStyle)
        ensures
            r == Self::style_of(self.resolver(), path@),
    {
        proof {
            use_type_invariant(self);
        }
        let s = (self.resolve)(path);
        assert(Self::gives(self.resolve, path@, s));
        s
    }
}

impl<F: Fn(&str) -> FileStyle> ContentStep for StyleStep<F> {
    open spec fn spec_accepts(&self, file: FileTarget) -> bool {
        (self.is_recursive() || file.depth <= 1) && !style_is_empty(
            Self::style_of(self.resolver(), file.path@),
        )
    }

    open spec fn spec_transform(&self, text: Seq<char>, file: FileTarget) -> Option<(Seq<char>, usize)> {
        let r = apply_style(Self::style_of(self.resolver(), file.path@), text);
        if r.0 != text {
            Some((r.0, sat_nat(r.1)))
        } else {
            None
        }
    }

    open spec fn spec_name(&self) -> Seq<char> {
        "editorconfig"@
    }

    fn name(&self) -> (r: &'static str) {
        "editorconfig"
    }

    fn accepts(&self, file: &FileTarget) -> (r: bool) {
        (self.recursive || file.depth <= 1) && !self.style_for(file.path.as_str()).is_empty()
    }

    fn transform(&self, text: &str, file: &FileTarget) -> (r: Option<(String, usize)>) {
        let style = self.style_for(file.path.as_str());
        let ghost spec_r = apply_style(style, text@);
        let whitespace = WhitespaceCleaner::new(WhitespaceOptions {
            remove_trailing: style.trim_trailing_whitespace,
            insert_final_newline: style.insert_final_newline,
            trim_trailing_blank_lines: false,
            file_extensions: Vec::new(),
            recursive: true,
            dry_run: false,
        });
        let mut current = crate::text::owned(text);
        let mut units: usize = 0;
        let ghost mut total: nat = 0;
        match whitespace.transform(current.as_str(), file) {
            Some((next, n)) => {
                current = next;
                units = units.saturating_add(n);
                proof {
                    total = (total + n) as nat;
                }
            },
            None => {},
        }
        let ghost a = (current@, total);
        assert(units == sat_nat(total));
        match style.indent {
            Some((st, w)) => {
                if w > 0 {
                    let indent = IndentNormalizer::new(IndentOptions {
                        style: st,
                        width: w,
                        file_extensions: Vec::new(),
                        recursive: true,
                        dry_run: false,
                    });
                    match indent.transform(current.as_str(), file) {
                        Some((next, n)) => {
                            current = next;
                            units = units.saturating_add(n);
                            proof {
                                total = (total + n) as nat;
                            }
                        },
                        None => {},
                    }
                }
            },
            None => {},
        }
        assert(units == sat_nat(total));
        match style.end_of_line {
            Some(e) => {
                let endings = EndingsNormalizer::new(EndingsOptions {
                    style: e,
                    file_extensions: Vec::new(),
                    recursive: true,
                    dry_run: false,
                });
                match endings.transform(current.as_str(), file) {
                    Some((next, n)) => {
                        current = next;
                        units = units.saturating_add(n);
                        proof {
                            total = (total + n) as nat;
                        }
                    },
                    None => {},
                }
            },
            None => {},
        }
        assert(units == sat_nat(total));
        assert((current@, total) == spec_r);
        if !str_eq(current.as_str(), text) {
            Some((current, units))
        } else {
            None
        }
    }

    fn transform_bytes(&self, bytes: &[u8], file: &FileTarget) -> (r: Option<(Vec<u8>, usize)>) {
        None
    }

    fn supports_bytes(&self) -> (r: bool) {
        false
    }

    fn describe(&self, units: usize, dry_run: bool) -> (r: String)
        ensures
            r@ == if dry_run {
                "Would apply EditorConfig ("@ + decimal(units as nat) + " change(s)) to"@
            } else {
                "Applied EditorConfig ("@ + decimal(units as nat) + " change(s)) to"@
            },
    {
        let n = usize_text(units);
        if dry_run {
            concat3("Would apply EditorConfig (", n.as_str(), " change(s)) to")
        } else {
            concat3("Applied EditorConfig (", n.as_str(), " change(s)) to")
        }
    }
}

/// A file whose resolved style can change nothing is neither accepted nor
/// changed by the step.
pub proof fn lemma_empty_style_step<F: Fn(&str) -> FileStyle>(
    step: StyleStep<F>,
    text: Seq<char>,
    file: FileTarget,
)
    requires
        style_is_empty(StyleStep::<F>::style_of(step.resolver(), file.path@)),
    ensures
        !step.spec_accepts(file),
        step.spec_transform(text, file) is None,
{
    lemma_empty_style_changes_nothing(StyleStep::<F>::style_of(step.resolver(), file.path@), text);
}

} // verus!
