//! Emoji removal and replacement.
//!
//! Task and status emoji (check marks, crosses, coloured circles, …) are
//! replaced with a short text equivalent; every other emoji is removed as a
//! whole sequence: a base emoji with its presentation selectors and skin
//! tones, joined to further emoji by zero width joiners, and keycap
//! sequences with their digit. Stray joiners and keycap marks are removed
//! too.
//!
//! The matching rules are written out below as functions over the
//! characters; a match is found at the leftmost position, the first rule
//! that applies there wins, and each rule takes as much as it can.

use vstd::prelude::*;
use crate::step::{ContentStep, FileTarget, accepted_by_extension, accepts_by_extension};
use crate::text::{
    chars_of, string_of, str_eq, strings_view, texts, strs, concat3, usize_text, decimal,
};
use crate::whitespace::sat;

verus! {

/// Zero width joiner.
pub open spec fn zwj() -> char {
    '\u{200D}'
}

/// Combining enclosing keycap.
pub open spec fn keycap_mark() -> char {
    '\u{20E3}'
}

/// Variation selectors, which choose text or emoji presentation.
pub open spec fn is_vs(c: char) -> bool {
    '\u{FE00}' <= c && c <= '\u{FE0F}'
}

/// Modifiers that attach to a base emoji: presentation selectors and skin
/// tones.
pub open spec fn is_modifier(c: char) -> bool {
    is_vs(c) || ('\u{1F3FB}' <= c && c <= '\u{1F3FF}')
}

/// Characters that start a keycap sequence.
pub open spec fn is_keycap_base(c: char) -> bool {
    ('0' <= c && c <= '9') || c == '#' || c == '*'
}

/// Task and status emoji, replaced with a text equivalent rather than
/// deleted.
pub open spec fn is_task(c: char) -> bool {
    ||| c == '\u{2705}' || c == '\u{2611}' || c == '\u{2714}' || c == '\u{2713}'
    ||| c == '\u{2610}' || c == '\u{2612}' || c == '\u{274C}' || c == '\u{274E}'
    ||| c == '\u{26A0}' || c == '\u{26D4}' || c == '\u{2B50}'
    ||| c == '\u{1F7E0}' || c == '\u{1F7E1}' || c == '\u{1F7E8}' || c == '\u{1F7E2}'
    ||| c == '\u{1F534}'
    ||| c == '\u{1F4DD}' || c == '\u{1F4CB}' || c == '\u{1F4C4}' || c == '\u{1F4C5}'
    ||| c == '\u{1F4C6}' || c == '\u{1F5D3}'
    ||| c == '\u{1F4D1}' || c == '\u{1F4CC}' || c == '\u{1F4CD}' || c == '\u{1F4CE}'
}

/// The ranges of base emoji. Card suits (U+2660–U+2667) and musical notes
/// (U+2669–U+266F) are ordinary text characters and are left out.
pub open spec fn in_emoji_ranges(c: char) -> bool {
    ||| ('\u{1F300}' <= c && c <= '\u{1F5FF}')
    ||| ('\u{1F600}' <= c && c <= '\u{1F64F}')
    ||| ('\u{1F680}' <= c && c <= '\u{1F6FF}')
    ||| ('\u{1F900}' <= c && c <= '\u{1F9FF}')
    ||| ('\u{1FA00}' <= c && c <= '\u{1FAFF}')
    ||| c == '\u{1F004}' || c == '\u{1F0CF}' || c == '\u{1F18E}'
    ||| ('\u{1F191}' <= c && c <= '\u{1F19A}')
    ||| ('\u{1F1E0}' <= c && c <= '\u{1F1FF}')
    ||| ('\u{2600}' <= c && c <= '\u{265F}')
    ||| c == '\u{2668}'
    ||| ('\u{2670}' <= c && c <= '\u{26FF}')
    ||| ('\u{2700}' <= c && c <= '\u{27BF}')
}

/// A base emoji; task emoji are not bases when they are kept.
pub open spec fn is_base(c: char, keep_tasks: bool) -> bool {
    in_emoji_ranges(c) && !(keep_tasks && is_task(c))
}

/// The text a task emoji is replaced with.
pub open spec fn task_text(c: char) -> Seq<char> {
    if c == '\u{2705}' || c == '\u{2611}' || c == '\u{2714}' || c == '\u{2713}' {
        "[x]"@
    } else if c == '\u{2610}' {
        "[ ]"@
    } else if c == '\u{2612}' || c == '\u{274C}' || c == '\u{274E}' {
        "[X]"@
    } else if c == '\u{26A0}' || c == '\u{26D4}' {
        "[!]"@
    } else if c == '\u{2B50}' {
        "[+]"@
    } else if c == '\u{1F7E0}' {
        "[orange]"@
    } else if c == '\u{1F7E1}' || c == '\u{1F7E8}' {
        "[yellow]"@
    } else if c == '\u{1F7E2}' {
        "[green]"@
    } else if c == '\u{1F534}' {
        "[red]"@
    } else if c == '\u{1F4DD}' {
        "[note]"@
    } else if c == '\u{1F4CB}' {
        "[list]"@
    } else if c == '\u{1F4C4}' {
        "[doc]"@
    } else if c == '\u{1F4C5}' || c == '\u{1F4C6}' || c == '\u{1F5D3}' {
        "[cal]"@
    } else if c == '\u{1F4D1}' {
        "[tab]"@
    } else if c == '\u{1F4CC}' || c == '\u{1F4CD}' {
        "[pin]"@
    } else if c == '\u{1F4CE}' {
        "[clip]"@
    } else {
        seq![]
    }
}

/// How many modifiers follow from position `i`.
pub open spec fn mods_at(s: Seq<char>, i: int) -> nat
    decreases s.len() - i,
{
    if 0 <= i < s.len() && is_modifier(s[i]) {
        1 + mods_at(s, i + 1)
    } else {
        0
    }
}

pub proof fn lemma_mods_bound(s: Seq<char>, i: int)
    requires
        0 <= i,
    ensures
        i + mods_at(s, i) <= if i <= s.len() { s.len() as int } else { i },
    decreases s.len() - i,
{
    if 0 <= i < s.len() && is_modifier(s[i]) {
        lemma_mods_bound(s, i + 1);
    }
}

/// Length of the joiner-linked continuation from position `i`: each link
/// is a zero width joiner, a base and its modifiers.
pub open spec fn chain_at(s: Seq<char>, i: int, keep_tasks: bool) -> nat
    decreases s.len() - i,
{
    if 0 <= i && i + 1 < s.len() && s[i] == zwj() && is_base(s[i + 1], keep_tasks) {
        let m = mods_at(s, i + 2);
        proof {
            lemma_mods_bound(s, i + 2);
        }
        2 + m + chain_at(s, i + 2 + m, keep_tasks)
    } else {
        0
    }
}

pub proof fn lemma_chain_bound(s: Seq<char>, i: int, keep_tasks: bool)
    requires
        0 <= i,
    ensures
        i + chain_at(s, i, keep_tasks) <= if i <= s.len() { s.len() as int } else { i },
    decreases s.len() - i,
{
    if 0 <= i && i + 1 < s.len() && s[i] == zwj() && is_base(s[i + 1], keep_tasks) {
        let m = mods_at(s, i + 2);
        lemma_mods_bound(s, i + 2);
        lemma_chain_bound(s, i + 2 + m, keep_tasks);
    }
}

/// Length of an emoji sequence starting at `i`: a base, its modifiers and
/// its joined continuation.
pub open spec fn sequence_at(s: Seq<char>, i: int, keep_tasks: bool) -> nat {
    if 0 <= i < s.len() && is_base(s[i], keep_tasks) {
        let m = mods_at(s, i + 1);
        1 + m + chain_at(s, i + 1 + m, keep_tasks)
    } else {
        0
    }
}

/// Length of a keycap sequence starting at `i`: a digit, `#` or `*`, an
/// optional variation selector and the keycap mark.
pub open spec fn keycap_at(s: Seq<char>, i: int) -> nat {
    if 0 <= i && i + 1 < s.len() && is_keycap_base(s[i]) {
        if i + 2 < s.len() && is_vs(s[i + 1]) && s[i + 2] == keycap_mark() {
            3
        } else if s[i + 1] == keycap_mark() {
            2
        } else {
            0
        }
    } else {
        0
    }
}

/// Length of the decorative emoji match at `i` (0 for none): a keycap
/// sequence, else an emoji sequence, else a lone joiner or keycap mark.
pub open spec fn match_at(s: Seq<char>, i: int, keep_tasks: bool) -> nat {
    if keycap_at(s, i) > 0 {
        keycap_at(s, i)
    } else if sequence_at(s, i, keep_tasks) > 0 {
        sequence_at(s, i, keep_tasks)
    } else if 0 <= i < s.len() && (s[i] == zwj() || s[i] == keycap_mark()) {
        1
    } else {
        0
    }
}

pub proof fn lemma_match_bound(s: Seq<char>, i: int, keep_tasks: bool)
    requires
        0 <= i < s.len(),
    ensures
        i + match_at(s, i, keep_tasks) <= s.len(),
{
    lemma_mods_bound(s, i + 1);
    lemma_chain_bound(s, i + 1 + mods_at(s, i + 1), keep_tasks);
}

/// The text from position `i` with every decorative emoji match removed,
/// and the number of matches.
pub open spec fn removal_from(s: Seq<char>, i: int, keep_tasks: bool) -> (Seq<char>, nat)
    decreases s.len() - i,
{
    if i < 0 || i >= s.len() {
        (seq![], 0)
    } else {
        let k = match_at(s, i, keep_tasks);
        proof {
            lemma_match_bound(s, i, keep_tasks);
        }
        if k > 0 {
            let r = removal_from(s, i + k, keep_tasks);
            (r.0, r.1 + 1)
        } else {
            let r = removal_from(s, i + 1, keep_tasks);
            (seq![s[i]] + r.0, r.1)
        }
    }
}

/// The text from position `i` with every task emoji (and one variation
/// selector right after it) replaced by its text, and the number of
/// replacements.
pub open spec fn replacement_from(s: Seq<char>, i: int) -> (Seq<char>, nat)
    decreases s.len() - i,
{
    if i < 0 || i >= s.len() {
        (seq![], 0)
    } else if is_task(s[i]) {
        let k = if i + 1 < s.len() && is_vs(s[i + 1]) {
            2int
        } else {
            1int
        };
        let r = replacement_from(s, i + k);
        (task_text(s[i]) + r.0, r.1 + 1)
    } else {
        let r = replacement_from(s, i + 1);
        (seq![s[i]] + r.0, r.1)
    }
}

/// Options for emoji transformation.
#[derive(Debug, Clone)]
pub struct EmojiOptions {
    /// Replace task completion emojis with text alternatives
    pub replace_task_emojis: bool,
    /// Remove all other emojis
    pub remove_other_emojis: bool,
    /// File extensions to process; empty matches every file
    pub file_extensions: Vec<String>,
    /// Process directories recursively
    pub recursive: bool,
    /// Dry run mode (don't modify files)
    pub dry_run: bool,
}

/// The extensions the emoji transformer handles by default.
pub open spec fn default_emoji_extensions() -> Seq<Seq<char>> {
    texts(
        seq![
            ".md", ".txt", ".rst", ".org", ".py", ".rs", ".go", ".java", ".js", ".ts", ".jsx",
            ".tsx", ".c", ".h", ".cpp", ".hpp",
        ],
    )
}

impl Default for EmojiOptions {
    fn default() -> (r: EmojiOptions)
        ensures
            r.replace_task_emojis,
            r.remove_other_emojis,
            strings_view(r.file_extensions@) == default_emoji_extensions(),
            r.recursive,
            !r.dry_run,
    {
        let list = [
            ".md", ".txt", ".rst", ".org", ".py", ".rs", ".go", ".java", ".js", ".ts", ".jsx",
            ".tsx", ".c", ".h", ".cpp", ".hpp",
        ];
        assert(list@ =~= seq![
            ".md", ".txt", ".rst", ".org", ".py", ".rs", ".go", ".java", ".js", ".ts", ".jsx",
            ".tsx", ".c", ".h", ".cpp", ".hpp",
        ]);
        EmojiOptions {
            replace_task_emojis: true,
            remove_other_emojis: true,
            file_extensions: strs(&list),
            recursive: true,
            dry_run: false,
        }
    }
}

/// What the transformer makes of `text`: task emoji replaced (when asked),
/// then decorative emoji removed (when asked); `None` when nothing
/// changed, else the new text and the number of matches (at least one).
pub open spec fn emoji_transform(o: EmojiOptions, text: Seq<char>) -> Option<(Seq<char>, usize)> {
    let t = if o.replace_task_emojis {
        replacement_from(text, 0)
    } else {
        (text, 0nat)
    };
    let g = if o.remove_other_emojis {
        removal_from(t.0, 0, !o.replace_task_emojis)
    } else {
        (t.0, 0nat)
    };
    if g.0 == text {
        None
    } else {
        let n = sat(t.1 + g.1);
        Some((g.0, if n == 0 { 1usize } else { n }))
    }
}

/// Removes and replaces emoji.
pub struct EmojiTransformer {
    options: EmojiOptions,
}

impl View for EmojiTransformer {
    type V = EmojiOptions;

    closed spec fn view(&self) -> EmojiOptions {
        self.options
    }
}

fn mods_len(s: &[char], i: usize) -> (r: usize)
    requires
        i <= s@.len(),
    ensures
        r == mods_at(s@, i as int),
        i + r <= s@.len(),
{
    let mut j: usize = i;
    while j < s.len() && is_modifier_char(s[j])
        invariant
            i <= j <= s@.len(),
            mods_at(s@, i as int) == (j - i) + mods_at(s@, j as int),
        decreases s.len() - j,
    {
        j += 1;
    }
    j - i
}

fn chain_len(s: &[char], i: usize, keep_tasks: bool) -> (r: usize)
    requires
        i <= s@.len(),
    ensures
        r == chain_at(s@, i as int, keep_tasks),
        i + r <= s@.len(),
{
    let mut j: usize = i;
    loop
        invariant
            i <= j <= s@.len(),
            chain_at(s@, i as int, keep_tasks) == (j - i) + chain_at(s@, j as int, keep_tasks),
        decreases s.len() - j,
    {
        if j < s.len() && s.len() - j > 1 && s[j] == '\u{200D}' && is_base_char(s[j + 1], keep_tasks) {
            let m = mods_len(s, j + 2);
            j = j + 2 + m;
        } else {
            return j - i;
        }
    }
}

fn sequence_len(s: &[char], i: usize, keep_tasks: bool) -> (r: usize)
    requires
        i < s@.len(),
    ensures
        r == sequence_at(s@, i as int, keep_tasks),
        i + r <= s@.len(),
{
    if is_base_char(s[i], keep_tasks) {
        let m = mods_len(s, i + 1);
        let c = chain_len(s, i + 1 + m, keep_tasks);
        1 + m + c
    } else {
        0
    }
}

fn keycap_len(s: &[char], i: usize) -> (r: usize)
    requires
        i < s@.len(),
    ensures
        r == keycap_at(s@, i as int),
{
    if s.len() - i > 1 && is_keycap_base_char(s[i]) {
        if s.len() - i > 2 && is_vs_char(s[i + 1]) && s[i + 2] == '\u{20E3}' {
            3
        } else if s[i + 1] == '\u{20E3}' {
            2
        } else {
            0
        }
    } else {
        0
    }
}

fn match_len(s: &[char], i: usize, keep_tasks: bool) -> (r: usize)
    requires
        i < s@.len(),
    ensures
        r == match_at(s@, i as int, keep_tasks),
        i + r <= s@.len(),
{
    proof {
        lemma_match_bound(s@, i as int, keep_tasks);
    }
    let k = keycap_len(s, i);
    if k > 0 {
        return k;
    }
    let q = sequence_len(s, i, keep_tasks);
    if q > 0 {
        return q;
    }
    if s[i] == '\u{200D}' || s[i] == '\u{20E3}' {
        1
    } else {
        0
    }
}

fn is_vs_char(c: char) -> (r: bool)
    ensures
        r == is_vs(c),
{
    '\u{FE00}' <= c && c <= '\u{FE0F}'
}

fn is_modifier_char(c: char) -> (r: bool)
    ensures
        r == is_modifier(c),
{
    ('\u{FE00}' <= c && c <= '\u{FE0F}') || ('\u{1F3FB}' <= c && c <= '\u{1F3FF}')
}

fn is_keycap_base_char(c: char) -> (r: bool)
    ensures
        r == is_keycap_base(c),
{
    ('0' <= c && c <= '9') || c == '#' || c == '*'
}

fn is_task_char(c: char) -> (r: bool)
    ensures
        r == is_task(c),
{
    c == '\u{2705}' || c == '\u{2611}' || c == '\u{2714}' || c == '\u{2713}' || c == '\u{2610}'
        || c == '\u{2612}' || c == '\u{274C}' || c == '\u{274E}' || c == '\u{26A0}' || c
        == '\u{26D4}' || c == '\u{2B50}' || c == '\u{1F7E0}' || c == '\u{1F7E1}' || c
        == '\u{1F7E8}' || c == '\u{1F7E2}' || c == '\u{1F534}' || c == '\u{1F4DD}' || c
        == '\u{1F4CB}' || c == '\u{1F4C4}' || c == '\u{1F4C5}' || c == '\u{1F4C6}' || c
        == '\u{1F5D3}' || c == '\u{1F4D1}' || c == '\u{1F4CC}' || c == '\u{1F4CD}' || c
        == '\u{1F4CE}'
}

fn is_base_char(c: char, keep_tasks: bool) -> (r: bool)
    ensures
        r == is_base(c, keep_tasks),
{
    let in_ranges = ('\u{1F300}' <= c && c <= '\u{1F5FF}') || ('\u{1F600}' <= c && c
        <= '\u{1F64F}') || ('\u{1F680}' <= c && c <= '\u{1F6FF}') || ('\u{1F900}' <= c && c
        <= '\u{1F9FF}') || ('\u{1FA00}' <= c && c <= '\u{1FAFF}') || c == '\u{1F004}' || c
        == '\u{1F0CF}' || c == '\u{1F18E}' || ('\u{1F191}' <= c && c <= '\u{1F19A}') || (
    '\u{1F1E0}' <= c && c <= '\u{1F1FF}') || ('\u{2600}' <= c && c <= '\u{265F}') || c
        == '\u{2668}' || ('\u{2670}' <= c && c <= '\u{26FF}') || ('\u{2700}' <= c && c
        <= '\u{27BF}');
    in_ranges && !(keep_tasks && is_task_char(c))
}

/// The text equivalent of a task emoji.
fn task_text_of(c: char) -> (r: &'static str)
    ensures
        r@ == task_text(c),
{
    if c == '\u{2705}' || c == '\u{2611}' || c == '\u{2714}' || c == '\u{2713}' {
        "[x]"
    } else if c == '\u{2610}' {
        "[ ]"
    } else if c == '\u{2612}' || c == '\u{274C}' || c == '\u{274E}' {
        "[X]"
    } else if c == '\u{26A0}' || c == '\u{26D4}' {
        "[!]"
    } else if c == '\u{2B50}' {
        "[+]"
    } else if c == '\u{1F7E0}' {
        "[orange]"
    } else if c == '\u{1F7E1}' || c == '\u{1F7E8}' {
        "[yellow]"
    } else if c == '\u{1F7E2}' {
        "[green]"
    } else if c == '\u{1F534}' {
        "[red]"
    } else if c == '\u{1F4DD}' {
        "[note]"
    } else if c == '\u{1F4CB}' {
        "[list]"
    } else if c == '\u{1F4C4}' {
        "[doc]"
    } else if c == '\u{1F4C5}' || c == '\u{1F4C6}' || c == '\u{1F5D3}' {
        "[cal]"
    } else if c == '\u{1F4D1}' {
        "[tab]"
    } else if c == '\u{1F4CC}' || c == '\u{1F4CD}' {
        "[pin]"
    } else if c == '\u{1F4CE}' {
        "[clip]"
    } else {
        proof {
            reveal_strlit("");
        }
        ""
    }
}

/// Replaces every task emoji of `s`.
fn replace_tasks(s: &[char]) -> (r: (Vec<char>, usize))
    ensures
        r.0@ == replacement_from(s@, 0).0,
        r.1 == sat(replacement_from(s@, 0).1),
{
    let mut out: Vec<char> = Vec::new();
    let mut count: usize = 0;
    let ghost mut p: nat = 0;
    let mut i: usize = 0;
    while i < s.len()
        invariant
            i <= s@.len(),
            replacement_from(s@, 0).0 == out@ + replacement_from(s@, i as int).0,
            replacement_from(s@, 0).1 == replacement_from(s@, i as int).1 + p,
            count == sat(p),
        decreases s.len() - i,
    {
        let c = s[i];
        if is_task_char(c) {
            let k: usize = if i + 1 < s.len() && is_vs_char(s[i + 1]) {
                2
            } else {
                1
            };
            let t = task_text_of(c);
            let tc = chars_of(t);
            let ghost before = out@;
            let mut j: usize = 0;
            while j < tc.len()
                invariant
                    j <= tc@.len(),
                    out@ == before + tc@.take(j as int),
                decreases tc.len() - j,
            {
                out.push(tc[j]);
                assert(tc@.take(j + 1) =~= tc@.take(j as int).push(tc@[j as int]));
                j += 1;
            }
            assert(tc@.take(tc@.len() as int) == tc@);
            assert(out@ + replacement_from(s@, i + k).0 =~= before + replacement_from(
                s@,
                i as int,
            ).0);
            count = count.saturating_add(1);
            proof {
                p = p + 1;
            }
            i = i + k;
        } else {
            let ghost before = out@;
            out.push(c);
            assert(out@ + replacement_from(s@, i + 1).0 =~= before + replacement_from(
                s@,
                i as int,
            ).0);
            i = i + 1;
        }
    }
    (out, count)
}

/// Removes every decorative emoji match of `s`.
fn remove_matches(s: &[char], keep_tasks: bool) -> (r: (Vec<char>, usize))
    ensures
        r.0@ == removal_from(s@, 0, keep_tasks).0,
        r.1 == sat(removal_from(s@, 0, keep_tasks).1),
{
    let mut out: Vec<char> = Vec::new();
    let mut count: usize = 0;
    let ghost mut p: nat = 0;
    let mut i: usize = 0;
    while i < s.len()
        invariant
            i <= s@.len(),
            removal_from(s@, 0, keep_tasks).0 == out@ + removal_from(s@, i as int, keep_tasks).0,
            removal_from(s@, 0, keep_tasks).1 == removal_from(s@, i as int, keep_tasks).1 + p,
            count == sat(p),
        decreases s.len() - i,
    {
        let k = match_len(s, i, keep_tasks);
        if k > 0 {
            count = count.saturating_add(1);
            proof {
                p = p + 1;
            }
            i = i + k;
        } else {
            let ghost before = out@;
            out.push(s[i]);
            assert(out@ + removal_from(s@, i + 1, keep_tasks).0 =~= before + removal_from(
                s@,
                i as int,
                keep_tasks,
            ).0);
            i = i + 1;
        }
    }
    (out, count)
}

impl EmojiTransformer {
    /// Creates a transformer with the given options.
    pub fn new(options: EmojiOptions) -> (r: EmojiTransformer)
        ensures
            r@ == options,
    {
        EmojiTransformer { options }
    }

    /// Creates a transformer with the default options.
    pub fn with_defaults() -> (r: EmojiTransformer)
        ensures
            r@.replace_task_emojis,
            r@.remove_other_emojis,
            strings_view(r@.file_extensions@) == default_emoji_extensions(),
            r@.recursive,
            !r@.dry_run,
    {
        EmojiTransformer { options: EmojiOptions::default() }
    }

    /// The options this transformer runs with.
    pub fn options(&self) -> (r: &EmojiOptions)
        ensures
            *r == self@,
    {
        &self.options
    }

    /// The text equivalent of a task emoji match (keyed on its first
    /// character); empty for anything else.
    pub fn replace_task_emoji(&self, matched: &str) -> (r: &'static str)
        ensures
            matched@.len() == 0 ==> r@.len() == 0,
            matched@.len() > 0 ==> r@ == task_text(matched@[0]),
    {
        let cs = chars_of(matched);
        if cs.len() == 0 {
            proof {
                reveal_strlit("");
            }
            return "";
        }
        task_text_of(cs[0])
    }
}

impl ContentStep for EmojiTransformer {
    open spec fn spec_accepts(&self, file: FileTarget) -> bool {
        accepted_by_extension(file, strings_view(self@.file_extensions@), self@.recursive)
    }

    open spec fn spec_transform(&self, text: Seq<char>, file: FileTarget) -> Option<(Seq<char>, usize)> {
        emoji_transform(self@, text)
    }

    open spec fn spec_name(&self) -> Seq<char> {
        "emojis"@
    }

    fn name(&self) -> (r: &'static str) {
        "emojis"
    }

    fn accepts(&self, file: &FileTarget) -> (r: bool) {
        accepts_by_extension(file, self.options.file_extensions.as_slice(), self.options.recursive)
    }

    fn transform(&self, text: &str, file: &FileTarget) -> (r: Option<(String, usize)>) {
        let cs = chars_of(text);
        let (t, n1) = if self.options.replace_task_emojis {
            replace_tasks(cs.as_slice())
        } else {
            (cs, 0usize)
        };
        let (g, n2) = if self.options.remove_other_emojis {
            remove_matches(t.as_slice(), !self.options.replace_task_emojis)
        } else {
            (t, 0usize)
        };
        let out = string_of(g.as_slice());
        if str_eq(out.as_str(), text) {
            return None;
        }
        let n = n1.saturating_add(n2);
        proof {
            let ghost o = self@;
            let ghost tt = if o.replace_task_emojis {
                replacement_from(text@, 0)
            } else {
                (text@, 0nat)
            };
            let ghost gg = if o.remove_other_emojis {
                removal_from(tt.0, 0, !o.replace_task_emojis)
            } else {
                (tt.0, 0nat)
            };
            assert(n == sat(tt.1 + gg.1));
        }
        Some((out, if n == 0 { 1 } else { n }))
    }

    fn transform_bytes(&self, bytes: &[u8], file: &FileTarget) -> (r: Option<(Vec<u8>, usize)>) {
        None
    }

    fn supports_bytes(&self) -> (r: bool) {
        false
    }

    fn describe(&self, units: usize, dry_run: bool) -> (r: String)
        ensures
            r@ == if dry_run {
                "Would transform "@ + decimal(units as nat) + " emoji(s) in"@
            } else {
                "Transformed "@ + decimal(units as nat) + " emoji(s) in"@
            },
    {
        let n = usize_text(units);
        if dry_run {
            concat3("Would transform ", n.as_str(), " emoji(s) in")
        } else {
            concat3("Transformed ", n.as_str(), " emoji(s) in")
        }
    }
}


/// No character of a task replacement text is itself a task emoji.
proof fn lemma_task_text_plain(c: char)
    ensures
        forall|j: int| 0 <= j < task_text(c).len() ==> !is_task(#[trigger] task_text(c)[j]),
{
    reveal_strlit("[x]");
    reveal_strlit("[ ]");
    reveal_strlit("[X]");
    reveal_strlit("[!]");
    reveal_strlit("[+]");
    reveal_strlit("[orange]");
    reveal_strlit("[yellow]");
    reveal_strlit("[green]");
    reveal_strlit("[red]");
    reveal_strlit("[note]");
    reveal_strlit("[list]");
    reveal_strlit("[doc]");
    reveal_strlit("[cal]");
    reveal_strlit("[tab]");
    reveal_strlit("[pin]");
    reveal_strlit("[clip]");
}

/// Task replacement leaves no task emoji behind.
proof fn lemma_replacement_leaves_no_task(s: Seq<char>, i: int)
    requires
        0 <= i,
    ensures
        forall|j: int|
            0 <= j < replacement_from(s, i).0.len() ==> !is_task(
                #[trigger] replacement_from(s, i).0[j],
            ),
    decreases s.len() - i,
{
    if i < s.len() {
        if is_task(s[i]) {
            let k = if i + 1 < s.len() && is_vs(s[i + 1]) {
                2int
            } else {
                1int
            };
            lemma_replacement_leaves_no_task(s, i + k);
            lemma_task_text_plain(s[i]);
            let r = replacement_from(s, i + k);
            assert forall|j: int|
                0 <= j < (task_text(s[i]) + r.0).len() implies !is_task(
                #[trigger] (task_text(s[i]) + r.0)[j],
            ) by {
                if j >= task_text(s[i]).len() {
                    assert((task_text(s[i]) + r.0)[j] == r.0[j - task_text(s[i]).len()]);
                }
            }
        } else {
            lemma_replacement_leaves_no_task(s, i + 1);
            let r = replacement_from(s, i + 1);
            assert forall|j: int|
                0 <= j < (seq![s[i]] + r.0).len() implies !is_task(
                #[trigger] (seq![s[i]] + r.0)[j],
            ) by {
                if j >= 1 {
                    assert((seq![s[i]] + r.0)[j] == r.0[j - 1]);
                }
            }
        }
    }
}

/// Without task emoji, task replacement changes nothing.
proof fn lemma_replacement_identity(s: Seq<char>, i: int)
    requires
        0 <= i <= s.len(),
        forall|k: int| i <= k < s.len() ==> !is_task(#[trigger] s[k]),
    ensures
        replacement_from(s, i) == (s.skip(i), 0nat),
    decreases s.len() - i,
{
    if i < s.len() {
        lemma_replacement_identity(s, i + 1);
        assert(seq![s[i]] + s.skip(i + 1) =~= s.skip(i));
    } else {
        assert(s.skip(i) =~= Seq::<char>::empty());
    }
}

/// What removal keeps is never a joiner, a keycap mark or a base emoji,
/// and was already in the text.
proof fn lemma_removal_leaves_no_emoji(s: Seq<char>, i: int, keep_tasks: bool)
    requires
        0 <= i,
    ensures
        forall|j: int|
            #![trigger removal_from(s, i, keep_tasks).0[j]]
            0 <= j < removal_from(s, i, keep_tasks).0.len() ==> {
                let c = removal_from(s, i, keep_tasks).0[j];
                &&& c != zwj()
                &&& c != keycap_mark()
                &&& !is_base(c, keep_tasks)
                &&& exists|k: int| i <= k < s.len() && s[k] == c
            },
    decreases s.len() - i,
{
    if i < s.len() {
        lemma_match_bound(s, i, keep_tasks);
        let k = match_at(s, i, keep_tasks);
        if k > 0 {
            lemma_removal_leaves_no_emoji(s, i + k, keep_tasks);
            let r = removal_from(s, i + k, keep_tasks);
            assert forall|j: int| 0 <= j < r.0.len() implies exists|kk: int|
                i <= kk < s.len() && s[kk] == #[trigger] r.0[j] by {
                let kk = choose|kk: int| i + k <= kk < s.len() && s[kk] == r.0[j];
            }
        } else {
            lemma_removal_leaves_no_emoji(s, i + 1, keep_tasks);
            let r = removal_from(s, i + 1, keep_tasks);
            let out = seq![s[i]] + r.0;
            assert forall|j: int| #![trigger out[j]] 0 <= j < out.len() implies {
                let c = out[j];
                &&& c != zwj()
                &&& c != keycap_mark()
                &&& !is_base(c, keep_tasks)
                &&& exists|kk: int| i <= kk < s.len() && s[kk] == c
            } by {
                if j >= 1 {
                    assert(out[j] == r.0[j - 1]);
                    let kk = choose|kk: int| i + 1 <= kk < s.len() && s[kk] == r.0[j - 1];
                } else {
                    assert(out[j] == s[i]);
                    assert(sequence_at(s, i, keep_tasks) == 0);
                }
            }
        }
    }
}

/// Without joiners, keycap marks and base emoji, removal changes nothing.
proof fn lemma_removal_identity(s: Seq<char>, i: int, keep_tasks: bool)
    requires
        0 <= i <= s.len(),
        forall|k: int|
            i <= k < s.len() ==> #[trigger] s[k] != zwj() && s[k] != keycap_mark() && !is_base(
                s[k],
                keep_tasks,
            ),
    ensures
        removal_from(s, i, keep_tasks) == (s.skip(i), 0nat),
    decreases s.len() - i,
{
    if i < s.len() {
        if i + 1 < s.len() {
            assert(s[i + 1] != keycap_mark());
        }
        if i + 2 < s.len() {
            assert(s[i + 2] != keycap_mark());
        }
        assert(match_at(s, i, keep_tasks) == 0);
        lemma_removal_identity(s, i + 1, keep_tasks);
        assert(seq![s[i]] + s.skip(i + 1) =~= s.skip(i));
    } else {
        assert(s.skip(i) =~= Seq::<char>::empty());
    }
}

/// Transforming a second time changes nothing: what the transformer
/// leaves behind holds no task emoji it would replace and no emoji it
/// would remove.
pub proof fn lemma_emoji_transform_settles(o: EmojiOptions, text: Seq<char>)
    ensures
        emoji_transform(o, text) matches Some((t, n)) ==> emoji_transform(o, t) is None,
{
    let keep = !o.replace_task_emojis;
    let t1 = if o.replace_task_emojis {
        replacement_from(text, 0).0
    } else {
        text
    };
    let out = if o.remove_other_emojis {
        removal_from(t1, 0, keep).0
    } else {
        t1
    };
    if o.replace_task_emojis {
        lemma_replacement_leaves_no_task(text, 0);
    }
    if o.remove_other_emojis {
        lemma_removal_leaves_no_emoji(t1, 0, keep);
    }
    if o.replace_task_emojis {
        assert forall|k: int| 0 <= k < out.len() implies !is_task(#[trigger] out[k]) by {
            if o.remove_other_emojis {
                let kk = choose|kk: int| 0 <= kk < t1.len() && t1[kk] == out[k];
            }
        }
        lemma_replacement_identity(out, 0);
        assert(out.skip(0) =~= out);
    }
    if o.remove_other_emojis {
        lemma_removal_identity(out, 0, keep);
        assert(out.skip(0) =~= out);
    }
}

} // verus!

verus! {

/// Task replacement from position `j` of `s` reads only `s` from `j`
/// on: text in front of it changes nothing.
proof fn lemma_replacement_shift(p: Seq<char>, s: Seq<char>, j: int)
    requires
        0 <= j,
    ensures
        replacement_from(p + s, p.len() + j) == replacement_from(s, j),
    decreases s.len() - j,
{
    let ps = p + s;
    if j < s.len() {
        assert(ps[p.len() + j] == s[j]);
        if j + 1 < s.len() {
            assert(ps[p.len() + j + 1] == s[j + 1]);
        }
        lemma_replacement_shift(p, s, j + 1);
        if j + 2 <= s.len() {
            lemma_replacement_shift(p, s, j + 2);
        }
    }
}

/// Task replacement of two texts written one after the other is the two
/// replacements one after the other, unless the first ends with a task
/// emoji and the second begins with the variation selector it would take.
proof fn lemma_replacement_concat(x: Seq<char>, y: Seq<char>, i: int)
    requires
        0 <= i <= x.len(),
        !(x.len() > 0 && is_task(x.last()) && y.len() > 0 && is_vs(y[0])),
    ensures
        replacement_from(x + y, i) == (
            replacement_from(x, i).0 + replacement_from(y, 0).0,
            replacement_from(x, i).1 + replacement_from(y, 0).1,
        ),
    decreases x.len() - i,
{
    let xy = x + y;
    if i == x.len() {
        lemma_replacement_shift(x, y, 0);
        assert(replacement_from(x, i) == (Seq::<char>::empty(), 0nat));
        assert(Seq::<char>::empty() + replacement_from(y, 0).0 =~= replacement_from(y, 0).0);
    } else {
        assert(xy[i] == x[i]);
        if i + 1 < x.len() {
            assert(xy[i + 1] == x[i + 1]);
        }
        if i + 1 == x.len() && y.len() > 0 {
            assert(xy[i + 1] == y[0]);
            assert(x.last() == x[i]);
        }
        if is_task(x[i]) {
            let k = if i + 1 < x.len() && is_vs(x[i + 1]) { 2int } else { 1int };
            lemma_replacement_concat(x, y, i + k);
            let r = replacement_from(x, i + k);
            assert(task_text(x[i]) + r.0 + replacement_from(y, 0).0 =~= task_text(x[i]) + (r.0
                + replacement_from(y, 0).0));
        } else {
            lemma_replacement_concat(x, y, i + 1);
            let r = replacement_from(x, i + 1);
            assert(seq![x[i]] + r.0 + replacement_from(y, 0).0 =~= seq![x[i]] + (r.0
                + replacement_from(y, 0).0));
        }
    }
}

/// A check mark: ✅ (U+2705), ☑ (U+2611), ✔ (U+2714) or ✓ (U+2713).
pub open spec fn is_check_mark(c: char) -> bool {
    c == '\u{2705}' || c == '\u{2611}' || c == '\u{2714}' || c == '\u{2713}'
}

/// A crossed mark: ☒ (U+2612), ❌ (U+274C) or ❎ (U+274E).
pub open spec fn is_cross_mark(c: char) -> bool {
    c == '\u{2612}' || c == '\u{274C}' || c == '\u{274E}'
}

/// Task replacement writes every check mark as the checked box `[x]`, the
/// empty ballot box ☐ (U+2610) as the unchecked box `[ ]`, and every
/// crossed mark as `[X]`, each in place: the text around it is replaced
/// on its own, and the mark counts as one replacement. (A variation
/// selector right after a mark belongs to the mark, so the text after it
/// must not begin with one.)
pub proof fn lemma_task_marks_become_boxes(a: Seq<char>, c: char, b: Seq<char>)
    requires
        is_check_mark(c) || c == '\u{2610}' || is_cross_mark(c),
        !(b.len() > 0 && is_vs(b[0])),
    ensures
        replacement_from(a + seq![c] + b, 0) == (
            replacement_from(a, 0).0 + (if is_check_mark(c) {
                "[x]"@
            } else if c == '\u{2610}' {
                "[ ]"@
            } else {
                "[X]"@
            }) + replacement_from(b, 0).0,
            replacement_from(a, 0).1 + 1 + replacement_from(b, 0).1,
        ),
{
    lemma_task_in_place(a, c, b);
}


/// A task or status emoji not followed by a variation selector is replaced
/// by its text in place, counted as one replacement.
proof fn lemma_task_in_place(a: Seq<char>, c: char, b: Seq<char>)
    requires
        is_task(c),
        !(b.len() > 0 && is_vs(b[0])),
    ensures
        replacement_from(a + seq![c] + b, 0) == (
            replacement_from(a, 0).0 + task_text(c) + replacement_from(b, 0).0,
            replacement_from(a, 0).1 + 1 + replacement_from(b, 0).1,
        ),
{
    let m = seq![c];
    assert(m.last() == c);
    lemma_replacement_concat(a + m, b, 0);
    lemma_replacement_concat(a, m, 0);
    assert(m[0] == c);
    assert(replacement_from(m, 1) == (Seq::<char>::empty(), 0nat));
    assert(replacement_from(m, 0) == (task_text(c) + Seq::<char>::empty(), 1nat));
    assert(task_text(c) + Seq::<char>::empty() =~= task_text(c));
}

/// Task replacement writes the warning signs ⚠ (U+26A0) and ⛔ (U+26D4) as
/// `[!]`, the star ⭐ (U+2B50) as `[+]`, each coloured circle or square as
/// its colour's name in brackets, and each document, calendar and pin
/// symbol as its short name in brackets, in place, as one replacement.
pub proof fn lemma_status_emoji_labels(a: Seq<char>, c: char, b: Seq<char>)
    requires
        is_task(c),
        !(b.len() > 0 && is_vs(b[0])),
    ensures
        ({
            let r = replacement_from(a + seq![c] + b, 0);
            let ra = replacement_from(a, 0);
            let rb = replacement_from(b, 0);
            &&& r.1 == ra.1 + 1 + rb.1
            &&& (c == '\u{26A0}' || c == '\u{26D4}') ==> r.0 == ra.0 + "[!]"@ + rb.0
            &&& c == '\u{2B50}' ==> r.0 == ra.0 + "[+]"@ + rb.0
            &&& c == '\u{1F7E0}' ==> r.0 == ra.0 + "[orange]"@ + rb.0
            &&& (c == '\u{1F7E1}' || c == '\u{1F7E8}') ==> r.0 == ra.0 + "[yellow]"@ + rb.0
            &&& c == '\u{1F7E2}' ==> r.0 == ra.0 + "[green]"@ + rb.0
            &&& c == '\u{1F534}' ==> r.0 == ra.0 + "[red]"@ + rb.0
            &&& c == '\u{1F4DD}' ==> r.0 == ra.0 + "[note]"@ + rb.0
            &&& c == '\u{1F4CB}' ==> r.0 == ra.0 + "[list]"@ + rb.0
            &&& c == '\u{1F4C4}' ==> r.0 == ra.0 + "[doc]"@ + rb.0
            &&& (c == '\u{1F4C5}' || c == '\u{1F4C6}' || c == '\u{1F5D3}') ==> r.0 == ra.0
                + "[cal]"@ + rb.0
            &&& c == '\u{1F4D1}' ==> r.0 == ra.0 + "[tab]"@ + rb.0
            &&& (c == '\u{1F4CC}' || c == '\u{1F4CD}') ==> r.0 == ra.0 + "[pin]"@ + rb.0
            &&& c == '\u{1F4CE}' ==> r.0 == ra.0 + "[clip]"@ + rb.0
        }),
{
    lemma_task_in_place(a, c, b);
}


/// Text free of emoji: no joiner, no keycap mark and no base emoji.
pub open spec fn emoji_free(s: Seq<char>, keep_tasks: bool) -> bool {
    forall|k: int|
        0 <= k < s.len() ==> #[trigger] s[k] != zwj() && s[k] != keycap_mark() && !is_base(
            s[k],
            keep_tasks,
        )
}

proof fn lemma_lone_emoji_from(a: Seq<char>, c: char, b: Seq<char>, keep_tasks: bool, i: int)
    requires
        0 <= i <= a.len(),
        emoji_free(a, keep_tasks),
        emoji_free(b, keep_tasks),
        is_base(c, keep_tasks),
        !(b.len() > 0 && is_modifier(b[0])),
    ensures
        removal_from(a + seq![c] + b, i, keep_tasks) == (a.skip(i) + b, 1nat),
    decreases a.len() - i,
{
    let s = a + seq![c] + b;
    let n = a.len() as int;
    assert(s[n] == c);
    assert forall|k: int| n + 1 <= k < s.len() implies #[trigger] s[k] != zwj() && s[k]
        != keycap_mark() && !is_base(s[k], keep_tasks) by {
        assert(s[k] == b[k - n - 1]);
    }
    if i == n {
        if n + 1 < s.len() {
            assert(s[n + 1] == b[0]);
        }
        assert(mods_at(s, n + 1) == 0);
        assert(chain_at(s, n + 1, keep_tasks) == 0);
        assert(keycap_at(s, n) == 0);
        assert(match_at(s, n, keep_tasks) == 1);
        lemma_removal_identity(s, n + 1, keep_tasks);
        assert(s.skip(n + 1) =~= b);
        assert(a.skip(n) + b =~= b);
    } else {
        assert(s[i] == a[i]);
        if i + 1 < s.len() {
            assert(s[i + 1] != keycap_mark()) by {
                if i + 1 < n {
                    assert(s[i + 1] == a[i + 1]);
                }
            }
        }
        if i + 2 < s.len() {
            assert(s[i + 2] != keycap_mark()) by {
                if i + 2 < n {
                    assert(s[i + 2] == a[i + 2]);
                }
            }
        }
        assert(match_at(s, i, keep_tasks) == 0);
        lemma_lone_emoji_from(a, c, b, keep_tasks, i + 1);
        assert(seq![s[i]] + (a.skip(i + 1) + b) =~= a.skip(i) + b);
    }
}

/// A decorative emoji standing alone in text free of emoji, with no
/// modifier after it, is removed, and the text around it is kept as it
/// is: one removal.
pub proof fn lemma_lone_emoji_removed(a: Seq<char>, c: char, b: Seq<char>, keep_tasks: bool)
    requires
        emoji_free(a, keep_tasks),
        emoji_free(b, keep_tasks),
        is_base(c, keep_tasks),
        !(b.len() > 0 && is_modifier(b[0])),
    ensures
        removal_from(a + seq![c] + b, 0, keep_tasks) == (a + b, 1nat),
        removal_from(a + b, 0, keep_tasks) == (a + b, 0nat),
{
    lemma_lone_emoji_from(a, c, b, keep_tasks, 0);
    assert(a.skip(0) =~= a);
    let t = a + b;
    assert forall|k: int| 0 <= k < t.len() implies #[trigger] t[k] != zwj() && t[k]
        != keycap_mark() && !is_base(t[k], keep_tasks) by {
        if k < a.len() {
            assert(t[k] == a[k]);
        } else {
            assert(t[k] == b[k - a.len()]);
        }
    }
    lemma_removal_identity(t, 0, keep_tasks);
    assert(t.skip(0) =~= t);
}

} // verus!
