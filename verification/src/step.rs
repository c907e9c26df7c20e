//! Content transformations as composable steps, and the pure part of the
//! runner that applies them: which steps accept a file, and what a sequence
//! of steps makes of its contents. A step maps text to text and never
//! touches the filesystem.

use vstd::prelude::*;
use vstd::utf8::{decode_utf8, encode_utf8, valid_utf8};
use crate::path::{extension_of, file_name_of, parent_of, path_extension, path_file_name, path_parent};
use crate::text::{ascii_lower, eq_ignore_ascii_case, chars_of, owned, texts, to_ascii_lower, TextLike};
use crate::walk::{excluded_name, is_excluded_component, DEFAULT_SKIP_DIRS};
use crate::whitespace::sat;

verus! {

broadcast use vstd::utf8::group_utf8_lib;

/// A file offered to the runner.
#[derive(Debug, Clone)]
pub struct FileTarget {
    /// Path of the file.
    pub path: String,
    /// The path the user named, from which this file was reached.
    pub root: String,
    /// 0 for a file named directly, 1 for a direct child of `root`, and so on.
    pub depth: usize,
}

impl FileTarget {
    /// A target for a file named directly: its root is the file's parent
    /// directory (`.` when it has none) and its depth is 0.
    pub fn file(path: &str) -> (r: FileTarget)
        ensures
            r.path@ == path@,
            r.depth == 0,
            r.root@ == match parent_of(path@) {
                Some(p) => p,
                None => seq!['.'],
            },
    {
        let root = match path_parent(path) {
            Some(p) => p,
            None => {
                proof {
                    reveal_strlit(".");
                    assert("."@ =~= seq!['.']);
                }
                owned(".")
            },
        };
        FileTarget { path: owned(path), root, depth: 0 }
    }
}

/// A text transformation that can be composed with others.
///
/// `spec_accepts` and `spec_transform` say what `accepts` and `transform`
/// answer; the runner's contract is stated over them.
pub trait ContentStep {
    /// Which files the step accepts. A step that states nothing of it
    /// accepts none.
    open spec fn spec_accepts(&self, file: FileTarget) -> bool {
        false
    }

    /// What the step makes of a text. A step that states nothing of it
    /// changes no text.
    open spec fn spec_transform(&self, text: Seq<char>, file: FileTarget) -> Option<(Seq<char>, usize)> {
        None
    }

    /// The step's name. A step that states nothing of it has an empty one.
    open spec fn spec_name(&self) -> Seq<char> {
        seq![]
    }

    /// Step name as used in presets, e.g. `"clean"`.
    fn name(&self) -> (r: &'static str)
        ensures
            r@ == self.spec_name(),
    ;

    /// Whether this step applies to `file`. Checked before the file is read.
    fn accepts(&self, file: &FileTarget) -> (r: bool)
        ensures
            r == self.spec_accepts(*file),
    ;

    /// Returns the new text and a step-specific change count, or `None` if
    /// the text is unchanged.
    fn transform(&self, text: &str, file: &FileTarget) -> (r: Option<(String, usize)>)
        ensures
            match r {
                Some((s, n)) => self.spec_transform(text@, *file) == Some((s@, n)),
                None => self.spec_transform(text@, *file) is None,
            },
    ;

    /// Whether the step works on content that is not valid UTF-8. A step
    /// that states nothing of it does not.
    open spec fn spec_supports_bytes(&self) -> bool {
        false
    }

    /// What the step makes of content that is not valid UTF-8. A step that
    /// states nothing of it changes no such content.
    open spec fn spec_transform_bytes(&self, bytes: Seq<u8>, file: FileTarget) -> Option<(Seq<u8>, usize)> {
        None
    }

    /// As [`ContentStep::transform`], for content that is not valid UTF-8.
    /// Steps that cannot work on raw bytes return `None` here and `false`
    /// from [`ContentStep::supports_bytes`].
    fn transform_bytes(&self, bytes: &[u8], file: &FileTarget) -> (r: Option<(Vec<u8>, usize)>)
        ensures
            match r {
                Some((b, n)) => self.spec_transform_bytes(bytes@, *file) == Some((b@, n)),
                None => self.spec_transform_bytes(bytes@, *file) is None,
            },
    ;

    /// Whether [`ContentStep::transform_bytes`] is implemented.
    fn supports_bytes(&self) -> (r: bool)
        ensures
            r == self.spec_supports_bytes(),
    ;

    /// One log line describing `units` changes to a file, e.g.
    /// `"Cleaned 2 lines in"`. The runner appends the path.
    fn describe(&self, units: usize, dry_run: bool) -> String;
}

/// Totals for one step across a run.
#[derive(Debug, Clone, Default, PartialEq, Eq)]
pub struct StepTotals {
    /// Step name.
    pub name: &'static str,
    /// Files this step changed.
    pub files: usize,
    /// Step-specific change count (lines, replacements, endings).
    pub units: usize,
}

/// Outcome of a run over many files.
#[derive(Debug, Clone, Default)]
pub struct RunReport {
    /// Per-step totals, in step order.
    pub steps: Vec<StepTotals>,
    /// Files changed by at least one step.
    pub files_changed: usize,
    /// One message per file that could not be read or written.
    pub errors: Vec<String>,
}

/// `s` without its leading dots.
pub open spec fn trim_dots(s: Seq<char>) -> Seq<char>
    decreases s.len(),
{
    if s.len() > 0 && s[0] == '.' {
        trim_dots(s.drop_first())
    } else {
        s
    }
}

/// Whether a path with this extension matches the list: an empty list
/// matches everything; otherwise some entry, without its leading dots,
/// equals the extension ignoring ASCII case.
pub open spec fn ext_matches(path: Seq<char>, exts: Seq<Seq<char>>) -> bool {
    exts.len() == 0 || (extension_of(path) is Some && exists|i: int|
        0 <= i < exts.len() && #[trigger] eq_ignore_ascii_case(
            trim_dots(exts[i]),
            extension_of(path)->0,
        ))
}

proof fn lemma_trim_dots(s: Seq<char>, k: int)
    requires
        0 <= k <= s.len(),
        forall|j: int| 0 <= j < k ==> s[j] == '.',
        k == s.len() || s[k] != '.',
    ensures
        trim_dots(s) == s.skip(k),
    decreases k,
{
    if k == 0 {
        assert(s.skip(0) == s);
    } else {
        let t = s.drop_first();
        assert forall|j: int| 0 <= j < k - 1 implies t[j] == '.' by {
            assert(t[j] == s[j + 1]);
        }
        if k < s.len() {
            assert(t[k - 1] == s[k]);
        }
        lemma_trim_dots(t, k - 1);
        assert(t.skip(k - 1) == s.skip(k));
    }
}

/// Whether `a`, without its leading dots, equals `b` ignoring ASCII case.
fn eq_trimmed_ignore_case(a: &str, b: &[char]) -> (r: bool)
    ensures
        r == eq_ignore_ascii_case(trim_dots(a@), b@),
{
    let x = chars_of(a);
    let mut k: usize = 0;
    while k < x.len() && x[k] == '.'
        invariant
            k <= x@.len(),
            forall|j: int| 0 <= j < k ==> x@[j] == '.',
        decreases x.len() - k,
    {
        k += 1;
    }
    proof {
        lemma_trim_dots(x@, k as int);
    }
    let ghost t = x@.skip(k as int);
    if x.len() - k != b.len() {
        return false;
    }
    let mut i: usize = 0;
    while i < b.len()
        invariant
            i <= b@.len(),
            k + b@.len() == x@.len(),
            t == x@.skip(k as int),
            x@ == a@,
            x@.len() == x.len(),
            trim_dots(a@) == t,
            forall|j: int| 0 <= j < i ==> ascii_lower(t[j]) == ascii_lower(b@[j]),
        decreases b.len() - i,
    {
        assert(t[i as int] == x@[k + i]);
        if to_ascii_lower(x[k + i]) != to_ascii_lower(b[i]) {
            return false;
        }
        i += 1;
    }
    true
}

/// Returns true if `path` has one of `extensions`.
///
/// Matching ignores case and leading dots, so `py`, `.py` and `.PY` are
/// equivalent. An empty list matches every file.
pub fn matches_extension<S: TextLike>(path: &str, extensions: &[S]) -> (r: bool)
    ensures
        r == ext_matches(path@, texts(extensions@)),
{
    if extensions.len() == 0 {
        return true;
    }
    let ext = match path_extension(path) {
        Some(e) => e,
        None => return false,
    };
    let e = chars_of(ext.as_str());
    let mut i: usize = 0;
    while i < extensions.len()
        invariant
            i <= extensions@.len(),
            extension_of(path@) == Some(e@),
            forall|j: int|
                0 <= j < i ==> !#[trigger] eq_ignore_ascii_case(
                    trim_dots(texts(extensions@)[j]),
                    e@,
                ),
        decreases extensions.len() - i,
    {
        if eq_trimmed_ignore_case(extensions[i].as_text(), &e) {
            let ghost ex = texts(extensions@);
            assert(eq_ignore_ascii_case(trim_dots(ex[i as int]), e@));
            assert(extension_of(path@) == Some(e@));
            assert(exists|j: int| 0 <= j < ex.len() && #[trigger] eq_ignore_ascii_case(trim_dots(ex[j]), e@));
            assert(ex.len() == extensions@.len());
            assert(extension_of(path@)->0 == e@);
            assert(extension_of(path@) is Some);
            assert(eq_ignore_ascii_case(trim_dots(ex[i as int]), extension_of(path@)->0));
            assert(ex.len() != 0);
            assert(ext_matches(path@, ex));
            return true;
        }
        i += 1;
    }
    false
}

/// True if a non-recursive step may process `file`.
pub fn within_depth(file: &FileTarget, recursive: bool) -> (r: bool)
    ensures
        r == (recursive || file.depth <= 1),
{
    recursive || file.depth <= 1
}

/// The shared acceptance test of the extension-filtered transformers.
pub open spec fn accepted_by_extension(file: FileTarget, exts: Seq<Seq<char>>, recursive: bool) -> bool {
    (recursive || file.depth <= 1) && ext_matches(file.path@, exts)
}

/// Shared acceptance test for the extension-filtered transformers. Hidden
/// names are not checked here: which files to offer is the caller's choice.
pub fn accepts_by_extension<S: TextLike>(file: &FileTarget, extensions: &[S], recursive: bool) -> (r: bool)
    ensures
        r == accepted_by_extension(*file, texts(extensions@), recursive),
{
    within_depth(file, recursive) && matches_extension(file.path.as_str(), extensions)
}

/// The skip list as a sequence of strings.
pub open spec fn default_skip_dirs() -> Seq<Seq<char>> {
    texts(DEFAULT_SKIP_DIRS@)
}

/// True if the per-transformer file methods skip `path`: it has no file
/// name, or its name is hidden or a build directory name.
pub fn skipped_by_name(path: &str) -> (r: bool)
    ensures
        r == match file_name_of(path@) {
            Some(n) => excluded_name(n, default_skip_dirs()),
            None => true,
        },
{
    match path_file_name(path) {
        Some(n) => is_excluded_component(n.as_str(), &DEFAULT_SKIP_DIRS),
        None => true,
    }
}

/// Calls `std::str::from_utf8`, which succeeds exactly on valid UTF-8 and
/// then yields the decoded characters.
#[verifier::external_body]
fn utf8_str(b: &[u8]) -> (r: Option<&str>)
    ensures
        r is Some <==> valid_utf8(b@),
        r matches Some(s) ==> s@ == decode_utf8(b@),
{
    std::str::from_utf8(b).ok()
}

/// The UTF-8 encoding of `s`.
pub fn bytes_of(s: &str) -> (r: Vec<u8>)
    ensures
        r@ == encode_utf8(s@),
{
    let b = s.as_bytes();
    let mut out: Vec<u8> = Vec::new();
    let mut i: usize = 0;
    while i < b.len()
        invariant
            i <= b@.len(),
            out@ == b@.take(i as int),
        decreases b.len() - i,
    {
        out.push(b[i]);
        assert(b@.take(i + 1) == b@.take(i as int).push(b@[i as int]));
        i += 1;
    }
    assert(b@.take(b@.len() as int) == b@);
    out
}

/// Whether the two byte strings are equal.
pub fn bytes_eq(a: &[u8], b: &[u8]) -> (r: bool)
    ensures
        r == (a@ == b@),
{
    if a.len() != b.len() {
        return false;
    }
    let mut i: usize = 0;
    while i < a.len()
        invariant
            i <= a@.len(),
            a@.len() == b@.len(),
            forall|j: int| 0 <= j < i ==> a@[j] == b@[j],
        decreases a.len() - i,
    {
        if a[i] != b[i] {
            return false;
        }
        i += 1;
    }
    assert(a@ =~= b@);
    true
}

/// Whether `b` holds a NUL byte, the mark of a binary file.
pub open spec fn is_binary(b: Seq<u8>) -> bool {
    b.contains(0u8)
}

/// The text and per-step change counts after offering `text` to the first
/// `k` steps in order. A step that accepts `file` and changes the text
/// replaces it and records its count; the others leave both alone.
pub open spec fn fold_steps(
    steps: Seq<&dyn ContentStep>,
    file: FileTarget,
    text: Seq<char>,
    k: nat,
) -> (Seq<char>, Seq<usize>)
    decreases k,
{
    if k == 0 || k > steps.len() {
        (text, Seq::new(steps.len(), |i: int| 0usize))
    } else {
        let prev = fold_steps(steps, file, text, (k - 1) as nat);
        let st = steps[k - 1];
        match st.spec_transform(prev.0, file) {
            Some((next, n)) => if st.spec_accepts(file) && next != prev.0 {
                (next, prev.1.update(k - 1, n))
            } else {
                prev
            },
            None => prev,
        }
    }
}

proof fn lemma_fold_len(steps: Seq<&dyn ContentStep>, file: FileTarget, text: Seq<char>, k: nat)
    ensures
        fold_steps(steps, file, text, k).1.len() == steps.len(),
    decreases k,
{
    if k > 0 && k <= steps.len() {
        lemma_fold_len(steps, file, text, (k - 1) as nat);
    }
}

/// What step `k` makes of content: valid UTF-8 goes through its text
/// transformation, other content through its byte transformation if it
/// has one.
pub open spec fn step_on_bytes(steps: Seq<&dyn ContentStep>, k: int, file: FileTarget, b: Seq<u8>) -> Option<(Seq<u8>, usize)> {
    if valid_utf8(b) {
        match steps[k].spec_transform(decode_utf8(b), file) {
            Some((t, n)) => Some((encode_utf8(t), n)),
            None => None,
        }
    } else if steps[k].spec_supports_bytes() {
        steps[k].spec_transform_bytes(b, file)
    } else {
        None
    }
}

/// The content and per-step change counts after offering `b` to the
/// first `k` steps in order, as [`fold_steps`] does for text, whatever the
/// content holds.
pub open spec fn fold_bytes(
    steps: Seq<&dyn ContentStep>,
    file: FileTarget,
    b: Seq<u8>,
    k: nat,
) -> (Seq<u8>, Seq<usize>)
    decreases k,
{
    if k == 0 || k > steps.len() {
        (b, Seq::new(steps.len(), |i: int| 0usize))
    } else {
        let prev = fold_bytes(steps, file, b, (k - 1) as nat);
        let st = steps[k - 1];
        if st.spec_accepts(file) {
            match step_on_bytes(steps, k - 1, file, prev.0) {
                Some((next, n)) => if next != prev.0 {
                    (next, prev.1.update(k - 1, n))
                } else {
                    prev
                },
                None => prev,
            }
        } else {
            prev
        }
    }
}

/// On valid UTF-8 the two folds agree: the bytes stay the encoding of the
/// text.
proof fn lemma_fold_bytes_text(steps: Seq<&dyn ContentStep>, file: FileTarget, b: Seq<u8>, k: nat)
    requires
        valid_utf8(b),
    ensures
        fold_bytes(steps, file, b, k).0 == encode_utf8(fold_steps(steps, file, decode_utf8(b), k).0),
        fold_bytes(steps, file, b, k).1 == fold_steps(steps, file, decode_utf8(b), k).1,
    decreases k,
{
    if k > 0 && k <= steps.len() {
        lemma_fold_bytes_text(steps, file, b, (k - 1) as nat);
        let pc = fold_steps(steps, file, decode_utf8(b), (k - 1) as nat);
        let pb = fold_bytes(steps, file, b, (k - 1) as nat);
        assert(valid_utf8(pb.0));
        assert(decode_utf8(pb.0) == pc.0);
        match steps[k - 1].spec_transform(pc.0, file) {
            Some((t, n)) => {
                assert(decode_utf8(encode_utf8(t)) == t);
                assert((encode_utf8(t) != pb.0) == (t != pc.0));
            },
            None => {},
        }
    } else {
        assert(encode_utf8(decode_utf8(b)) == b);
    }
}

/// Applies the steps that accept `file` to `input`, in order. `None` if the
/// input is binary (holds a NUL byte) or nothing changed. Content that is
/// not valid UTF-8 is offered only to steps that work on raw bytes.
pub fn transform_active(
    steps: &[&dyn ContentStep],
    file: &FileTarget,
    input: &[u8],
) -> (r: Option<(Vec<u8>, Vec<usize>)>)
    ensures
        is_binary(input@) ==> r is None,
        !is_binary(input@) ==> ({
            let f = fold_bytes(steps@, *file, input@, steps@.len());
            if f.0 == input@ {
                r is None
            } else {
                r matches Some((out, u)) && out@ == f.0 && u@ == f.1
            }
        }),
        !is_binary(input@) && valid_utf8(input@) ==> ({
            let f = fold_steps(steps@, *file, decode_utf8(input@), steps@.len());
            if f.0 == decode_utf8(input@) {
                r is None
            } else {
                r matches Some((out, u)) && out@ == encode_utf8(f.0) && u@ == f.1
            }
        }),
        r matches Some((out, u)) ==> u@.len() == steps@.len() && out@ != input@,
{
    let mut k: usize = 0;
    while k < input.len()
        invariant
            k <= input@.len(),
            forall|j: int| 0 <= j < k ==> input@[j] != 0u8,
        decreases input.len() - k,
    {
        if input[k] == 0 {
            assert(input@.contains(0u8));
            return None;
        }
        k += 1;
    }
    assert(!is_binary(input@));
    let mut current: Vec<u8> = Vec::new();
    let mut j: usize = 0;
    while j < input.len()
        invariant
            j <= input@.len(),
            current@ == input@.take(j as int),
        decreases input.len() - j,
    {
        current.push(input[j]);
        assert(input@.take(j + 1) == input@.take(j as int).push(input@[j as int]));
        j += 1;
    }
    assert(input@.take(input@.len() as int) == input@);
    let mut units: Vec<usize> = Vec::new();
    let mut z: usize = 0;
    while z < steps.len()
        invariant
            z <= steps@.len(),
            units@ == Seq::new(z as nat, |i: int| 0usize),
        decreases steps.len() - z,
    {
        units.push(0);
        assert(units@ =~= Seq::new((z + 1) as nat, |i: int| 0usize));
        z += 1;
    }
    let mut i: usize = 0;
    while i < steps.len()
        invariant
            i <= steps@.len(),
            units@.len() == steps@.len(),
            current@ == fold_bytes(steps@, *file, input@, i as nat).0,
            units@ == fold_bytes(steps@, *file, input@, i as nat).1,
        decreases steps.len() - i,
    {
        let step = steps[i];
        let ghost prev = current@;
        assert(step == steps@[i as int]);
        if step.accepts(file) {
            let result: Option<(Vec<u8>, usize)> = match utf8_str(current.as_slice()) {
                Some(text) => match step.transform(text, file) {
                    Some((s, n)) => Some((bytes_of(s.as_str()), n)),
                    None => None,
                },
                None => if step.supports_bytes() {
                    step.transform_bytes(current.as_slice(), file)
                } else {
                    None
                },
            };
            assert(match result {
                Some((next, n)) => step_on_bytes(steps@, i as int, *file, prev) == Some((next@, n)),
                None => step_on_bytes(steps@, i as int, *file, prev) is None,
            });
            if let Some((next, n)) = result {
                if !bytes_eq(next.as_slice(), current.as_slice()) {
                    units.set(i, n);
                    current = next;
                }
            }
        }
        i += 1;
    }
    proof {
        if valid_utf8(input@) {
            lemma_fold_bytes_text(steps@, *file, input@, steps@.len());
            assert(decode_utf8(encode_utf8(fold_steps(steps@, *file, decode_utf8(input@), steps@.len()).0))
                == fold_steps(steps@, *file, decode_utf8(input@), steps@.len()).0);
        }
    }
    if !bytes_eq(current.as_slice(), input) {
        Some((current, units))
    } else {
        None
    }
}

/// `n` zeros.
pub fn zeros(n: usize) -> (r: Vec<usize>)
    ensures
        r@ == Seq::new(n as nat, |i: int| 0usize),
{
    let mut units: Vec<usize> = Vec::new();
    let mut z: usize = 0;
    while z < n
        invariant
            z <= n,
            units@ == Seq::new(z as nat, |i: int| 0usize),
        decreases n - z,
    {
        units.push(0);
        assert(units@ =~= Seq::new((z + 1) as nat, |i: int| 0usize));
        z += 1;
    }
    units
}

/// A copy of `b`.
pub fn copy_bytes(b: &[u8]) -> (r: Vec<u8>)
    ensures
        r@ == b@,
{
    let mut out: Vec<u8> = Vec::new();
    let mut j: usize = 0;
    while j < b.len()
        invariant
            j <= b@.len(),
            out@ == b@.take(j as int),
        decreases b.len() - j,
    {
        out.push(b[j]);
        assert(b@.take(j + 1) == b@.take(j as int).push(b@[j as int]));
        j += 1;
    }
    assert(b@.take(b@.len() as int) == b@);
    out
}

/// Applies the steps in `steps` that accept `file` to `input`, in order,
/// returning the result and each step's change count.
///
/// Nothing is read or written: `file` only decides acceptance, so this
/// serves content that is not on disk, such as stdin. Binary input (a NUL
/// byte) and input that no step changes come back unchanged with zero
/// counts. `dry_run` only sets the tense of messages.
pub fn apply_to_bytes(
    steps: &[&dyn ContentStep],
    file: &FileTarget,
    input: &[u8],
    dry_run: bool,
) -> (r: (Vec<u8>, Vec<usize>))
    ensures
        r.1@.len() == steps@.len(),
        is_binary(input@) ==> r.0@ == input@ && r.1@ == Seq::new(steps@.len(), |i: int| 0usize),
        !is_binary(input@) ==> ({
            let f = fold_bytes(steps@, *file, input@, steps@.len());
            if f.0 == input@ {
                r.0@ == input@ && r.1@ == Seq::new(steps@.len(), |i: int| 0usize)
            } else {
                r.0@ == f.0 && r.1@ == f.1
            }
        }),
        !is_binary(input@) && valid_utf8(input@) ==> ({
            let f = fold_steps(steps@, *file, decode_utf8(input@), steps@.len());
            if f.0 == decode_utf8(input@) {
                r.0@ == input@ && r.1@ == Seq::new(steps@.len(), |i: int| 0usize)
            } else {
                r.0@ == encode_utf8(f.0) && r.1@ == f.1
            }
        }),
{
    match transform_active(steps, file, input) {
        Some((output, units)) => (output, units),
        None => (copy_bytes(input), zeros(steps.len())),
    }
}

impl RunReport {
    /// A report with one zeroed total per step, no changed files and no
    /// errors.
    pub fn for_steps(steps: &[&dyn ContentStep]) -> (r: RunReport)
        ensures
            r.steps@.len() == steps@.len(),
            forall|i: int| 0 <= i < steps@.len() ==> (#[trigger] r.steps@[i]).files == 0 && r.steps@[i].units == 0,
            r.files_changed == 0,
            r.errors@.len() == 0,
    {
        let mut totals: Vec<StepTotals> = Vec::new();
        let mut i: usize = 0;
        while i < steps.len()
            invariant
                i <= steps@.len(),
                totals@.len() == i,
                forall|j: int| 0 <= j < i ==> (#[trigger] totals@[j]).files == 0 && totals@[j].units == 0,
            decreases steps.len() - i,
        {
            totals.push(StepTotals { name: steps[i].name(), files: 0, units: 0 });
            i += 1;
        }
        RunReport { steps: totals, files_changed: 0, errors: Vec::new() }
    }

    /// Counts one changed file: every step with a nonzero count gains a
    /// file and its count.
    pub fn record_change(&mut self, units: &[usize])
        requires
            units@.len() == old(self).steps@.len(),
        ensures
            final(self).files_changed == sat((old(self).files_changed + 1) as nat),
            final(self).errors@ == old(self).errors@,
            final(self).steps@.len() == old(self).steps@.len(),
            forall|i: int| 0 <= i < units@.len() ==> {
                &&& (#[trigger] final(self).steps@[i]).name == old(self).steps@[i].name
                &&& final(self).steps@[i].files == if units@[i] > 0 {
                    sat((old(self).steps@[i].files + 1) as nat)
                } else {
                    old(self).steps@[i].files
                }
                &&& final(self).steps@[i].units == sat((old(self).steps@[i].units + units@[i]) as nat)
            },
    {
        self.files_changed = self.files_changed.saturating_add(1);
        let mut i: usize = 0;
        while i < units.len()
            invariant
                i <= units@.len(),
                units@.len() == self.steps@.len(),
                self.steps@.len() == old(self).steps@.len(),
                self.files_changed == sat((old(self).files_changed + 1) as nat),
                self.errors@ == old(self).errors@,
                forall|j: int| i <= j < units@.len() ==> #[trigger] self.steps@[j] == old(self).steps@[j],
                forall|j: int| 0 <= j < i ==> {
                    &&& (#[trigger] self.steps@[j]).name == old(self).steps@[j].name
                    &&& self.steps@[j].files == if units@[j] > 0 {
                        sat((old(self).steps@[j].files + 1) as nat)
                    } else {
                        old(self).steps@[j].files
                    }
                    &&& self.steps@[j].units == sat((old(self).steps@[j].units + units@[j]) as nat)
                },
            decreases units.len() - i,
        {
            let n = units[i];
            assert(self.steps@[i as int] == old(self).steps@[i as int]);
            let t = StepTotals {
                name: self.steps[i].name,
                files: if n > 0 { self.steps[i].files.saturating_add(1) } else { self.steps[i].files },
                units: self.steps[i].units.saturating_add(n),
            };
            self.steps.set(i, t);
            i += 1;
        }
    }

    /// Records one file that could not be processed.
    pub fn record_error(&mut self, message: String)
        ensures
            final(self).errors@ == old(self).errors@.push(message),
            final(self).steps@ == old(self).steps@,
            final(self).files_changed == old(self).files_changed,
    {
        self.errors.push(message);
    }
}

} // verus!
