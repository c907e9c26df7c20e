//! Line splitting that preserves each line's original terminator.
//!
//! Splitting and rejoining is the identity, so a transformer that only
//! touches the body of each line cannot change how lines are separated.

use vstd::prelude::*;
use crate::text::{chars_of, string_of_range};

verus! {

/// A line feed or a carriage return.
pub open spec fn is_eol(c: char) -> bool {
    c == '\n' || c == '\r'
}

/// Index of the first CR or LF in `s`, or `s.len()` when there is none.
pub open spec fn eol_index(s: Seq<char>) -> nat
    decreases s.len(),
{
    if s.len() == 0 {
        0
    } else if is_eol(s[0]) {
        0
    } else {
        1 + eol_index(s.drop_first())
    }
}

/// Length of the terminator that starts at index `i` of `s`: 2 for CRLF,
/// 1 for a lone CR or LF, 0 at the end of the text.
pub open spec fn term_len(s: Seq<char>, i: int) -> int {
    if i >= s.len() {
        0
    } else if s[i] == '\r' && i + 1 < s.len() && s[i + 1] == '\n' {
        2
    } else {
        1
    }
}

pub proof fn lemma_eol_index(s: Seq<char>)
    ensures
        eol_index(s) <= s.len(),
        forall|k: int| 0 <= k < eol_index(s) ==> !is_eol(#[trigger] s[k]),
        eol_index(s) < s.len() ==> is_eol(s[eol_index(s) as int]),
    decreases s.len(),
{
    if s.len() > 0 && !is_eol(s[0]) {
        lemma_eol_index(s.drop_first());
        assert forall|k: int| 0 <= k < eol_index(s) implies !is_eol(#[trigger] s[k]) by {
            if k > 0 {
                assert(s[k] == s.drop_first()[k - 1]);
            }
        }
    }
}

/// The first CR or LF is at `j`, given that none occurs before it.
pub proof fn lemma_eol_index_at(s: Seq<char>, j: int)
    requires
        0 <= j <= s.len(),
        forall|k: int| 0 <= k < j ==> !is_eol(#[trigger] s[k]),
        j == s.len() || is_eol(s[j]),
    ensures
        eol_index(s) == j,
    decreases j,
{
    if j > 0 {
        assert(!is_eol(s[0]));
        let t = s.drop_first();
        assert forall|k: int| 0 <= k < j - 1 implies !is_eol(#[trigger] t[k]) by {
            assert(t[k] == s[k + 1]);
        }
        if j < s.len() {
            assert(t[j - 1] == s[j]);
        }
        lemma_eol_index_at(t, j - 1);
    }
}

/// `text` split into `(body, terminator)` pairs.
pub open spec fn split_spec(s: Seq<char>) -> Seq<(Seq<char>, Seq<char>)>
    decreases s.len(),
{
    if s.len() == 0 {
        seq![]
    } else {
        let i = eol_index(s) as int;
        let t = term_len(s, i);
        proof {
            lemma_eol_index(s);
        }
        seq![(s.take(i), s.subrange(i, i + t))] + split_spec(s.skip(i + t))
    }
}

/// A text has no lines exactly when it is empty, and a line ended by a lone
/// CR is never followed by an empty line ended by LF (that pair would have
/// been one CRLF).
pub proof fn lemma_split_lone_cr(s: Seq<char>)
    ensures
        split_spec(s).len() == 0 <==> s.len() == 0,
        forall|k: int|
            0 <= k < split_spec(s).len() - 1 && (#[trigger] split_spec(s)[k]).1 == seq!['\r']
                ==> !(split_spec(s)[k + 1].0.len() == 0 && split_spec(s)[k + 1].1 == seq!['\n']),
    decreases s.len(),
{
    if s.len() > 0 {
        lemma_eol_index(s);
        let i = eol_index(s) as int;
        let t = term_len(s, i);
        let rest = s.skip(i + t);
        lemma_split_lone_cr(rest);
        let l = split_spec(s);
        assert(l.drop_first() == split_spec(rest));
        assert forall|k: int|
            0 <= k < l.len() - 1 && (#[trigger] l[k]).1 == seq!['\r'] implies !(l[k + 1].0.len()
            == 0 && l[k + 1].1 == seq!['\n']) by {
            if k == 0 {
                assert(l[0].1 == s.subrange(i, i + t));
                assert(t == 1 && s[i] == '\r') by {
                    if t == 2 {
                        assert(l[0].1.len() == 2);
                    } else if t == 0 {
                        assert(l[0].1.len() == 0);
                    } else {
                        assert(l[0].1[0] == s[i]);
                    }
                }
                assert(rest.len() > 0) by {
                    assert(split_spec(rest).len() > 0);
                }
                assert(rest[0] == s[i + 1]);
                assert(rest[0] != '\n');
                assert(l[1] == split_spec(rest)[0]);
                lemma_eol_index(rest);
                if l[1].0.len() == 0 && l[1].1 == seq!['\n'] {
                    assert(eol_index(rest) == 0);
                    assert(split_spec(rest)[0].1 == rest.subrange(0, term_len(rest, 0)));
                    assert(split_spec(rest)[0].1[0] == rest[0]);
                }
            } else {
                assert(l[k] == split_spec(rest)[k - 1]);
                assert(l[k + 1] == split_spec(rest)[k]);
            }
        }
    }
}

/// Every body followed by its terminator, in order.
pub open spec fn flatten(lines: Seq<(Seq<char>, Seq<char>)>) -> Seq<char>
    decreases lines.len(),
{
    if lines.len() == 0 {
        seq![]
    } else {
        lines[0].0 + lines[0].1 + flatten(lines.drop_first())
    }
}

/// The characters of a `(body, terminator)` list as produced in exec code.
pub open spec fn lines_view(v: Seq<(String, String)>) -> Seq<(Seq<char>, Seq<char>)> {
    v.map_values(|p: (String, String)| (p.0@, p.1@))
}

/// The terminators this module recognises.
pub open spec fn is_terminator(t: Seq<char>) -> bool {
    t == seq!['\r', '\n'] || t == seq!['\n'] || t == seq!['\r'] || t.len() == 0
}

/// Splitting and rejoining reproduces the input exactly.
pub proof fn lemma_split_roundtrip(s: Seq<char>)
    ensures
        flatten(split_spec(s)) == s,
    decreases s.len(),
{
    if s.len() > 0 {
        lemma_eol_index(s);
        let i = eol_index(s) as int;
        let t = term_len(s, i);
        lemma_split_roundtrip(s.skip(i + t));
        let l = split_spec(s);
        assert(l.drop_first() == split_spec(s.skip(i + t)));
        assert(s == s.take(i) + s.subrange(i, i + t) + s.skip(i + t));
    }
}

/// Each line's body holds no CR or LF, each terminator is CRLF, LF, CR or
/// empty, only the last line may lack a terminator, and no line is empty.
pub proof fn lemma_split_shape(s: Seq<char>)
    ensures
        forall|k: int|
            0 <= k < split_spec(s).len() ==> {
                &&& forall|m: int|
                    0 <= m < (#[trigger] split_spec(s)[k]).0.len() ==> !is_eol(
                        split_spec(s)[k].0[m],
                    )
                &&& is_terminator(split_spec(s)[k].1)
                &&& split_spec(s)[k].0.len() + split_spec(s)[k].1.len() > 0
                &&& (split_spec(s)[k].1.len() == 0 ==> k == split_spec(s).len() - 1)
            },
    decreases s.len(),
{
    if s.len() > 0 {
        lemma_eol_index(s);
        let i = eol_index(s) as int;
        let t = term_len(s, i);
        let rest = s.skip(i + t);
        lemma_split_shape(rest);
        let l = split_spec(s);
        assert(l.drop_first() == split_spec(rest));
        assert forall|k: int| 0 <= k < l.len() implies {
            &&& forall|m: int| 0 <= m < (#[trigger] l[k]).0.len() ==> !is_eol(l[k].0[m])
            &&& is_terminator(l[k].1)
            &&& l[k].0.len() + l[k].1.len() > 0
            &&& (l[k].1.len() == 0 ==> k == l.len() - 1)
        } by {
            if k == 0 {
                assert forall|m: int| 0 <= m < l[0].0.len() implies !is_eol(l[0].0[m]) by {
                    assert(l[0].0[m] == s[m]);
                }
                if t == 2 {
                    assert(l[0].1 =~= seq!['\r', '\n']);
                } else if t == 1 {
                    if s[i] == '\r' {
                        assert(l[0].1 =~= seq!['\r']);
                    } else {
                        assert(l[0].1 =~= seq!['\n']);
                    }
                } else {
                    assert(i == s.len());
                    assert(rest.len() == 0);
                }
            } else {
                assert(l[k] == split_spec(rest)[k - 1]);
            }
        }
    }
}

proof fn lemma_split_step(s: Seq<char>, pos: int, j: int, t: int)
    requires
        0 <= pos < s.len(),
        pos <= j <= s.len(),
        forall|k: int| pos <= k < j ==> !is_eol(#[trigger] s[k]),
        j == s.len() || is_eol(s[j]),
        t == term_len(s, j),
    ensures
        split_spec(s.skip(pos)) == seq![(s.subrange(pos, j), s.subrange(j, j + t))]
            + split_spec(s.skip(j + t)),
        j + t <= s.len(),
        j + t > pos,
{
    let r = s.skip(pos);
    assert forall|k: int| 0 <= k < j - pos implies !is_eol(#[trigger] r[k]) by {
        assert(r[k] == s[pos + k]);
    }
    if j < s.len() {
        assert(r[j - pos] == s[j]);
    }
    lemma_eol_index_at(r, j - pos);
    assert(term_len(r, j - pos) == t);
    assert(r.take(j - pos) == s.subrange(pos, j));
    assert(r.subrange(j - pos, j - pos + t) == s.subrange(j, j + t));
    assert(r.skip(j - pos + t) == s.skip(j + t));
}

/// Splits `text` into lines, keeping each line's terminator (`"\r\n"`,
/// `"\n"`, `"\r"`, or `""` for a final line without one) apart from its body.
pub fn split_lines(text: &str) -> (r: Vec<(String, String)>)
    ensures
        lines_view(r@) == split_spec(text@),
{
    let s = chars_of(text);
    let n = s.len();
    let mut out: Vec<(String, String)> = Vec::new();
    let mut pos: usize = 0;
    assert(s@.skip(0) == s@);
    while pos < n
        invariant
            s@ == text@,
            n == s@.len(),
            pos <= n,
            split_spec(s@) == lines_view(out@) + split_spec(s@.skip(pos as int)),
        decreases n - pos,
    {
        let mut j: usize = pos;
        while j < n && s[j] != '\n' && s[j] != '\r'
            invariant
                pos <= j <= n,
                n == s@.len(),
                forall|k: int| pos <= k < j ==> !is_eol(#[trigger] s@[k]),
            decreases n - j,
        {
            j += 1;
        }
        let t: usize = if j >= n {
            0
        } else if s[j] == '\r' && j + 1 < n && s[j + 1] == '\n' {
            2
        } else {
            1
        };
        proof {
            lemma_split_step(s@, pos as int, j as int, t as int);
        }
        let body = string_of_range(&s, pos, j);
        let term = string_of_range(&s, j, j + t);
        let ghost old_out = out@;
        out.push((body, term));
        assert(lines_view(out@) == lines_view(old_out) + seq![
            (s@.subrange(pos as int, j as int), s@.subrange(j as int, j + t)),
        ]);
        pos = j + t;
    }
    assert(s@.skip(n as int).len() == 0);
    out
}

/// The lines of a text handed out one at a time: each call of
/// [`SplitLines::next`] gives the next `(body, terminator)` pair.
pub struct SplitLines {
    chars: Vec<char>,
    pos: usize,
}

impl View for SplitLines {
    type V = Seq<char>;

    /// The text not handed out yet.
    open spec fn view(&self) -> Seq<char> {
        self.rest()
    }
}

impl SplitLines {
    /// The text not handed out yet.
    pub closed spec fn rest(&self) -> Seq<char> {
        self.chars@.skip(self.pos as int)
    }

    #[verifier::type_invariant]
    closed spec fn within(self) -> bool {
        self.pos <= self.chars@.len()
    }

    /// The lines of `text`, none handed out yet.
    pub fn new(text: &str) -> (r: SplitLines)
        ensures
            r@ == text@,
    {
        let chars = chars_of(text);
        assert(chars@.skip(0) =~= chars@);
        SplitLines { chars, pos: 0 }
    }

    /// The next line and its terminator, or `None` when the text is used
    /// up; what remains is the text after that line.
    pub fn next(&mut self) -> (r: Option<(String, String)>)
        ensures
            old(self)@.len() == 0 ==> r is None && final(self)@ == old(self)@,
            old(self)@.len() > 0 ==> (r matches Some(p) && split_spec(old(self)@).len() > 0 && (
            p.0@, p.1@) == split_spec(old(self)@)[0] && split_spec(final(self)@) == split_spec(
                old(self)@,
            ).drop_first() && final(self)@.len() < old(self)@.len()),
    {
        proof {
            use_type_invariant(&*self);
        }
        let n = self.chars.len();
        let pos = self.pos;
        if pos >= n {
            return None;
        }
        let mut j: usize = pos;
        while j < n && self.chars[j] != '\n' && self.chars[j] != '\r'
            invariant
                pos <= j <= n,
                n == self.chars@.len(),
                forall|k: int| pos <= k < j ==> !is_eol(#[trigger] self.chars@[k]),
            decreases n - j,
        {
            j += 1;
        }
        let t: usize = if j >= n {
            0
        } else if self.chars[j] == '\r' && j + 1 < n && self.chars[j + 1] == '\n' {
            2
        } else {
            1
        };
        let ghost s = self.chars@;
        proof {
            lemma_split_step(s, pos as int, j as int, t as int);
            assert(split_spec(s.skip(pos as int)).drop_first() =~= split_spec(s.skip(j + t)));
        }
        let body = string_of_range(&self.chars, pos, j);
        let term = string_of_range(&self.chars, j, j + t);
        self.pos = j + t;
        Some((body, term))
    }
}

/// The first line terminator of `s`, or LF when there is none.
pub open spec fn first_term_spec(s: Seq<char>) -> Seq<char> {
    let i = eol_index(s) as int;
    if i >= s.len() {
        seq!['\n']
    } else if term_len(s, i) == 2 {
        seq!['\r', '\n']
    } else if s[i] == '\r' {
        seq!['\r']
    } else {
        seq!['\n']
    }
}

/// No CR or LF occurs in `s`.
pub open spec fn no_eol(s: Seq<char>) -> bool {
    forall|k: int| 0 <= k < s.len() ==> !is_eol(#[trigger] s[k])
}

/// Every CR in `s` is followed by an LF: the text has no lone CR.
pub open spec fn no_lone_cr(s: Seq<char>) -> bool {
    forall|k: int| 0 <= k < s.len() && #[trigger] s[k] == '\r' ==> k + 1 < s.len() && s[k + 1] == '\n'
}

/// A text without a lone CR has LF or CRLF as its first terminator.
pub proof fn lemma_first_term_kind(s: Seq<char>)
    requires
        no_lone_cr(s),
    ensures
        first_term_spec(s) == seq!['\n'] || first_term_spec(s) == seq!['\r', '\n'],
        no_eol(s) ==> first_term_spec(s) == seq!['\n'],
{
    lemma_eol_index(s);
    let i = eol_index(s) as int;
    if no_eol(s) && i < s.len() {
        assert(!is_eol(s[i]));
    }
    if i < s.len() && s[i] == '\r' {
        assert(s[i + 1] == '\n');
    }
}

/// Text without CR or LF in front does not change the first terminator.
pub proof fn lemma_first_term_after(x: Seq<char>, y: Seq<char>)
    requires
        no_eol(x),
    ensures
        first_term_spec(x + y) == first_term_spec(y),
{
    lemma_eol_index(y);
    let j = eol_index(y) as int;
    let s = x + y;
    assert forall|k: int| 0 <= k < x.len() + j implies !is_eol(#[trigger] s[k]) by {
        if k < x.len() {
            assert(s[k] == x[k]);
        } else {
            assert(s[k] == y[k - x.len()]);
        }
    }
    if j < y.len() {
        assert(s[x.len() + j] == y[j]);
        if j + 1 < y.len() {
            assert(s[x.len() + j + 1] == y[j + 1]);
        }
    }
    lemma_eol_index_at(s, x.len() + j);
}

/// A terminator that `x` holds whole stays the first terminator whatever
/// follows `x`.
pub proof fn lemma_first_term_within(x: Seq<char>, y: Seq<char>)
    requires
        eol_index(x) < x.len(),
        !(x[eol_index(x) as int] == '\r' && eol_index(x) == x.len() - 1),
    ensures
        first_term_spec(x + y) == first_term_spec(x),
{
    lemma_eol_index(x);
    let i = eol_index(x) as int;
    let s = x + y;
    assert forall|k: int| 0 <= k < i implies !is_eol(#[trigger] s[k]) by {
        assert(s[k] == x[k]);
    }
    assert(s[i] == x[i]);
    if i + 1 < x.len() {
        assert(s[i + 1] == x[i + 1]);
    }
    lemma_eol_index_at(s, i);
}

/// LF or CRLF at the front is the first terminator.
pub proof fn lemma_first_term_front(nl: Seq<char>, y: Seq<char>)
    requires
        nl == seq!['\n'] || nl == seq!['\r', '\n'],
    ensures
        first_term_spec(nl + y) == nl,
{
    let s = nl + y;
    assert(s[0] == nl[0]);
    if nl.len() == 2 {
        assert(s[1] == nl[1]);
    }
    lemma_eol_index_at(s, 0);
}

/// The first line terminator in `text`, or LF if it has none.
pub fn first_terminator(text: &str) -> (r: &'static str)
    ensures
        r@ == first_term_spec(text@),
        text@.len() > 0 && split_spec(text@)[0].1.len() > 0 ==> r@ == split_spec(text@)[0].1,
        text@.len() == 0 || split_spec(text@)[0].1.len() == 0 ==> r@ == seq!['\n'],
{
    let s = chars_of(text);
    let n = s.len();
    let mut j: usize = 0;
    while j < n && s[j] != '\n' && s[j] != '\r'
        invariant
            j <= n,
            n == s@.len(),
            forall|k: int| 0 <= k < j ==> !is_eol(#[trigger] s@[k]),
        decreases n - j,
    {
        j += 1;
    }
    proof {
        lemma_eol_index_at(s@, j as int);
        reveal_strlit("\r\n");
        reveal_strlit("\r");
        reveal_strlit("\n");
        if s@.len() > 0 {
            let i = j as int;
            let t = term_len(s@, i);
            assert(split_spec(s@)[0].1 == s@.subrange(i, i + t));
            if t == 2 {
                assert(s@.subrange(i, i + t) =~= seq!['\r', '\n']);
            } else if t == 1 {
                assert(s@.subrange(i, i + t) =~= seq![s@[i]]);
            }
        }
    }
    if j >= n {
        "\n"
    } else if s[j] == '\r' && j + 1 < n && s[j + 1] == '\n' {
        "\r\n"
    } else if s[j] == '\r' {
        "\r"
    } else {
        "\n"
    }
}

} // verus!
