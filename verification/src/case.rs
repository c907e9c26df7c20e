//! Case formats: recognising, splitting and joining identifiers.

use vstd::prelude::*;
use crate::text::{lemma_take_push, lemma_texts_push, 
    char_to_uppercase, chars_of, concat3, char_is_uppercase, join,
    push_char, push_str, string_of, strings_view, to_lowercase, to_uppercase,
    lowered, raised, upper_char, upper_first, all_ascii, ascii_lower, ascii_upper,
};

verus! {

/// Supported case formats for identifier conversion.
#[derive(Debug, Clone, Copy, PartialEq, Eq, Structural)]
pub enum CaseFormat {
    /// camelCase: firstName, lastName
    CamelCase,
    /// PascalCase: FirstName, LastName
    PascalCase,
    /// snake_case: first_name, last_name
    SnakeCase,
    /// SCREAMING_SNAKE_CASE: FIRST_NAME, LAST_NAME
    ScreamingSnakeCase,
    /// kebab-case: first-name, last-name
    KebabCase,
    /// SCREAMING-KEBAB-CASE: FIRST-NAME, LAST-NAME
    ScreamingKebabCase,
}

/// The regex that identifies identifiers of each format.
pub open spec fn pattern_spec(f: CaseFormat) -> Seq<char> {
    match f {
        CaseFormat::CamelCase => "\\b[a-z]+(?:[A-Z][a-z0-9]*)+\\b"@,
        CaseFormat::PascalCase => "\\b[A-Z][a-z0-9]+(?:[A-Z][a-z0-9]*)+\\b"@,
        CaseFormat::SnakeCase => "\\b[a-z]+(?:_[a-z0-9]+)+\\b"@,
        CaseFormat::ScreamingSnakeCase => "\\b[A-Z]+(?:_[A-Z0-9]+)+\\b"@,
        CaseFormat::KebabCase => "\\b[a-z]+(?:-[a-z0-9]+)+\\b"@,
        CaseFormat::ScreamingKebabCase => "\\b[A-Z]+(?:-[A-Z0-9]+)+\\b"@,
    }
}

/// Words and the word in progress after reading `s` left to right, where a
/// new word starts at each uppercase character that follows a non-empty word.
pub open spec fn camel_state(s: Seq<char>) -> (Seq<Seq<char>>, Seq<char>)
    decreases s.len(),
{
    if s.len() == 0 {
        (seq![], seq![])
    } else {
        let st = camel_state(s.drop_last());
        let ch = s.last();
        if upper_char(ch) && st.1.len() > 0 {
            (st.0.push(st.1), seq![ch])
        } else {
            (st.0, st.1.push(ch))
        }
    }
}

/// Words and the word in progress after reading `s` left to right, where
/// each `sep` ends the word in progress and empty words are dropped.
pub open spec fn sep_state(s: Seq<char>, sep: char) -> (Seq<Seq<char>>, Seq<char>)
    decreases s.len(),
{
    if s.len() == 0 {
        (seq![], seq![])
    } else {
        let st = sep_state(s.drop_last(), sep);
        let ch = s.last();
        if ch == sep {
            (if st.1.len() > 0 { st.0.push(st.1) } else { st.0 }, seq![])
        } else {
            (st.0, st.1.push(ch))
        }
    }
}

/// The words of a finished reading: the in-progress word is kept when
/// non-empty.
pub open spec fn finish(st: (Seq<Seq<char>>, Seq<char>)) -> Seq<Seq<char>> {
    if st.1.len() > 0 {
        st.0.push(st.1)
    } else {
        st.0
    }
}

/// Each word lowercased.
pub open spec fn lower_all(ws: Seq<Seq<char>>) -> Seq<Seq<char>> {
    ws.map_values(|w: Seq<char>| lowered(w))
}

/// Each word uppercased.
pub open spec fn upper_all(ws: Seq<Seq<char>>) -> Seq<Seq<char>> {
    ws.map_values(|w: Seq<char>| raised(w))
}

/// The words of `text` under format `f`, lowercased.
pub open spec fn split_words_spec(f: CaseFormat, text: Seq<char>) -> Seq<Seq<char>> {
    match f {
        CaseFormat::CamelCase | CaseFormat::PascalCase => lower_all(finish(camel_state(text))),
        CaseFormat::SnakeCase | CaseFormat::ScreamingSnakeCase => lower_all(finish(sep_state(text, '_'))),
        CaseFormat::KebabCase | CaseFormat::ScreamingKebabCase => lower_all(finish(sep_state(text, '-'))),
    }
}

/// `w` with its first character uppercased (`char::to_uppercase`).
pub open spec fn capitalize(w: Seq<char>) -> Seq<char> {
    if w.len() == 0 {
        seq![]
    } else {
        upper_first(w[0]) + w.skip(1)
    }
}

/// The concatenation of each word capitalized.
pub open spec fn concat_capitalized(ws: Seq<Seq<char>>) -> Seq<char>
    decreases ws.len(),
{
    if ws.len() == 0 {
        seq![]
    } else {
        concat_capitalized(ws.drop_last()) + capitalize(ws.last())
    }
}

/// The words joined in format `f`, without prefix or suffix.
pub open spec fn join_core(f: CaseFormat, ws: Seq<Seq<char>>) -> Seq<char> {
    match f {
        CaseFormat::CamelCase => lowered(ws[0]) + concat_capitalized(ws.skip(1)),
        CaseFormat::PascalCase => concat_capitalized(ws),
        CaseFormat::SnakeCase => join(lower_all(ws), seq!['_']),
        CaseFormat::ScreamingSnakeCase => join(upper_all(ws), seq!['_']),
        CaseFormat::KebabCase => join(lower_all(ws), seq!['-']),
        CaseFormat::ScreamingKebabCase => join(upper_all(ws), seq!['-']),
    }
}

/// The words joined in format `f` between `prefix` and `suffix`; no words
/// give the empty string.
pub open spec fn join_words_spec(f: CaseFormat, ws: Seq<Seq<char>>, prefix: Seq<char>, suffix: Seq<char>) -> Seq<char> {
    if ws.len() == 0 {
        seq![]
    } else {
        prefix + join_core(f, ws) + suffix
    }
}

/// Lowercases each word.
fn lower_each(ws: &Vec<String>) -> (r: Vec<String>)
    ensures
        strings_view(r@) == lower_all(strings_view(ws@)),
{
    let mut out: Vec<String> = Vec::new();
    let mut i: usize = 0;
    while i < ws.len()
        invariant
            i <= ws@.len(),
            strings_view(out@) == lower_all(strings_view(ws@.take(i as int))),
        decreases ws.len() - i,
    {
        let x = to_lowercase(ws[i].as_str());
        proof {
            lemma_texts_push(out@, x);
            lemma_take_push(ws@, i as int);
            lemma_texts_push(ws@.take(i as int), ws@[i as int]);
            assert(lower_all(strings_view(ws@.take(i + 1))) =~= lower_all(strings_view(ws@.take(i as int))).push(lowered(ws@[i as int]@)));
        }
        out.push(x);
        i += 1;
    }
    assert(ws@.take(ws@.len() as int) == ws@);
    out
}

/// Uppercases each word.
fn upper_each(ws: &[String]) -> (r: Vec<String>)
    ensures
        strings_view(r@) == upper_all(strings_view(ws@)),
{
    let mut out: Vec<String> = Vec::new();
    let mut i: usize = 0;
    while i < ws.len()
        invariant
            i <= ws@.len(),
            strings_view(out@) == upper_all(strings_view(ws@.take(i as int))),
        decreases ws.len() - i,
    {
        let x = to_uppercase(ws[i].as_str());
        proof {
            lemma_texts_push(out@, x);
            lemma_take_push(ws@, i as int);
            lemma_texts_push(ws@.take(i as int), ws@[i as int]);
            assert(upper_all(strings_view(ws@.take(i + 1))) =~= upper_all(strings_view(ws@.take(i as int))).push(raised(ws@[i as int]@)));
        }
        out.push(x);
        i += 1;
    }
    assert(ws@.take(ws@.len() as int) == ws@);
    out
}

/// Lowercases each word of a slice.
fn lower_slice(ws: &[String]) -> (r: Vec<String>)
    ensures
        strings_view(r@) == lower_all(strings_view(ws@)),
{
    let mut out: Vec<String> = Vec::new();
    let mut i: usize = 0;
    while i < ws.len()
        invariant
            i <= ws@.len(),
            strings_view(out@) == lower_all(strings_view(ws@.take(i as int))),
        decreases ws.len() - i,
    {
        let x = to_lowercase(ws[i].as_str());
        proof {
            lemma_texts_push(out@, x);
            lemma_take_push(ws@, i as int);
            lemma_texts_push(ws@.take(i as int), ws@[i as int]);
            assert(lower_all(strings_view(ws@.take(i + 1))) =~= lower_all(strings_view(ws@.take(i as int))).push(lowered(ws@[i as int]@)));
        }
        out.push(x);
        i += 1;
    }
    assert(ws@.take(ws@.len() as int) == ws@);
    out
}

/// `w` with its first character uppercased.
fn capitalize_str(w: &str) -> (r: String)
    ensures
        r@ == capitalize(w@),
{
    let c = chars_of(w);
    if c.len() == 0 {
        return String::new();
    }
    let up = char_to_uppercase(c[0]);
    let mut out = string_of(&up);
    let rest = crate::text::string_of_range(&c, 1, c.len());
    push_str(&mut out, rest.as_str());
    assert(c@.subrange(1, c@.len() as int) == c@.skip(1));
    out
}

impl CaseFormat {
    /// Returns the regex pattern for identifying this case format.
    pub fn pattern(&self) -> (r: &'static str)
        ensures
            r@ == pattern_spec(*self),
    {
        proof {
            reveal_strlit("\\b[a-z]+(?:[A-Z][a-z0-9]*)+\\b");
            reveal_strlit("\\b[A-Z][a-z0-9]+(?:[A-Z][a-z0-9]*)+\\b");
            reveal_strlit("\\b[a-z]+(?:_[a-z0-9]+)+\\b");
            reveal_strlit("\\b[A-Z]+(?:_[A-Z0-9]+)+\\b");
            reveal_strlit("\\b[a-z]+(?:-[a-z0-9]+)+\\b");
            reveal_strlit("\\b[A-Z]+(?:-[A-Z0-9]+)+\\b");
        }
        match self {
            CaseFormat::CamelCase => "\\b[a-z]+(?:[A-Z][a-z0-9]*)+\\b",
            CaseFormat::PascalCase => "\\b[A-Z][a-z0-9]+(?:[A-Z][a-z0-9]*)+\\b",
            CaseFormat::SnakeCase => "\\b[a-z]+(?:_[a-z0-9]+)+\\b",
            CaseFormat::ScreamingSnakeCase => "\\b[A-Z]+(?:_[A-Z0-9]+)+\\b",
            CaseFormat::KebabCase => "\\b[a-z]+(?:-[a-z0-9]+)+\\b",
            CaseFormat::ScreamingKebabCase => "\\b[A-Z]+(?:-[A-Z0-9]+)+\\b",
        }
    }

    /// Splits a string into lowercased words based on this case format:
    /// before each uppercase letter for camel and Pascal case, at
    /// underscores for snake case, at hyphens for kebab case. Empty pieces
    /// are dropped.
    pub fn split_words(&self, text: &str) -> (r: Vec<String>)
        ensures
            strings_view(r@) == split_words_spec(*self, text@),
    {
        let c = chars_of(text);
        let camel = match self {
            CaseFormat::CamelCase | CaseFormat::PascalCase => true,
            _ => false,
        };
        let sep = match self {
            CaseFormat::SnakeCase | CaseFormat::ScreamingSnakeCase => '_',
            _ => '-',
        };
        let mut words: Vec<String> = Vec::new();
        let mut cur: Vec<char> = Vec::new();
        let mut i: usize = 0;
        while i < c.len()
            invariant
                i <= c@.len(),
                camel ==> (strings_view(words@), cur@) == camel_state(c@.take(i as int)),
                !camel ==> (strings_view(words@), cur@) == sep_state(c@.take(i as int), sep),
            decreases c.len() - i,
        {
            let ch = c[i];
            assert(c@.take(i + 1).drop_last() == c@.take(i as int));
            assert(c@.take(i + 1).last() == ch);
            if camel {
                if char_is_uppercase(ch) && cur.len() > 0 {
                    let ghost before = strings_view(words@);
                    words.push(string_of(&cur));
                    assert(strings_view(words@) =~= before.push(cur@));
                    cur = Vec::new();
                    cur.push(ch);
                    assert(cur@ =~= seq![ch]);
                } else {
                    cur.push(ch);
                }
            } else {
                if ch == sep {
                    if cur.len() > 0 {
                        let ghost before = strings_view(words@);
                        words.push(string_of(&cur));
                        assert(strings_view(words@) =~= before.push(cur@));
                    }
                    cur = Vec::new();
                    assert(cur@ =~= Seq::<char>::empty());
                } else {
                    cur.push(ch);
                }
            }
            i += 1;
        }
        assert(c@.take(c@.len() as int) == c@);
        if cur.len() > 0 {
            let ghost before = strings_view(words@);
            words.push(string_of(&cur));
            assert(strings_view(words@) =~= before.push(cur@));
        }
        lower_each(&words)
    }

    /// Joins words into this case format with `prefix` before and `suffix`
    /// after. No words give the empty string.
    pub fn join_words(&self, words: &[String], prefix: &str, suffix: &str) -> (r: String)
        ensures
            r@ == join_words_spec(*self, strings_view(words@), prefix@, suffix@),
    {
        if words.len() == 0 {
            return String::new();
        }
        let ghost ws = strings_view(words@);
        let core: String = match self {
            CaseFormat::CamelCase | CaseFormat::PascalCase => {
                let pascal = match self {
                    CaseFormat::PascalCase => true,
                    _ => false,
                };
                let mut out = if pascal {
                    String::new()
                } else {
                    to_lowercase(words[0].as_str())
                };
                let start: usize = if pascal { 0 } else { 1 };
                let ghost base = if pascal { Seq::<char>::empty() } else { lowered(ws[0]) };
                let mut i: usize = start;
                while i < words.len()
                    invariant
                        start <= i <= words@.len(),
                        ws == strings_view(words@),
                        out@ == base + concat_capitalized(ws.subrange(start as int, i as int)),
                    decreases words.len() - i,
                {
                    let cap = capitalize_str(words[i].as_str());
                    push_str(&mut out, cap.as_str());
                    assert(ws.subrange(start as int, i + 1).drop_last() == ws.subrange(start as int, i as int));
                    assert(ws.subrange(start as int, i + 1).last() == ws[i as int]);
                    i += 1;
                }
                assert(ws.subrange(start as int, words@.len() as int) == ws.skip(start as int));
                assert(ws.skip(0) == ws);
                assert(base + concat_capitalized(ws.skip(start as int)) == join_core(*self, ws));
                out
            },
            CaseFormat::SnakeCase => {
                proof {
                    reveal_strlit("_");
                    assert("_"@ =~= seq!['_']);
                }
                crate::text::join_strings(&lower_slice(words), "_")
            },
            CaseFormat::ScreamingSnakeCase => {
                proof {
                    reveal_strlit("_");
                    assert("_"@ =~= seq!['_']);
                }
                crate::text::join_strings(&upper_each(words), "_")
            },
            CaseFormat::KebabCase => {
                proof {
                    reveal_strlit("-");
                    assert("-"@ =~= seq!['-']);
                }
                crate::text::join_strings(&lower_slice(words), "-")
            },
            CaseFormat::ScreamingKebabCase => {
                proof {
                    reveal_strlit("-");
                    assert("-"@ =~= seq!['-']);
                }
                crate::text::join_strings(&upper_each(words), "-")
            },
        };
        assert(core@ == join_core(*self, ws));
        concat3(prefix, core.as_str(), suffix)
    }
}

proof fn lemma_sep_state_word(x: Seq<char>, w: Seq<char>, sep: char)
    requires
        !w.contains(sep),
    ensures
        sep_state(x + w, sep) == (sep_state(x, sep).0, sep_state(x, sep).1 + w),
    decreases w.len(),
{
    if w.len() == 0 {
        assert(x + w =~= x);
        assert(sep_state(x, sep).1 + w =~= sep_state(x, sep).1);
    } else {
        let w0 = w.drop_last();
        assert(!w0.contains(sep)) by {
            if w0.contains(sep) {
                let j = choose|j: int| 0 <= j < w0.len() && w0[j] == sep;
                assert(w[j] == sep);
            }
        }
        lemma_sep_state_word(x, w0, sep);
        assert((x + w).drop_last() =~= x + w0);
        assert((x + w).last() == w.last());
        assert(w.last() != sep) by {
            assert(w[w.len() - 1] == w.last());
        }
        assert(sep_state(x, sep).1 + w0 + seq![w.last()] =~= sep_state(x, sep).1 + w);
        assert((sep_state(x, sep).1 + w0).push(w.last()) =~= sep_state(x, sep).1 + w);
    }
}

proof fn lemma_sep_state_join(ws: Seq<Seq<char>>, sep: char)
    requires
        ws.len() >= 1,
        forall|i: int| 0 <= i < ws.len() ==> (#[trigger] ws[i]).len() > 0 && !ws[i].contains(sep),
    ensures
        sep_state(join(ws, seq![sep]), sep) == (ws.drop_last(), ws.last()),
    decreases ws.len(),
{
    if ws.len() == 1 {
        assert(join(ws, seq![sep]) == ws[0]);
        lemma_sep_state_word(Seq::<char>::empty(), ws[0], sep);
        assert(Seq::<char>::empty() + ws[0] =~= ws[0]);
        assert(sep_state(Seq::<char>::empty(), sep).1 + ws[0] =~= ws[0]);
        assert(ws.drop_last() =~= Seq::<Seq<char>>::empty());
    } else {
        let prev = ws.drop_last();
        assert forall|i: int| 0 <= i < prev.len() implies (#[trigger] prev[i]).len() > 0 && !prev[i].contains(sep) by {
            assert(prev[i] == ws[i]);
        }
        lemma_sep_state_join(prev, sep);
        let j0 = join(prev, seq![sep]);
        let x = j0 + seq![sep];
        assert(x.drop_last() =~= j0);
        assert(x.last() == sep);
        assert(sep_state(x, sep) == (prev.drop_last().push(prev.last()), Seq::<char>::empty()));
        assert(prev.drop_last().push(prev.last()) =~= prev);
        assert(ws[ws.len() - 1] == ws.last());
        lemma_sep_state_word(x, ws.last(), sep);
        assert(Seq::<char>::empty() + ws.last() =~= ws.last());
        assert(join(ws, seq![sep]) == x + ws.last());
    }
}

/// Joining words in snake case and splitting the result gives the words
/// back, for words that are non-empty, already lowercase and hold no
/// underscore.
pub proof fn lemma_snake_roundtrip(ws: Seq<Seq<char>>)
    requires
        forall|i: int|
            0 <= i < ws.len() ==> (#[trigger] ws[i]).len() > 0 && !ws[i].contains('_') && lowered(
                ws[i],
            ) == ws[i],
    ensures
        split_words_spec(
            CaseFormat::SnakeCase,
            join_words_spec(CaseFormat::SnakeCase, ws, seq![], seq![]),
        ) == ws,
{
    assert(lower_all(ws) =~= ws);
    if ws.len() > 0 {
        let j = join(ws, seq!['_']);
        assert(join_words_spec(CaseFormat::SnakeCase, ws, seq![], seq![]) =~= j);
        lemma_sep_state_join(ws, '_');
        assert(finish(sep_state(j, '_')) =~= ws);
    } else {
        assert(join_words_spec(CaseFormat::SnakeCase, ws, seq![], seq![]) == Seq::<char>::empty());
        assert(sep_state(Seq::<char>::empty(), '_') == (Seq::<Seq<char>>::empty(), Seq::<char>::empty()));
        assert(lower_all(Seq::<Seq<char>>::empty()) =~= Seq::<Seq<char>>::empty());
    }
}

/// Joining words in kebab case and splitting the result gives the words
/// back, for words that are non-empty, already lowercase and hold no hyphen.
pub proof fn lemma_kebab_roundtrip(ws: Seq<Seq<char>>)
    requires
        forall|i: int|
            0 <= i < ws.len() ==> (#[trigger] ws[i]).len() > 0 && !ws[i].contains('-') && lowered(
                ws[i],
            ) == ws[i],
    ensures
        split_words_spec(
            CaseFormat::KebabCase,
            join_words_spec(CaseFormat::KebabCase, ws, seq![], seq![]),
        ) == ws,
{
    assert(lower_all(ws) =~= ws);
    if ws.len() > 0 {
        let j = join(ws, seq!['-']);
        assert(join_words_spec(CaseFormat::KebabCase, ws, seq![], seq![]) =~= j);
        lemma_sep_state_join(ws, '-');
        assert(finish(sep_state(j, '-')) =~= ws);
    } else {
        assert(join_words_spec(CaseFormat::KebabCase, ws, seq![], seq![]) == Seq::<char>::empty());
        assert(sep_state(Seq::<char>::empty(), '-') == (Seq::<Seq<char>>::empty(), Seq::<char>::empty()));
        assert(lower_all(Seq::<Seq<char>>::empty()) =~= Seq::<Seq<char>>::empty());
    }
}

} // verus!

verus! {

/// An ASCII lowercase letter or digit.
pub open spec fn lower_or_digit(c: char) -> bool {
    'a' <= c <= 'z' || '0' <= c <= '9'
}

/// An ASCII uppercase letter or digit.
pub open spec fn upper_or_digit(c: char) -> bool {
    'A' <= c <= 'Z' || '0' <= c <= '9'
}

/// A word of ASCII lowercase letters and digits.
pub open spec fn lower_word(w: Seq<char>) -> bool {
    w.len() > 0 && forall|j: int| 0 <= j < w.len() ==> lower_or_digit(#[trigger] w[j])
}

/// A word of ASCII uppercase letters and digits.
pub open spec fn upper_word(w: Seq<char>) -> bool {
    w.len() > 0 && forall|j: int| 0 <= j < w.len() ==> upper_or_digit(#[trigger] w[j])
}

/// A capitalised word: an ASCII capital, then lowercase letters and digits.
pub open spec fn capital_word(w: Seq<char>) -> bool {
    &&& w.len() > 0
    &&& 'A' <= w[0] <= 'Z'
    &&& forall|j: int| 1 <= j < w.len() ==> lower_or_digit(#[trigger] w[j])
}

/// The words written one after another.
pub open spec fn concat_all(ws: Seq<Seq<char>>) -> Seq<char>
    decreases ws.len(),
{
    if ws.len() == 0 {
        seq![]
    } else {
        concat_all(ws.drop_last()) + ws.last()
    }
}

proof fn lemma_lowered_lower_word(w: Seq<char>)
    requires
        lower_word(w),
    ensures
        lowered(w) == w,
{
    assert(all_ascii(w)) by {
        assert forall|i: int| 0 <= i < w.len() implies w[i] <= '\u{7f}' by {
            assert(lower_or_digit(w[i]));
        }
    }
    assert(w.map_values(|c: char| ascii_lower(c)) =~= w) by {
        assert forall|i: int| 0 <= i < w.len() implies ascii_lower(w[i]) == w[i] by {
            assert(lower_or_digit(w[i]));
        }
    }
}

proof fn lemma_raised_lowered_upper_word(w: Seq<char>)
    requires
        upper_word(w),
    ensures
        lowered(w) == w.map_values(|c: char| ascii_lower(c)),
        lower_word(lowered(w)),
        raised(lowered(w)) == w,
{
    let l = w.map_values(|c: char| ascii_lower(c));
    assert(all_ascii(w)) by {
        assert forall|i: int| 0 <= i < w.len() implies w[i] <= '\u{7f}' by {
            assert(upper_or_digit(w[i]));
        }
    }
    assert forall|i: int| 0 <= i < l.len() implies lower_or_digit(#[trigger] l[i]) && l[i] <= '\u{7f}'
        && ascii_upper(l[i]) == w[i] by {
        assert(upper_or_digit(w[i]));
        assert(l[i] == ascii_lower(w[i]));
    }
    assert(all_ascii(l));
    assert(l.map_values(|c: char| ascii_upper(c)) =~= w);
}

proof fn lemma_capitalize_lowered(w: Seq<char>)
    requires
        capital_word(w),
    ensures
        lowered(w).len() > 0,
        capitalize(lowered(w)) == w,
{
    let l = w.map_values(|c: char| ascii_lower(c));
    assert(all_ascii(w)) by {
        assert forall|i: int| 0 <= i < w.len() implies w[i] <= '\u{7f}' by {
            if i > 0 {
                assert(lower_or_digit(w[i]));
            }
        }
    }
    assert(lowered(w) == l);
    assert(l[0] == ascii_lower(w[0]));
    assert(l[0] <= '\u{7f}');
    assert(ascii_upper(l[0]) == w[0]);
    assert(upper_first(l[0]) == seq![w[0]]);
    assert(l.skip(1) =~= w.skip(1)) by {
        assert forall|i: int| 0 <= i < w.len() - 1 implies l.skip(1)[i] == w.skip(1)[i] by {
            assert(lower_or_digit(w[i + 1]));
        }
    }
    assert(seq![w[0]] + w.skip(1) =~= w);
}

/// Characters that are not uppercase extend the word in progress.
proof fn lemma_camel_state_tail(x: Seq<char>, w: Seq<char>)
    requires
        forall|j: int| 0 <= j < w.len() ==> !upper_char(#[trigger] w[j]),
    ensures
        camel_state(x + w) == (camel_state(x).0, camel_state(x).1 + w),
    decreases w.len(),
{
    if w.len() == 0 {
        assert(x + w =~= x);
        assert(camel_state(x).1 + w =~= camel_state(x).1);
    } else {
        let w0 = w.drop_last();
        assert forall|j: int| 0 <= j < w0.len() implies !upper_char(#[trigger] w0[j]) by {
            assert(w0[j] == w[j]);
        }
        lemma_camel_state_tail(x, w0);
        assert((x + w).drop_last() =~= x + w0);
        assert((x + w).last() == w[w.len() - 1]);
        assert((camel_state(x).1 + w0).push(w.last()) =~= camel_state(x).1 + w);
    }
}

/// A capitalised word after a word in progress starts a new word.
proof fn lemma_camel_state_word(x: Seq<char>, w: Seq<char>)
    requires
        capital_word(w),
        camel_state(x).1.len() > 0,
    ensures
        camel_state(x + w) == (camel_state(x).0.push(camel_state(x).1), w),
{
    let x1 = x.push(w[0]);
    assert(x1.drop_last() =~= x);
    assert(x1.last() == w[0]);
    assert(upper_char(w[0]));
    assert(camel_state(x1) == (camel_state(x).0.push(camel_state(x).1), seq![w[0]]));
    let t = w.skip(1);
    assert forall|j: int| 0 <= j < t.len() implies !upper_char(#[trigger] t[j]) by {
        assert(t[j] == w[j + 1]);
        assert(lower_or_digit(w[j + 1]));
    }
    lemma_camel_state_tail(x1, t);
    assert(x1 + t =~= x + w);
    assert(seq![w[0]] + t =~= w);
}

/// Reading words that each begin with a capital (after a first word with
/// no capital past its first character) splits them back apart.
proof fn lemma_camel_state_concat(ws: Seq<Seq<char>>)
    requires
        ws.len() >= 1,
        ws[0].len() > 0,
        forall|j: int| 1 <= j < ws[0].len() ==> lower_or_digit(#[trigger] ws[0][j]),
        forall|i: int| 1 <= i < ws.len() ==> capital_word(#[trigger] ws[i]),
    ensures
        camel_state(concat_all(ws)) == (ws.drop_last(), ws.last()),
    decreases ws.len(),
{
    if ws.len() == 1 {
        let w = ws[0];
        let c0 = seq![w[0]];
        assert(c0.drop_last() =~= Seq::<char>::empty());
        assert(c0.last() == w[0]);
        assert(camel_state(Seq::<char>::empty()) == (Seq::<Seq<char>>::empty(), Seq::<char>::empty()));
        assert(Seq::<char>::empty().push(w[0]) =~= c0);
        assert(camel_state(c0) == (Seq::<Seq<char>>::empty(), c0));
        let t = w.skip(1);
        assert forall|j: int| 0 <= j < t.len() implies !upper_char(#[trigger] t[j]) by {
            assert(t[j] == w[j + 1]);
            assert(lower_or_digit(w[j + 1]));
        }
        lemma_camel_state_tail(c0, t);
        assert(c0 + t =~= w);
        assert(ws.drop_last() =~= Seq::<Seq<char>>::empty());
        assert(concat_all(Seq::<Seq<char>>::empty()) == Seq::<char>::empty());
        assert(ws.last() == w);
        assert(concat_all(ws) =~= w);
    } else {
        let prev = ws.drop_last();
        assert(prev[0] == ws[0]);
        assert forall|i: int| 1 <= i < prev.len() implies capital_word(#[trigger] prev[i]) by {
            assert(prev[i] == ws[i]);
        }
        lemma_camel_state_concat(prev);
        assert(prev.last() == ws[ws.len() - 2]);
        assert(prev.last().len() > 0) by {
            if ws.len() - 2 >= 1 {
                assert(capital_word(ws[ws.len() - 2]));
            }
        }
        assert(capital_word(ws[ws.len() - 1]));
        lemma_camel_state_word(concat_all(prev), ws.last());
        assert(prev.drop_last().push(prev.last()) =~= prev);
    }
}

/// Capitalising the lowered capitalised words gives them back.
proof fn lemma_concat_capitalized_lowered(ws: Seq<Seq<char>>)
    requires
        forall|i: int| 0 <= i < ws.len() ==> capital_word(#[trigger] ws[i]),
    ensures
        concat_capitalized(lower_all(ws)) == concat_all(ws),
    decreases ws.len(),
{
    if ws.len() > 0 {
        let prev = ws.drop_last();
        assert forall|i: int| 0 <= i < prev.len() implies capital_word(#[trigger] prev[i]) by {
            assert(prev[i] == ws[i]);
        }
        lemma_concat_capitalized_lowered(prev);
        assert(lower_all(ws).drop_last() =~= lower_all(prev));
        assert(capital_word(ws[ws.len() - 1]));
        lemma_capitalize_lowered(ws.last());
    }
}

/// A camelCase identifier (a word of lowercase letters, then words that
/// each begin with a capital) split into words and joined again in
/// camelCase is the identifier itself; the words are non-empty and
/// lowercase.
pub proof fn lemma_camel_split_join(ws: Seq<Seq<char>>)
    requires
        ws.len() >= 1,
        lower_word(ws[0]),
        forall|i: int| 1 <= i < ws.len() ==> capital_word(#[trigger] ws[i]),
    ensures
        join_words_spec(
            CaseFormat::CamelCase,
            split_words_spec(CaseFormat::CamelCase, concat_all(ws)),
            seq![],
            seq![],
        ) == concat_all(ws),
        forall|i: int|
            0 <= i < split_words_spec(CaseFormat::CamelCase, concat_all(ws)).len() ==> (#[trigger] split_words_spec(
                CaseFormat::CamelCase,
                concat_all(ws),
            )[i]).len() > 0 && lowered(split_words_spec(CaseFormat::CamelCase, concat_all(ws))[i])
                == split_words_spec(CaseFormat::CamelCase, concat_all(ws))[i],
{
    assert forall|j: int| 1 <= j < ws[0].len() implies lower_or_digit(#[trigger] ws[0][j]) by {}
    lemma_camel_state_concat(ws);
    assert(ws.drop_last().push(ws.last()) =~= ws);
    let sp = lower_all(ws);
    assert(split_words_spec(CaseFormat::CamelCase, concat_all(ws)) == sp);
    lemma_lowered_lower_word(ws[0]);
    let rest = ws.skip(1);
    assert forall|i: int| 0 <= i < rest.len() implies capital_word(#[trigger] rest[i]) by {
        assert(rest[i] == ws[i + 1]);
    }
    lemma_concat_capitalized_lowered(rest);
    assert(sp.skip(1) =~= lower_all(rest));
    lemma_concat_all_first(ws);
    assert forall|i: int| 0 <= i < sp.len() implies (#[trigger] sp[i]).len() > 0 && lowered(sp[i])
        == sp[i] by {
        if i == 0 {
        } else {
            assert(capital_word(ws[i]));
            lemma_capitalize_lowered(ws[i]);
            lemma_lowered_capital(ws[i]);
        }
    }
}

/// A PascalCase identifier (words that each begin with a capital) split
/// into words and joined again in PascalCase is the identifier itself; the
/// words are non-empty and lowercase.
pub proof fn lemma_pascal_split_join(ws: Seq<Seq<char>>)
    requires
        ws.len() >= 1,
        forall|i: int| 0 <= i < ws.len() ==> capital_word(#[trigger] ws[i]),
    ensures
        join_words_spec(
            CaseFormat::PascalCase,
            split_words_spec(CaseFormat::PascalCase, concat_all(ws)),
            seq![],
            seq![],
        ) == concat_all(ws),
        forall|i: int|
            0 <= i < split_words_spec(CaseFormat::PascalCase, concat_all(ws)).len() ==> (#[trigger] split_words_spec(
                CaseFormat::PascalCase,
                concat_all(ws),
            )[i]).len() > 0 && lowered(split_words_spec(CaseFormat::PascalCase, concat_all(ws))[i])
                == split_words_spec(CaseFormat::PascalCase, concat_all(ws))[i],
{
    assert(capital_word(ws[0]));
    assert forall|j: int| 1 <= j < ws[0].len() implies lower_or_digit(#[trigger] ws[0][j]) by {}
    lemma_camel_state_concat(ws);
    assert(ws.drop_last().push(ws.last()) =~= ws);
    let sp = lower_all(ws);
    assert(split_words_spec(CaseFormat::PascalCase, concat_all(ws)) == sp);
    lemma_concat_capitalized_lowered(ws);
    assert forall|i: int| 0 <= i < sp.len() implies (#[trigger] sp[i]).len() > 0 && lowered(sp[i])
        == sp[i] by {
        assert(capital_word(ws[i]));
        lemma_capitalize_lowered(ws[i]);
        lemma_lowered_capital(ws[i]);
    }
}

/// A lowered capitalised word is a lowercase word.
proof fn lemma_lowered_capital(w: Seq<char>)
    requires
        capital_word(w),
    ensures
        lower_word(lowered(w)),
        lowered(lowered(w)) == lowered(w),
{
    let l = w.map_values(|c: char| ascii_lower(c));
    assert(all_ascii(w)) by {
        assert forall|i: int| 0 <= i < w.len() implies w[i] <= '\u{7f}' by {
            if i > 0 {
                assert(lower_or_digit(w[i]));
            }
        }
    }
    assert forall|i: int| 0 <= i < l.len() implies lower_or_digit(#[trigger] l[i]) by {
        if i > 0 {
            assert(lower_or_digit(w[i]));
        }
    }
    lemma_lowered_lower_word(l);
}

/// The first word leads the words written one after another.
proof fn lemma_concat_all_first(ws: Seq<Seq<char>>)
    requires
        ws.len() >= 1,
    ensures
        concat_all(ws) == ws[0] + concat_all(ws.skip(1)),
    decreases ws.len(),
{
    if ws.len() == 1 {
        assert(ws.skip(1) =~= Seq::<Seq<char>>::empty());
        assert(ws.drop_last() =~= Seq::<Seq<char>>::empty());
        assert(concat_all(Seq::<Seq<char>>::empty()) == Seq::<char>::empty());
        assert(ws.last() == ws[0]);
        assert(concat_all(ws) =~= ws[0]);
        assert(ws[0] + concat_all(ws.skip(1)) =~= ws[0]);
    } else {
        let prev = ws.drop_last();
        lemma_concat_all_first(prev);
        assert(prev.skip(1) =~= ws.skip(1).drop_last());
        assert(ws.skip(1).last() == ws.last());
        assert(prev[0] == ws[0]);
        assert(ws[0] + concat_all(prev.skip(1)) + ws.last() =~= ws[0] + (concat_all(prev.skip(1)) + ws.last()));
    }
}

/// The separator of a format that writes one between words.
pub open spec fn sep_of(f: CaseFormat) -> char {
    match f {
        CaseFormat::SnakeCase | CaseFormat::ScreamingSnakeCase => '_',
        _ => '-',
    }
}

proof fn lemma_words_without_sep(ws: Seq<Seq<char>>, sep: char)
    requires
        sep == '_' || sep == '-',
        forall|i: int| 0 <= i < ws.len() ==> lower_word(#[trigger] ws[i]) || upper_word(ws[i]),
    ensures
        forall|i: int| 0 <= i < ws.len() ==> (#[trigger] ws[i]).len() > 0 && !ws[i].contains(sep),
{
    assert forall|i: int| 0 <= i < ws.len() implies (#[trigger] ws[i]).len() > 0 && !ws[i].contains(sep) by {
        if ws[i].contains(sep) {
            let j = choose|j: int| 0 <= j < ws[i].len() && ws[i][j] == sep;
            if lower_word(ws[i]) {
                assert(lower_or_digit(ws[i][j]));
            } else {
                assert(upper_or_digit(ws[i][j]));
            }
        }
    }
}

/// A snake_case or kebab-case identifier (lowercase words joined by the
/// separator) split into words and joined again is the identifier itself;
/// the words are non-empty and lowercase.
pub proof fn lemma_lower_sep_split_join(f: CaseFormat, ws: Seq<Seq<char>>)
    requires
        f == CaseFormat::SnakeCase || f == CaseFormat::KebabCase,
        ws.len() >= 1,
        forall|i: int| 0 <= i < ws.len() ==> lower_word(#[trigger] ws[i]),
    ensures
        join_words_spec(f, split_words_spec(f, join(ws, seq![sep_of(f)])), seq![], seq![]) == join(
            ws,
            seq![sep_of(f)],
        ),
        split_words_spec(f, join(ws, seq![sep_of(f)])) == ws,
        forall|i: int| 0 <= i < ws.len() ==> lowered(#[trigger] ws[i]) == ws[i],
{
    let sep = sep_of(f);
    lemma_words_without_sep(ws, sep);
    lemma_sep_state_join(ws, sep);
    assert(ws.drop_last().push(ws.last()) =~= ws);
    assert forall|i: int| 0 <= i < ws.len() implies lowered(#[trigger] ws[i]) == ws[i] by {
        lemma_lowered_lower_word(ws[i]);
    }
    assert(lower_all(ws) =~= ws);
}

/// A SCREAMING_SNAKE_CASE or SCREAMING-KEBAB-CASE identifier (uppercase
/// words joined by the separator) split into words and joined again is
/// the identifier itself; the words are non-empty and lowercase.
pub proof fn lemma_upper_sep_split_join(f: CaseFormat, ws: Seq<Seq<char>>)
    requires
        f == CaseFormat::ScreamingSnakeCase || f == CaseFormat::ScreamingKebabCase,
        ws.len() >= 1,
        forall|i: int| 0 <= i < ws.len() ==> upper_word(#[trigger] ws[i]),
    ensures
        join_words_spec(f, split_words_spec(f, join(ws, seq![sep_of(f)])), seq![], seq![]) == join(
            ws,
            seq![sep_of(f)],
        ),
        forall|i: int|
            0 <= i < split_words_spec(f, join(ws, seq![sep_of(f)])).len() ==> (#[trigger] split_words_spec(
                f,
                join(ws, seq![sep_of(f)]),
            )[i]).len() > 0 && lowered(split_words_spec(f, join(ws, seq![sep_of(f)]))[i])
                == split_words_spec(f, join(ws, seq![sep_of(f)]))[i],
{
    let sep = sep_of(f);
    lemma_words_without_sep(ws, sep);
    lemma_sep_state_join(ws, sep);
    assert(ws.drop_last().push(ws.last()) =~= ws);
    let sp = lower_all(ws);
    assert(split_words_spec(f, join(ws, seq![sep])) == sp);
    assert forall|i: int| 0 <= i < sp.len() implies (#[trigger] sp[i]).len() > 0 && lowered(sp[i])
        == sp[i] && raised(sp[i]) == ws[i] by {
        lemma_raised_lowered_upper_word(ws[i]);
        lemma_lowered_lower_word(sp[i]);
    }
    assert(upper_all(sp) =~= ws);
}

} // verus!

verus! {

/// Joined words begin with the first word, followed by the separator.
proof fn lemma_join_first(ws: Seq<Seq<char>>, sep: Seq<char>)
    requires
        ws.len() >= 2,
        sep.len() >= 1,
    ensures
        join(ws, sep).len() > ws[0].len(),
        join(ws, sep).take(ws[0].len() as int) == ws[0],
        join(ws, sep)[ws[0].len() as int] == sep[0],
    decreases ws.len(),
{
    let init = ws.drop_last();
    if ws.len() == 2 {
        assert(init.len() == 1);
        assert(join(init, sep) == init[0]);
        assert(init[0] == ws[0]);
        let j = ws[0] + sep + ws.last();
        assert(join(ws, sep) == j);
        assert(j.take(ws[0].len() as int) =~= ws[0]);
        assert(j[ws[0].len() as int] == sep[0]);
    } else {
        lemma_join_first(init, sep);
        assert(init[0] == ws[0]);
        let j = join(init, sep) + sep + ws.last();
        assert(join(ws, sep) == j);
        assert(j.take(ws[0].len() as int) =~= join(init, sep).take(ws[0].len() as int));
        assert(j[ws[0].len() as int] == join(init, sep)[ws[0].len() as int]);
    }
}

/// The capitalised words written out begin with the first of them.
proof fn lemma_concat_capitalized_first(ws: Seq<Seq<char>>)
    requires
        ws.len() >= 1,
    ensures
        concat_capitalized(ws).len() >= capitalize(ws[0]).len(),
        concat_capitalized(ws).take(capitalize(ws[0]).len() as int) == capitalize(ws[0]),
    decreases ws.len(),
{
    let init = ws.drop_last();
    if ws.len() == 1 {
        assert(init.len() == 0);
        assert(concat_capitalized(init) == Seq::<char>::empty());
        assert(ws.last() == ws[0]);
        assert(concat_capitalized(ws) =~= capitalize(ws[0]));
        assert(concat_capitalized(ws).take(capitalize(ws[0]).len() as int) =~= capitalize(ws[0]));
    } else {
        lemma_concat_capitalized_first(init);
        assert(init[0] == ws[0]);
        let c = concat_capitalized(init) + capitalize(ws.last());
        assert(concat_capitalized(ws) == c);
        assert(c.take(capitalize(ws[0]).len() as int) =~= concat_capitalized(init).take(
            capitalize(ws[0]).len() as int,
        ));
    }
}

/// A word that is already uppercase is left as it is by uppercasing.
proof fn lemma_raised_upper_word(w: Seq<char>)
    requires
        upper_word(w),
    ensures
        raised(w) == w,
{
    assert(all_ascii(w)) by {
        assert forall|i: int| 0 <= i < w.len() implies w[i] <= '\u{7f}' by {
            assert(upper_or_digit(w[i]));
        }
    }
    assert(w.map_values(|c: char| ascii_upper(c)) =~= w) by {
        assert forall|i: int| 0 <= i < w.len() implies ascii_upper(w[i]) == w[i] by {
            assert(upper_or_digit(w[i]));
        }
    }
}

/// The pattern that finds identifiers of a separator format is a word of
/// lowercase letters (uppercase for the screaming formats) followed by
/// one or more words of letters and digits, each after the separator; and
/// that separator is the character that joining words in the format
/// writes between them (`_` for the snake formats, `-` for the kebab
/// formats), so that splitting the joined text gives the words back.
pub proof fn lemma_separator_pattern(f: CaseFormat, ws: Seq<Seq<char>>)
    requires
        f == CaseFormat::SnakeCase || f == CaseFormat::KebabCase || f
            == CaseFormat::ScreamingSnakeCase || f == CaseFormat::ScreamingKebabCase,
        ws.len() >= 2,
        forall|i: int|
            0 <= i < ws.len() ==> if f == CaseFormat::SnakeCase || f == CaseFormat::KebabCase {
                lower_word(#[trigger] ws[i])
            } else {
                upper_word(ws[i])
            },
    ensures
        ({
            let t = join_words_spec(f, ws, seq![], seq![]);
            let sep = t[ws[0].len() as int];
            &&& (f == CaseFormat::SnakeCase || f == CaseFormat::ScreamingSnakeCase) ==> sep == '_'
            &&& (f == CaseFormat::KebabCase || f == CaseFormat::ScreamingKebabCase) ==> sep == '-'
            &&& (f == CaseFormat::SnakeCase || f == CaseFormat::KebabCase) ==> pattern_spec(f)
                == "\\b[a-z]+(?:"@ + seq![sep] + "[a-z0-9]+)+\\b"@ && split_words_spec(f, t) == ws
            &&& (f == CaseFormat::ScreamingSnakeCase || f == CaseFormat::ScreamingKebabCase)
                ==> pattern_spec(f) == "\\b[A-Z]+(?:"@ + seq![sep] + "[A-Z0-9]+)+\\b"@
                && join_words_spec(f, split_words_spec(f, t), seq![], seq![]) == t
        }),
{
    let sep = sep_of(f);
    let t = join_words_spec(f, ws, seq![], seq![]);
    if f == CaseFormat::SnakeCase || f == CaseFormat::KebabCase {
        lemma_lower_sep_split_join(f, ws);
        assert(lower_all(ws) =~= ws);
    } else {
        lemma_upper_sep_split_join(f, ws);
        assert forall|i: int| 0 <= i < ws.len() implies raised(#[trigger] ws[i]) == ws[i] by {
            lemma_raised_upper_word(ws[i]);
        }
        assert(upper_all(ws) =~= ws);
    }
    assert(t == seq![] + join(ws, seq![sep]) + seq![]);
    assert(t =~= join(ws, seq![sep]));
    lemma_join_first(ws, seq![sep]);
    reveal_strlit("\\b[a-z]+(?:_[a-z0-9]+)+\\b");
    reveal_strlit("\\b[A-Z]+(?:_[A-Z0-9]+)+\\b");
    reveal_strlit("\\b[a-z]+(?:-[a-z0-9]+)+\\b");
    reveal_strlit("\\b[A-Z]+(?:-[A-Z0-9]+)+\\b");
    reveal_strlit("\\b[a-z]+(?:");
    reveal_strlit("[a-z0-9]+)+\\b");
    reveal_strlit("\\b[A-Z]+(?:");
    reveal_strlit("[A-Z0-9]+)+\\b");
    assert(pattern_spec(f) =~= if f == CaseFormat::SnakeCase || f == CaseFormat::KebabCase {
        "\\b[a-z]+(?:"@ + seq![sep] + "[a-z0-9]+)+\\b"@
    } else {
        "\\b[A-Z]+(?:"@ + seq![sep] + "[A-Z0-9]+)+\\b"@
    });
}

/// The pattern that finds camelCase identifiers is a word of lowercase
/// letters followed by one or more words that each begin with a capital
/// from `A` to `Z`; joining lowercase words in camelCase writes exactly
/// such a capital where each later word begins.
pub proof fn lemma_camel_pattern(ws: Seq<Seq<char>>)
    requires
        ws.len() >= 2,
        forall|i: int| 0 <= i < ws.len() ==> lower_word(#[trigger] ws[i]),
        forall|i: int| 1 <= i < ws.len() ==> 'a' <= (#[trigger] ws[i])[0] <= 'z',
    ensures
        ({
            let t = join_words_spec(CaseFormat::CamelCase, ws, seq![], seq![]);
            let c = t[ws[0].len() as int];
            &&& t.take(ws[0].len() as int) == ws[0]
            &&& 'A' <= c <= 'Z'
            &&& pattern_spec(CaseFormat::CamelCase) == "\\b[a-z]+(?:["@ + seq!['A', '-', 'Z']
                + "][a-z0-9]*)+\\b"@
        }),
{
    let t = join_words_spec(CaseFormat::CamelCase, ws, seq![], seq![]);
    lemma_lowered_lower_word(ws[0]);
    let rest = ws.skip(1);
    assert(rest[0] == ws[1]);
    lemma_concat_capitalized_first(rest);
    let w = ws[1];
    lemma_lowered_lower_word(w);
    assert(w[0] <= '\u{7f}');
    assert(capitalize(w) == upper_first(w[0]) + w.skip(1));
    assert(upper_first(w[0]) == seq![ascii_upper(w[0])]);
    assert(capitalize(w)[0] == ascii_upper(w[0]));
    assert(t == seq![] + (lowered(ws[0]) + concat_capitalized(rest)) + seq![]);
    assert(t =~= ws[0] + concat_capitalized(rest));
    assert(t[ws[0].len() as int] == concat_capitalized(rest)[0]);
    assert(concat_capitalized(rest)[0] == concat_capitalized(rest).take(capitalize(w).len() as int)[0]);
    assert(t.take(ws[0].len() as int) =~= ws[0]);
    reveal_strlit("\\b[a-z]+(?:[A-Z][a-z0-9]*)+\\b");
    reveal_strlit("\\b[a-z]+(?:[");
    reveal_strlit("][a-z0-9]*)+\\b");
    assert(pattern_spec(CaseFormat::CamelCase) =~= "\\b[a-z]+(?:["@ + seq!['A', '-', 'Z']
        + "][a-z0-9]*)+\\b"@);
}


/// Capitalised words written out are the first of them capitalised,
/// followed by the rest.
proof fn lemma_concat_capitalized_cons(ws: Seq<Seq<char>>)
    requires
        ws.len() >= 1,
    ensures
        concat_capitalized(ws) == capitalize(ws[0]) + concat_capitalized(ws.skip(1)),
    decreases ws.len(),
{
    let init = ws.drop_last();
    if ws.len() == 1 {
        assert(init.len() == 0);
        assert(ws.skip(1).len() == 0);
        assert(concat_capitalized(init) == Seq::<char>::empty());
        assert(concat_capitalized(ws.skip(1)) == Seq::<char>::empty());
        assert(concat_capitalized(ws) =~= capitalize(ws[0]) + concat_capitalized(ws.skip(1)));
    } else {
        lemma_concat_capitalized_cons(init);
        assert(init[0] == ws[0]);
        assert(init.skip(1) =~= ws.skip(1).drop_last());
        assert(ws.skip(1).last() == ws.last());
        assert(concat_capitalized(ws.skip(1)) == concat_capitalized(ws.skip(1).drop_last())
            + capitalize(ws.skip(1).last()));
        assert(concat_capitalized(ws) =~= capitalize(ws[0]) + concat_capitalized(ws.skip(1)));
    }
}

/// The pattern that finds PascalCase identifiers is a capital from `A` to
/// `Z` with lowercase letters or digits, followed by one or more words that
/// each begin with such a capital; joining lowercase words in PascalCase
/// writes a capital where the first word and where the second word begin.
pub proof fn lemma_pascal_pattern(ws: Seq<Seq<char>>)
    requires
        ws.len() >= 2,
        forall|i: int| 0 <= i < ws.len() ==> lower_word(#[trigger] ws[i]),
        forall|i: int| 0 <= i < ws.len() ==> 'a' <= (#[trigger] ws[i])[0] <= 'z',
    ensures
        ({
            let t = join_words_spec(CaseFormat::PascalCase, ws, seq![], seq![]);
            let n = ws[0].len() as int;
            &&& t.len() > n
            &&& 'A' <= t[0] <= 'Z'
            &&& t.subrange(1, n) == ws[0].skip(1)
            &&& 'A' <= t[n] <= 'Z'
            &&& pattern_spec(CaseFormat::PascalCase) == "\\b["@ + seq!['A', '-', 'Z']
                + "][a-z0-9]+(?:["@ + seq!['A', '-', 'Z'] + "][a-z0-9]*)+\\b"@
        }),
{
    let t = join_words_spec(CaseFormat::PascalCase, ws, seq![], seq![]);
    let n = ws[0].len() as int;
    assert(t =~= concat_capitalized(ws));
    lemma_concat_capitalized_cons(ws);
    let rest = ws.skip(1);
    assert(rest[0] == ws[1]);
    lemma_concat_capitalized_first(rest);
    let w0 = ws[0];
    let w1 = ws[1];
    assert(w0[0] <= '\u{7f}');
    assert(w1[0] <= '\u{7f}');
    assert(capitalize(w0) == upper_first(w0[0]) + w0.skip(1));
    assert(upper_first(w0[0]) == seq![ascii_upper(w0[0])]);
    assert(capitalize(w0).len() == n);
    assert(capitalize(w1) == upper_first(w1[0]) + w1.skip(1));
    assert(upper_first(w1[0]) == seq![ascii_upper(w1[0])]);
    assert(capitalize(w1)[0] == ascii_upper(w1[0]));
    assert(concat_capitalized(rest)[0] == concat_capitalized(rest).take(capitalize(w1).len() as int)[0]);
    assert(t[0] == capitalize(w0)[0]);
    assert(t[n] == concat_capitalized(rest)[0]);
    assert(t.subrange(1, n) =~= w0.skip(1));
    reveal_strlit("\\b[A-Z][a-z0-9]+(?:[A-Z][a-z0-9]*)+\\b");
    reveal_strlit("\\b[");
    reveal_strlit("][a-z0-9]+(?:[");
    reveal_strlit("][a-z0-9]*)+\\b");
    assert(pattern_spec(CaseFormat::PascalCase) =~= "\\b["@ + seq!['A', '-', 'Z']
        + "][a-z0-9]+(?:["@ + seq!['A', '-', 'Z'] + "][a-z0-9]*)+\\b"@);
}

} // verus!
