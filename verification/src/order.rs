//! The order of strings (`String`'s `Ord`: lexicographic by character,
//! which for UTF-8 text is also the order of the bytes) and sorted,
//! duplicate-free lists of strings.

use vstd::prelude::*;
use crate::text::{chars_of, owned, str_eq, strings_view};

verus! {

/// `a` sorts before `b`.
pub open spec fn lex_lt(a: Seq<char>, b: Seq<char>) -> bool
    decreases a.len(),
{
    if a.len() == 0 {
        b.len() > 0
    } else if b.len() == 0 {
        false
    } else if a[0] < b[0] {
        true
    } else if a[0] > b[0] {
        false
    } else {
        lex_lt(a.drop_first(), b.drop_first())
    }
}

pub proof fn lemma_lex_irreflexive(a: Seq<char>)
    ensures
        !lex_lt(a, a),
    decreases a.len(),
{
    if a.len() > 0 {
        lemma_lex_irreflexive(a.drop_first());
    }
}

pub proof fn lemma_lex_transitive(a: Seq<char>, b: Seq<char>, c: Seq<char>)
    requires
        lex_lt(a, b),
        lex_lt(b, c),
    ensures
        lex_lt(a, c),
    decreases a.len(),
{
    if a.len() > 0 && b.len() > 0 && c.len() > 0 {
        if a[0] == b[0] && b[0] == c[0] {
            lemma_lex_transitive(a.drop_first(), b.drop_first(), c.drop_first());
        }
    }
}

pub proof fn lemma_lex_total(a: Seq<char>, b: Seq<char>)
    ensures
        a == b || lex_lt(a, b) || lex_lt(b, a),
    decreases a.len(),
{
    if a.len() > 0 && b.len() > 0 && a[0] == b[0] {
        lemma_lex_total(a.drop_first(), b.drop_first());
        if a.drop_first() == b.drop_first() {
            assert(a =~= seq![a[0]] + a.drop_first());
            assert(b =~= seq![b[0]] + b.drop_first());
        }
    } else if a.len() == 0 && b.len() == 0 {
        assert(a =~= b);
    }
}

pub proof fn lemma_lex_asymmetric(a: Seq<char>, b: Seq<char>)
    requires
        lex_lt(a, b),
    ensures
        !lex_lt(b, a),
{
    if lex_lt(b, a) {
        lemma_lex_transitive(a, b, a);
        lemma_lex_irreflexive(a);
    }
}

/// Whether `a` sorts before `b`.
pub fn str_lt(a: &str, b: &str) -> (r: bool)
    ensures
        r == lex_lt(a@, b@),
{
    let x = chars_of(a);
    let y = chars_of(b);
    let mut i: usize = 0;
    assert(x@.skip(0) =~= x@);
    assert(y@.skip(0) =~= y@);
    while i < x.len() && i < y.len()
        invariant
            i <= x@.len(),
            i <= y@.len(),
            x@ == a@,
            y@ == b@,
            lex_lt(a@, b@) == lex_lt(x@.skip(i as int), y@.skip(i as int)),
        decreases x.len() - i,
    {
        let ghost xs = x@.skip(i as int);
        let ghost ys = y@.skip(i as int);
        assert(xs[0] == x@[i as int]);
        assert(ys[0] == y@[i as int]);
        if x[i] < y[i] {
            return true;
        }
        if x[i] > y[i] {
            return false;
        }
        assert(xs.drop_first() =~= x@.skip(i + 1));
        assert(ys.drop_first() =~= y@.skip(i + 1));
        i += 1;
    }
    assert(x@.skip(i as int).len() == x@.len() - i);
    i < y.len()
}

proof fn lemma_push_contains(s: Seq<Seq<char>>, e: Seq<char>, y: Seq<char>)
    ensures
        s.push(e).contains(y) <==> (s.contains(y) || y == e),
{
    if s.push(e).contains(y) {
        let k = choose|k: int| 0 <= k < s.push(e).len() && s.push(e)[k] == y;
        if k < s.len() {
            assert(s[k] == y);
        }
    }
    if s.contains(y) {
        let k = choose|k: int| 0 <= k < s.len() && s[k] == y;
        assert(s.push(e)[k] == y);
    }
    if y == e {
        assert(s.push(e)[s.len() as int] == y);
    }
}

/// A strictly increasing list of strings.
pub open spec fn strictly_sorted(s: Seq<Seq<char>>) -> bool {
    forall|i: int, j: int| 0 <= i < j < s.len() ==> lex_lt(s[i], s[j])
}

/// The strings of `v`, sorted, each once, as `sort` followed by `dedup`
/// leaves them.
pub fn sorted_unique(v: &[String]) -> (r: Vec<String>)
    ensures
        strictly_sorted(strings_view(r@)),
        forall|x: Seq<char>| strings_view(r@).contains(x) <==> strings_view(v@).contains(x),
{
    let mut out: Vec<String> = Vec::new();
    let mut i: usize = 0;
    while i < v.len()
        invariant
            i <= v@.len(),
            strictly_sorted(strings_view(out@)),
            forall|x: Seq<char>|
                strings_view(out@).contains(x) <==> strings_view(v@.take(i as int)).contains(x),
        decreases v.len() - i,
    {
        let x = v[i].as_str();
        let ghost before = strings_view(out@);
        assert(strings_view(v@.take(i + 1)) =~= strings_view(v@.take(i as int)).push(x@));
        let mut p: usize = 0;
        while p < out.len() && str_lt(out[p].as_str(), x)
            invariant
                p <= out@.len(),
                before == strings_view(out@),
                forall|j: int| 0 <= j < p ==> lex_lt(#[trigger] before[j], x@),
            decreases out.len() - p,
        {
            p += 1;
        }
        if p < out.len() && str_eq(out[p].as_str(), x) {
            assert(before[p as int] == x@);
            assert forall|y: Seq<char>| strings_view(out@).contains(y) <==> strings_view(
                v@.take(i + 1),
            ).contains(y) by {
                lemma_push_contains(strings_view(v@.take(i as int)), x@, y);
                if y == x@ {
                    assert(before.contains(before[p as int]));
                }
            }
        } else {
            proof {
                if p < out@.len() {
                    lemma_lex_total(before[p as int], x@);
                }
            }
            out.insert(p, owned(x));
            let ghost after = strings_view(out@);
            assert(after =~= before.take(p as int).push(x@) + before.skip(p as int));
            assert forall|a: int, b: int| 0 <= a < b < after.len() implies lex_lt(
                after[a],
                after[b],
            ) by {
                if b < p {
                    assert(after[a] == before[a] && after[b] == before[b]);
                } else if b == p {
                    assert(after[a] == before[a]);
                } else if a == p {
                    assert(after[b] == before[b - 1]);
                    if b - 1 > p {
                        lemma_lex_transitive(x@, before[p as int], before[b - 1]);
                    }
                } else if a < p {
                    assert(after[a] == before[a] && after[b] == before[b - 1]);
                    if b - 1 >= p {
                        assert(lex_lt(before[a], before[b - 1]));
                    }
                } else {
                    assert(after[a] == before[a - 1] && after[b] == before[b - 1]);
                }
            }
            assert forall|y: Seq<char>| after.contains(y) <==> strings_view(v@.take(i + 1)).contains(
                y,
            ) by {
                lemma_push_contains(strings_view(v@.take(i as int)), x@, y);
                if after.contains(y) {
                    let k = choose|k: int| 0 <= k < after.len() && after[k] == y;
                    if k < p {
                        assert(before.contains(before[k]));
                    } else if k > p {
                        assert(before.contains(before[k - 1]));
                    }
                }
                if before.contains(y) {
                    let k = choose|k: int| 0 <= k < before.len() && before[k] == y;
                    if k < p {
                        assert(after[k] == y);
                    } else {
                        assert(after[k + 1] == y);
                    }
                }
                if y == x@ {
                    assert(after[p as int] == y);
                }
            }
        }
        i += 1;
    }
    assert(v@.take(v@.len() as int) == v@);
    out
}

} // verus!

verus! {

/// Path `a` is processed before `b`: it has more components, or as many
/// and comes first in path order.
pub open spec fn deeper_first(a: Seq<char>, b: Seq<char>) -> bool {
    crate::path::components_of(a).len() > crate::path::components_of(b).len() || (
    crate::path::components_of(a).len() == crate::path::components_of(b).len()
        && crate::path::path_before(a, b))
}

/// Index `x` inserted into the order `s` of `paths`: after every index
/// whose path does not come after it.
pub open spec fn insert_index(paths: Seq<Seq<char>>, s: Seq<usize>, x: usize) -> Seq<usize>
    decreases s.len(),
{
    if s.len() == 0 {
        seq![x]
    } else if !deeper_first(paths[x as int], paths[s[0] as int]) {
        seq![s[0]] + insert_index(paths, s.drop_first(), x)
    } else {
        seq![x] + s
    }
}

/// The processing order of the first `n` paths, as indices: deepest
/// first, then in path order, ties keeping their order.
pub open spec fn depth_order(paths: Seq<Seq<char>>, n: nat) -> Seq<usize>
    decreases n,
{
    if n == 0 {
        seq![]
    } else {
        insert_index(paths, depth_order(paths, (n - 1) as nat), (n - 1) as usize)
    }
}

proof fn lemma_insert_index_at(paths: Seq<Seq<char>>, s: Seq<usize>, x: usize, p: int)
    requires
        0 <= p <= s.len(),
        forall|j: int| 0 <= j < p ==> !deeper_first(paths[x as int], paths[#[trigger] s[j] as int]),
        p == s.len() || deeper_first(paths[x as int], paths[s[p] as int]),
    ensures
        insert_index(paths, s, x) == s.take(p).push(x) + s.skip(p),
    decreases s.len(),
{
    if s.len() == 0 {
        assert(s.take(p).push(x) + s.skip(p) =~= seq![x]);
    } else if p == 0 {
        assert(s.take(0).push(x) + s.skip(0) =~= seq![x] + s);
    } else {
        let t = s.drop_first();
        assert forall|j: int| 0 <= j < p - 1 implies !deeper_first(
            paths[x as int],
            paths[#[trigger] t[j] as int],
        ) by {
            assert(t[j] == s[j + 1]);
        }
        if p < s.len() {
            assert(t[p - 1] == s[p]);
        }
        lemma_insert_index_at(paths, t, x, p - 1);
        assert(seq![s[0]] + (t.take(p - 1).push(x) + t.skip(p - 1)) =~= s.take(p).push(x) + s.skip(
            p,
        ));
    }
}

/// Whether path `k` comes before path `o`, by depth then path order.
fn goes_first(depth: &Vec<usize>, paths: &[String], k: usize, o: usize) -> (r: bool)
    requires
        k < paths@.len(),
        o < paths@.len(),
        depth@.len() == paths@.len(),
        forall|j: int| 0 <= j < paths@.len() ==> depth@[j] == crate::path::components_of(#[trigger] strings_view(paths@)[j]).len(),
    ensures
        r == deeper_first(strings_view(paths@)[k as int], strings_view(paths@)[o as int]),
{
    assert(depth@[k as int] == crate::path::components_of(strings_view(paths@)[k as int]).len());
    assert(depth@[o as int] == crate::path::components_of(strings_view(paths@)[o as int]).len());
    depth[k] > depth[o] || (depth[k] == depth[o] && crate::path::path_lt(
        paths[k].as_str(),
        paths[o].as_str(),
    ))
}

/// The order in which to process files: deepest first, then in path
/// order, as positions in `paths`. Renaming the deepest entries first keeps
/// the paths of the others valid.
pub fn depth_first_order(paths: &[String]) -> (r: Vec<usize>)
    ensures
        r@ == depth_order(strings_view(paths@), paths@.len() as nat),
{
    let ghost ps = strings_view(paths@);
    let mut depth: Vec<usize> = Vec::new();
    let mut i: usize = 0;
    while i < paths.len()
        invariant
            i <= paths@.len(),
            ps == strings_view(paths@),
            depth@.len() == i,
            forall|j: int| 0 <= j < i ==> depth@[j] == crate::path::components_of(#[trigger] ps[j]).len(),
        decreases paths.len() - i,
    {
        let c = crate::path::path_components(paths[i].as_str());
        proof {
            assert(strings_view(c@).len() == c@.len());
        }
        depth.push(c.len());
        i += 1;
    }
    let mut out: Vec<usize> = Vec::new();
    let mut k: usize = 0;
    while k < paths.len()
        invariant
            k <= paths@.len(),
            ps == strings_view(paths@),
            depth@.len() == paths@.len(),
            forall|j: int| 0 <= j < paths@.len() ==> depth@[j] == crate::path::components_of(#[trigger] ps[j]).len(),
            out@ == depth_order(ps, k as nat),
            forall|j: int| 0 <= j < out@.len() ==> (#[trigger] out@[j]) < k,
        decreases paths.len() - k,
    {
        let ghost before = out@;
        let mut p: usize = 0;
        while p < out.len() && !goes_first(&depth, paths, k, out[p])
            invariant
                p <= out@.len(),
                before == out@,
                k < paths@.len(),
                ps == strings_view(paths@),
                depth@.len() == paths@.len(),
                forall|j: int| 0 <= j < paths@.len() ==> depth@[j] == crate::path::components_of(#[trigger] ps[j]).len(),
                forall|j: int| 0 <= j < out@.len() ==> (#[trigger] out@[j]) < k,
                forall|j: int| 0 <= j < p ==> !deeper_first(ps[k as int], ps[#[trigger] before[j] as int]),
            decreases out.len() - p,
        {
            p += 1;
        }
        proof {
            lemma_insert_index_at(ps, before, k as usize, p as int);
        }
        out.insert(p, k);
        assert(out@ =~= before.take(p as int).push(k) + before.skip(p as int));
        assert forall|j: int| 0 <= j < out@.len() implies (#[trigger] out@[j]) < k + 1 by {
            if j < p {
                assert(out@[j] == before[j]);
            } else if j > p {
                assert(out@[j] == before[j - 1]);
            }
        }
        k += 1;
    }
    out
}

} // verus!
