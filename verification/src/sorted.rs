//! Sorted sets of texts: the distinct values of a list in string order, as an
//! ordered set of strings holds them.

use std::cmp::Ordering;
use vstd::prelude::*;

use crate::text::{lemma_lex_cmp_equal, lemma_lex_cmp_flip, lex_cmp, lex_compare, lex_lt, chars_of, texts, ix};

verus! {

/// String order is transitive.
pub proof fn lemma_lex_lt_trans(a: Seq<char>, b: Seq<char>, c: Seq<char>)
    requires
        lex_lt(a, b),
        lex_lt(b, c),
    ensures
        lex_lt(a, c),
    decreases a.len(),
{
    if a.len() > 0 && b.len() > 0 && c.len() > 0 && a[0] == b[0] && b[0] == c[0] {
        lemma_lex_lt_trans(a.drop_first(), b.drop_first(), c.drop_first());
    }
}

/// String order never holds both ways.
pub proof fn lemma_lex_lt_asym(a: Seq<char>, b: Seq<char>)
    ensures
        !(lex_lt(a, b) && lex_lt(b, a)),
        !lex_lt(a, a),
{
    lemma_lex_cmp_flip(a, b);
    lemma_lex_cmp_equal(a, a);
}

/// Strictly increasing in string order.
pub open spec fn strictly_sorted(s: Seq<Seq<char>>) -> bool {
    forall|i: int, j: int| 0 <= i < j < s.len() ==> lex_lt(#[trigger] s[i], #[trigger] s[j])
}

/// The values of a set in increasing string order.
pub open spec fn sorted_of_set(st: Set<Seq<char>>) -> Seq<Seq<char>> {
    choose|s: Seq<Seq<char>>| strictly_sorted(s) && s.to_set() == st
}

/// The distinct values of `xs` in increasing string order.
pub open spec fn sorted_set(xs: Seq<Seq<char>>) -> Seq<Seq<char>> {
    sorted_of_set(xs.to_set())
}

/// Two strictly increasing lists with the same values are the same list.
pub proof fn lemma_sorted_unique(s1: Seq<Seq<char>>, s2: Seq<Seq<char>>)
    requires
        strictly_sorted(s1),
        strictly_sorted(s2),
        s1.to_set() == s2.to_set(),
    ensures
        s1 == s2,
    decreases s1.len(),
{
    if s1.len() == 0 {
        if s2.len() > 0 {
            assert(s2.to_set().contains(s2[0]));
        }
        assert(s1 =~= s2);
    } else {
        assert(s1.to_set().contains(s1[0]));
        if s2.len() == 0 {
            assert(false);
        }
        assert(s2.to_set().contains(s2[0]));
        let m = choose|m: int| 0 <= m < s2.len() && s2[m] == s1[0];
        let k = choose|k: int| 0 <= k < s1.len() && s1[k] == s2[0];
        if s1[0] != s2[0] {
            assert(m > 0 && k > 0);
            assert(lex_lt(s2[0], s2[m]));
            assert(lex_lt(s1[0], s1[k]));
            lemma_lex_lt_asym(s1[0], s2[0]);
        }
        let t1 = s1.drop_first();
        let t2 = s2.drop_first();
        assert forall|x: Seq<char>| t1.to_set().contains(x) implies t2.to_set().contains(x) by {
            let i = choose|i: int| 0 <= i < t1.len() && t1[i] == x;
            assert(s1[i + 1] == x);
            assert(s1.to_set().contains(x));
            let j = choose|j: int| 0 <= j < s2.len() && s2[j] == x;
            if j == 0 {
                assert(lex_lt(s1[0], s1[i + 1]));
                lemma_lex_lt_asym(x, x);
            }
            assert(t2[j - 1] == x);
        }
        assert forall|x: Seq<char>| t2.to_set().contains(x) implies t1.to_set().contains(x) by {
            let i = choose|i: int| 0 <= i < t2.len() && t2[i] == x;
            assert(s2[i + 1] == x);
            assert(s2.to_set().contains(x));
            let j = choose|j: int| 0 <= j < s1.len() && s1[j] == x;
            if j == 0 {
                assert(lex_lt(s2[0], s2[i + 1]));
                lemma_lex_lt_asym(x, x);
            }
            assert(t1[j - 1] == x);
        }
        assert(t1.to_set() =~= t2.to_set());
        lemma_sorted_unique(t1, t2);
        assert(s1 =~= seq![s1[0]] + t1);
        assert(s2 =~= seq![s2[0]] + t2);
    }
}

/// A strictly increasing list with the values of `xs` is `sorted_set(xs)`.
pub proof fn lemma_is_sorted_set(t: Seq<Seq<char>>, xs: Seq<Seq<char>>)
    requires
        strictly_sorted(t),
        t.to_set() == xs.to_set(),
    ensures
        sorted_set(xs) == t,
{
    let s = sorted_set(xs);
    assert(strictly_sorted(s) && s.to_set() == xs.to_set());
    lemma_sorted_unique(s, t);
}

/// Adds a text to a strictly increasing list of strings, at its place, unless
/// it is already there.
pub fn insert_sorted(v: &mut Vec<String>, s: &str)
    requires
        strictly_sorted(texts(old(v)@)),
    ensures
        strictly_sorted(texts(final(v)@)),
        texts(final(v)@).to_set() == texts(old(v)@).to_set().insert(s@),
{
    let ghost ts = texts(v@);
    let sv = chars_of(s);
    let mut p: usize = 0;
    while p < v.len()
        invariant
            ts == texts(v@),
            v@ == old(v)@,
            strictly_sorted(ts),
            sv@ == s@,
            p <= v@.len(),
            forall|j: int| 0 <= j < p ==> lex_lt(#[trigger] ts[j], s@),
        ensures
            ts == texts(v@),
            v@ == old(v)@,
            p <= v@.len(),
            forall|j: int| 0 <= j < p ==> lex_lt(#[trigger] ts[j], s@),
            p < v@.len() ==> !lex_lt(ts[ix(p)], s@),
        decreases v.len() - p,
    {
        let w = chars_of(v[p].as_str());
        let o = lex_compare(&w, &sv);
        assert(ts[ix(p)] == v@[ix(p)]@);
        match o {
            Ordering::Less => {},
            _ => {
                break;
            },
        }
        p += 1;
    }
    if p < v.len() {
        let w = chars_of(v[p].as_str());
        assert(ts[ix(p)] == v@[ix(p)]@);
        proof {
            lemma_lex_cmp_equal(w@, s@);
        }
        if crate::text::chars_eq(&w, &sv) {
            assert(ts.to_set().contains(s@));
            assert(ts.to_set().insert(s@) =~= ts.to_set());
            return;
        }
    }
    let ghost pos = ix(p);
    v.insert(p, crate::text::owned(s));
    proof {
        let nt = texts(v@);
        assert(nt =~= ts.insert(pos, s@));
        if pos < ts.len() {
            lemma_lex_cmp_flip(ts[pos], s@);
            assert(lex_lt(s@, ts[pos]));
        }
        assert forall|i: int, j: int| 0 <= i < j < nt.len() implies lex_lt(#[trigger] nt[i], #[trigger] nt[j]) by {
            if j < pos {
                assert(nt[i] == ts[i] && nt[j] == ts[j]);
            } else if j == pos {
                assert(nt[i] == ts[i] && nt[j] == s@);
            } else if i == pos {
                assert(nt[i] == s@ && nt[j] == ts[j - 1]);
                if j - 1 > pos {
                    lemma_lex_lt_trans(s@, ts[pos], ts[j - 1]);
                }
            } else if i < pos {
                assert(nt[i] == ts[i] && nt[j] == ts[j - 1]);
            } else {
                assert(nt[i] == ts[i - 1] && nt[j] == ts[j - 1]);
            }
        }
        assert(nt.to_set() =~= ts.to_set().insert(s@)) by {
            assert forall|x: Seq<char>| nt.to_set().contains(x) implies ts.to_set().insert(s@).contains(x) by {
                let i = choose|i: int| 0 <= i < nt.len() && nt[i] == x;
                if i < pos {
                    assert(ts[i] == x);
                } else if i > pos {
                    assert(ts[i - 1] == x);
                }
            }
            assert forall|x: Seq<char>| ts.to_set().insert(s@).contains(x) implies nt.to_set().contains(x) by {
                if x == s@ {
                    assert(nt[pos] == x);
                } else {
                    let i = choose|i: int| 0 <= i < ts.len() && ts[i] == x;
                    if i < pos {
                        assert(nt[i] == x);
                    } else {
                        assert(nt[i + 1] == x);
                    }
                }
            }
        }
    }
}

/// The values of a list with one more element.
pub proof fn lemma_push_to_set(s: Seq<Seq<char>>, x: Seq<char>)
    ensures
        s.push(x).to_set() == s.to_set().insert(x),
{
    let t = s.push(x);
    assert forall|y: Seq<char>| t.to_set().contains(y) implies s.to_set().insert(y).contains(y) && s.to_set().insert(x).contains(y) by {
        let i = choose|i: int| 0 <= i < t.len() && t[i] == y;
        if i < s.len() {
            assert(s[i] == y);
        }
    }
    assert forall|y: Seq<char>| s.to_set().insert(x).contains(y) implies t.to_set().contains(y) by {
        if y == x {
            assert(t[s.len() as int] == y);
        } else {
            let i = choose|i: int| 0 <= i < s.len() && s[i] == y;
            assert(t[i] == y);
        }
    }
    assert(t.to_set() =~= s.to_set().insert(x));
}

/// A strictly increasing list with one more value, at its place.
proof fn sorted_insert(ts: Seq<Seq<char>>, x: Seq<char>) -> (r: Seq<Seq<char>>)
    requires
        strictly_sorted(ts),
    ensures
        strictly_sorted(r),
        r.to_set() == ts.to_set().insert(x),
    decreases ts.len(),
{
    if ts.len() == 0 {
        let r = seq![x];
        lemma_push_to_set(ts, x);
        assert(ts.push(x) =~= r);
        r
    } else {
        let last = ts.last();
        let init = ts.drop_last();
        assert(init.push(last) =~= ts);
        lemma_push_to_set(init, last);
        assert(strictly_sorted(init)) by {
            assert forall|i: int, j: int| 0 <= i < j < init.len() implies lex_lt(#[trigger] init[i], #[trigger] init[j]) by {
                assert(init[i] == ts[i] && init[j] == ts[j]);
            }
        }
        if last == x {
            assert(ts.to_set().contains(x)) by {
                assert(ts[ts.len() - 1] == x);
            }
            assert(ts.to_set().insert(x) =~= ts.to_set());
            ts
        } else if lex_lt(last, x) {
            let r = ts.push(x);
            lemma_push_to_set(ts, x);
            assert forall|i: int, j: int| 0 <= i < j < r.len() implies lex_lt(#[trigger] r[i], #[trigger] r[j]) by {
                if j == ts.len() {
                    if i < ts.len() - 1 {
                        lemma_lex_lt_trans(ts[i], last, x);
                    }
                } else {
                    assert(r[i] == ts[i] && r[j] == ts[j]);
                }
            }
            r
        } else {
            lemma_lex_cmp_equal(last, x);
            lemma_lex_cmp_flip(last, x);
            assert(lex_lt(x, last));
            let r0 = sorted_insert(init, x);
            let r = r0.push(last);
            lemma_push_to_set(r0, last);
            assert forall|i: int| 0 <= i < r0.len() implies lex_lt(#[trigger] r0[i], last) by {
                assert(r0.to_set().contains(r0[i]));
                if r0[i] != x {
                    assert(init.to_set().contains(r0[i]));
                    let k = choose|k: int| 0 <= k < init.len() && init[k] == r0[i];
                    assert(ts[k] == init[k]);
                }
            }
            assert forall|i: int, j: int| 0 <= i < j < r.len() implies lex_lt(#[trigger] r[i], #[trigger] r[j]) by {
                if j == r0.len() {
                    assert(r[i] == r0[i]);
                } else {
                    assert(r[i] == r0[i] && r[j] == r0[j]);
                }
            }
            assert(r.to_set() =~= ts.to_set().insert(x));
            r
        }
    }
}

/// A strictly increasing list with the values of `xs`.
proof fn sorted_version(xs: Seq<Seq<char>>) -> (t: Seq<Seq<char>>)
    ensures
        strictly_sorted(t),
        t.to_set() == xs.to_set(),
    decreases xs.len(),
{
    if xs.len() == 0 {
        assert(xs.to_set() =~= Set::<Seq<char>>::empty());
        let t = Seq::<Seq<char>>::empty();
        assert(t.to_set() =~= Set::<Seq<char>>::empty());
        t
    } else {
        let t0 = sorted_version(xs.drop_last());
        let t = sorted_insert(t0, xs.last());
        assert(xs.drop_last().push(xs.last()) =~= xs);
        lemma_push_to_set(xs.drop_last(), xs.last());
        t
    }
}

/// `sorted_set(xs)` lists exactly the values of `xs`, in increasing order.
pub proof fn lemma_sorted_set_values(xs: Seq<Seq<char>>)
    ensures
        strictly_sorted(sorted_set(xs)),
        sorted_set(xs).to_set() == xs.to_set(),
{
    let t = sorted_version(xs);
    lemma_is_sorted_set(t, xs);
}

} // verus!
