//! Sets of strings kept as strictly increasing sequences, in the order of
//! `String`'s `Ord` (UTF-8 bytes compare in the same order as the code
//! points they encode, so this is the lexicographic order of characters).

use vstd::prelude::*;
use crate::text::chars_of;

verus! {

/// `a` comes strictly before `b` in lexicographic order.
pub open spec fn lex_lt(a: Seq<char>, b: Seq<char>) -> bool
    decreases a.len(),
{
    if a.len() == 0 {
        b.len() > 0
    } else if b.len() == 0 {
        false
    } else if a[0] == b[0] {
        lex_lt(a.drop_first(), b.drop_first())
    } else {
        a[0] < b[0]
    }
}

/// Each element comes strictly before the next.
pub open spec fn strictly_sorted(s: Seq<Seq<char>>) -> bool {
    forall|i: int, j: int| 0 <= i < j < s.len() ==> lex_lt(#[trigger] s[i], #[trigger] s[j])
}

/// The elements of the finite set `s` in increasing order.
pub open spec fn sorted_list(s: Set<Seq<char>>) -> Seq<Seq<char>> {
    choose|r: Seq<Seq<char>>| strictly_sorted(r) && r.to_set() == s
}

pub proof fn lemma_lex_irreflexive(a: Seq<char>)
    ensures
        !lex_lt(a, a),
    decreases a.len(),
{
    if a.len() > 0 {
        lemma_lex_irreflexive(a.drop_first());
    }
}

pub proof fn lemma_lex_transitive(a: Seq<char>, b: Seq<char>, c: Seq<char>)
    requires
        lex_lt(a, b),
        lex_lt(b, c),
    ensures
        lex_lt(a, c),
    decreases a.len(),
{
    if a.len() > 0 && b.len() > 0 && c.len() > 0 {
        if a[0] == b[0] && b[0] == c[0] {
            lemma_lex_transitive(a.drop_first(), b.drop_first(), c.drop_first());
        }
    }
}

pub proof fn lemma_lex_total(a: Seq<char>, b: Seq<char>)
    ensures
        a == b || lex_lt(a, b) || lex_lt(b, a),
    decreases a.len(),
{
    if a.len() > 0 && b.len() > 0 {
        if a[0] == b[0] {
            lemma_lex_total(a.drop_first(), b.drop_first());
            if a.drop_first() == b.drop_first() {
                assert(a =~= seq![a[0]] + a.drop_first());
                assert(b =~= seq![b[0]] + b.drop_first());
            }
        }
    } else if a.len() == 0 && b.len() == 0 {
        assert(a =~= b);
    }
}

pub proof fn lemma_lex_asymmetric(a: Seq<char>, b: Seq<char>)
    requires
        lex_lt(a, b),
    ensures
        !lex_lt(b, a),
{
    if lex_lt(b, a) {
        lemma_lex_transitive(a, b, a);
        lemma_lex_irreflexive(a);
    }
}

/// Two strictly increasing sequences with the same elements are equal.
pub proof fn lemma_sorted_unique(r1: Seq<Seq<char>>, r2: Seq<Seq<char>>)
    requires
        strictly_sorted(r1),
        strictly_sorted(r2),
        r1.to_set() == r2.to_set(),
    ensures
        r1 == r2,
    decreases r1.len(),
{
    if r1.len() == 0 {
        if r2.len() > 0 {
            assert(r2.to_set().contains(r2[0]));
        }
        assert(r1 =~= r2);
    } else {
        if r2.len() == 0 {
            assert(r1.to_set().contains(r1[0]));
            assert(false);
        }
        // both first elements are the least element of the set
        assert(r1.to_set().contains(r1[0]));
        assert(r2.to_set().contains(r2[0]));
        let i2 = choose|i: int| 0 <= i < r2.len() && r2[i] == r1[0];
        let i1 = choose|i: int| 0 <= i < r1.len() && r1[i] == r2[0];
        if i2 > 0 {
            assert(lex_lt(r2[0], r2[i2]));
            if i1 > 0 {
                assert(lex_lt(r1[0], r1[i1]));
                lemma_lex_asymmetric(r2[0], r1[0]);
            }
            lemma_lex_irreflexive(r2[0]);
        }
        assert(r1[0] == r2[0]);
        let t1 = r1.drop_first();
        let t2 = r2.drop_first();
        assert(strictly_sorted(t1)) by {
            assert forall|i: int, j: int| 0 <= i < j < t1.len() implies lex_lt(#[trigger] t1[i], #[trigger] t1[j]) by {
                assert(t1[i] == r1[i + 1] && t1[j] == r1[j + 1]);
            }
        }
        assert(strictly_sorted(t2)) by {
            assert forall|i: int, j: int| 0 <= i < j < t2.len() implies lex_lt(#[trigger] t2[i], #[trigger] t2[j]) by {
                assert(t2[i] == r2[i + 1] && t2[j] == r2[j + 1]);
            }
        }
        assert(t1.to_set() =~= t2.to_set()) by {
            assert forall|x: Seq<char>| t1.to_set().contains(x) implies t2.to_set().contains(x) by {
                let i = choose|i: int| 0 <= i < t1.len() && t1[i] == x;
                assert(r1[i + 1] == x);
                assert(r1.to_set().contains(x));
                let j = choose|j: int| 0 <= j < r2.len() && r2[j] == x;
                assert(lex_lt(r1[0], r1[i + 1]));
                if j == 0 {
                    lemma_lex_irreflexive(x);
                }
                assert(t2[j - 1] == x);
            }
            assert forall|x: Seq<char>| t2.to_set().contains(x) implies t1.to_set().contains(x) by {
                let i = choose|i: int| 0 <= i < t2.len() && t2[i] == x;
                assert(r2[i + 1] == x);
                assert(r2.to_set().contains(x));
                let j = choose|j: int| 0 <= j < r1.len() && r1[j] == x;
                assert(lex_lt(r2[0], r2[i + 1]));
                if j == 0 {
                    lemma_lex_irreflexive(x);
                }
                assert(t1[j - 1] == x);
            }
        }
        lemma_sorted_unique(t1, t2);
        assert(r1 =~= seq![r1[0]] + t1);
        assert(r2 =~= seq![r2[0]] + t2);
    }
}

/// A strictly increasing sequence is the increasing list of its elements.
pub proof fn lemma_sorted_list_of(r: Seq<Seq<char>>)
    requires
        strictly_sorted(r),
    ensures
        sorted_list(r.to_set()) == r,
{
    let s = r.to_set();
    assert(exists|x: Seq<Seq<char>>| strictly_sorted(x) && x.to_set() == s);
    let c = sorted_list(s);
    lemma_sorted_unique(c, r);
}

/// A finite non-empty set of strings has a greatest element.
proof fn lemma_greatest_exists(s: Set<Seq<char>>)
    requires
        s.finite(),
        s.len() > 0,
    ensures
        exists|m: Seq<char>| s.contains(m) && forall|y: Seq<char>| #[trigger] s.contains(y) && y != m ==> lex_lt(y, m),
    decreases s.len(),
{
    let x = s.choose();
    let t = s.remove(x);
    if t.len() == 0 {
        t.lemma_len0_is_empty();
        assert forall|y: Seq<char>| #[trigger] s.contains(y) && y != x implies lex_lt(y, x) by {
            assert(t.contains(y));
        }
    } else {
        lemma_greatest_exists(t);
        let m = choose|m: Seq<char>| t.contains(m) && forall|y: Seq<char>| #[trigger] t.contains(y) && y != m ==> lex_lt(y, m);
        lemma_lex_total(m, x);
        if lex_lt(m, x) {
            assert forall|y: Seq<char>| #[trigger] s.contains(y) && y != x implies lex_lt(y, x) by {
                if y != m {
                    assert(t.contains(y));
                    lemma_lex_transitive(y, m, x);
                }
            }
        } else {
            assert(lex_lt(x, m));
            assert forall|y: Seq<char>| #[trigger] s.contains(y) && y != m implies lex_lt(y, m) by {
                if y != x {
                    assert(t.contains(y));
                }
            }
        }
    }
}

/// The increasing list of a finite set of strings lists exactly its elements.
pub proof fn lemma_sorted_list(s: Set<Seq<char>>)
    requires
        s.finite(),
    ensures
        strictly_sorted(sorted_list(s)),
        sorted_list(s).to_set() == s,
    decreases s.len(),
{
    if s.len() == 0 {
        s.lemma_len0_is_empty();
        let r = Seq::<Seq<char>>::empty();
        assert(r.to_set() =~= s);
        assert(strictly_sorted(r));
    } else {
        lemma_greatest_exists(s);
        let m = choose|m: Seq<char>| s.contains(m) && forall|y: Seq<char>| #[trigger] s.contains(y) && y != m ==> lex_lt(y, m);
        let t = s.remove(m);
        lemma_sorted_list(t);
        let r0 = sorted_list(t);
        let r = r0.push(m);
        assert forall|i: int, j: int| 0 <= i < j < r.len() implies lex_lt(#[trigger] r[i], #[trigger] r[j]) by {
            if j < r0.len() {
                assert(r[i] == r0[i] && r[j] == r0[j]);
            } else {
                assert(r[i] == r0[i]);
                assert(r0.to_set().contains(r0[i]));
                assert(t.contains(r0[i]));
            }
        }
        assert forall|y: Seq<char>| r.to_set().contains(y) <==> s.contains(y) by {
            if r.to_set().contains(y) {
                let k = choose|k: int| 0 <= k < r.len() && r[k] == y;
                if k < r0.len() {
                    assert(r0.to_set().contains(r0[k]));
                }
            }
            if s.contains(y) {
                if y == m {
                    assert(r[r.len() - 1] == m);
                } else {
                    assert(t.contains(y));
                    assert(r0.to_set().contains(y));
                    let k = choose|k: int| 0 <= k < r0.len() && r0[k] == y;
                    assert(r[k] == y);
                }
            }
        }
        assert(r.to_set() =~= s);
        lemma_sorted_list_of(r);
    }
}

/// Whether `a` comes strictly before `b`.
pub fn chars_lt(a: &[char], b: &[char]) -> (r: bool)
    ensures
        r == lex_lt(a@, b@),
{
    let mut k: usize = 0;
    assert(a@.skip(0) =~= a@ && b@.skip(0) =~= b@);
    while k < a.len() && k < b.len() && a[k] == b[k]
        invariant
            k <= a@.len(),
            k <= b@.len(),
            lex_lt(a@, b@) == lex_lt(a@.skip(k as int), b@.skip(k as int)),
        decreases a@.len() - k,
    {
        proof {
            let x = a@.skip(k as int);
            let y = b@.skip(k as int);
            assert(x.drop_first() =~= a@.skip(k + 1));
            assert(y.drop_first() =~= b@.skip(k + 1));
        }
        k = k + 1;
    }
    let ghost x = a@.skip(k as int);
    let ghost y = b@.skip(k as int);
    if k == a.len() {
        k < b.len()
    } else if k == b.len() {
        false
    } else {
        assert(x[0] == a@[k as int] && y[0] == b@[k as int]);
        a[k] < b[k]
    }
}

fn str_lt_chars(a: &str, b: &[char]) -> (r: bool)
    ensures
        r == lex_lt(a@, b@),
{
    let ac = chars_of(a);
    chars_lt(ac.as_slice(), b)
}

/// Adds `x` to the strictly increasing list `v`, keeping it strictly increasing.
pub fn insert_sorted(v: &mut Vec<String>, x: String)
    requires
        strictly_sorted(old(v)@.map_values(|s: String| s@)),
    ensures
        strictly_sorted(final(v)@.map_values(|s: String| s@)),
        final(v)@.map_values(|s: String| s@).to_set() == old(v)@.map_values(|s: String| s@).to_set().insert(x@),
{
    let ghost vs = v@.map_values(|s: String| s@);
    let xc = chars_of(x.as_str());
    let mut i: usize = 0;
    while i < v.len() && str_lt_chars(v[i].as_str(), xc.as_slice())
        invariant
            i <= v@.len(),
            vs == v@.map_values(|s: String| s@),
            vs.len() == v@.len(),
            xc@ == x@,
            forall|k: int| 0 <= k < i ==> lex_lt(#[trigger] vs[k], x@),
        decreases v@.len() - i,
    {
        assert(vs[i as int] == v@[i as int]@);
        i = i + 1;
    }
    assert(i < v@.len() ==> vs[i as int] == v@[i as int]@);
    if i < v.len() {
        let yc = chars_of(v[i].as_str());
        if crate::text::chars_eq(yc.as_slice(), xc.as_slice()) {
            assert(vs.to_set().insert(x@) =~= vs.to_set()) by {
                assert(vs[i as int] == x@);
            }
            return;
        }
        proof {
            lemma_lex_total(vs[i as int], x@);
        }
    }
    v.insert(i, x);
    proof {
        let nv = v@.map_values(|s: String| s@);
        assert(nv =~= vs.insert(i as int, x@));
        assert forall|a: int, b: int| 0 <= a < b < nv.len() implies lex_lt(#[trigger] nv[a], #[trigger] nv[b]) by {
            if b < i {
            } else if b == i {
                assert(nv[a] == vs[a]);
            } else if a == i {
                assert(nv[b] == vs[b - 1]);
                if b - 1 > i {
                    lemma_lex_transitive(x@, vs[i as int], vs[b - 1]);
                }
            } else if a < i {
                assert(nv[b] == vs[b - 1]);
                assert(nv[a] == vs[a]);
            } else {
                assert(nv[b] == vs[b - 1]);
                assert(nv[a] == vs[a - 1]);
            }
        }
        assert(nv.to_set() =~= vs.to_set().insert(x@)) by {
            assert forall|y: Seq<char>| nv.to_set().contains(y) implies vs.to_set().insert(x@).contains(y) by {
                let k = choose|k: int| 0 <= k < nv.len() && nv[k] == y;
                if k < i {
                    assert(vs[k] == y);
                } else if k > i {
                    assert(vs[k - 1] == y);
                }
            }
            assert forall|y: Seq<char>| vs.to_set().insert(x@).contains(y) implies nv.to_set().contains(y) by {
                if y == x@ {
                    assert(nv[i as int] == y);
                } else {
                    let k = choose|k: int| 0 <= k < vs.len() && vs[k] == y;
                    if k < i {
                        assert(nv[k] == y);
                    } else {
                        assert(nv[k + 1] == y);
                    }
                }
            }
        }
    }
}

} // verus!
