//! The order of strings by code point, which is the order of `str`, and
//! sequences kept strictly increasing in it.

use crate::text::char_at;
use vstd::prelude::*;

verus! {

/// Whether `a` comes strictly before `b`: at the first position where they
/// differ `a` has the smaller code point, or `a` is a proper prefix of `b`.
pub open spec fn lex_less(a: Seq<char>, b: Seq<char>) -> bool
    decreases a.len(),
{
    if b.len() == 0 {
        false
    } else if a.len() == 0 {
        true
    } else if a[0] == b[0] {
        lex_less(a.drop_first(), b.drop_first())
    } else {
        a[0] < b[0]
    }
}

/// Of two different strings one comes before the other.
pub proof fn lemma_lex_less_total(a: Seq<char>, b: Seq<char>)
    ensures
        a == b || lex_less(a, b) || lex_less(b, a),
        !(lex_less(a, b) && lex_less(b, a)),
    decreases a.len(),
{
    if a.len() > 0 && b.len() > 0 {
        if a[0] == b[0] {
            lemma_lex_less_total(a.drop_first(), b.drop_first());
            if a.drop_first() == b.drop_first() {
                assert forall|i: int| 0 <= i < a.len() implies a[i] == b[i] by {
                    if i > 0 {
                        assert(a[i] == a.drop_first()[i - 1]);
                        assert(b[i] == b.drop_first()[i - 1]);
                    }
                }
                assert(a.len() == a.drop_first().len() + 1);
                assert(b.len() == b.drop_first().len() + 1);
                assert(a =~= b);
            }
        }
    } else if a.len() == 0 && b.len() == 0 {
        assert(a =~= b);
    }
}

/// The order is transitive.
pub proof fn lemma_lex_less_transitive(a: Seq<char>, b: Seq<char>, c: Seq<char>)
    requires
        lex_less(a, b),
        lex_less(b, c),
    ensures
        lex_less(a, c),
    decreases a.len(),
{
    if a.len() > 0 && a[0] == b[0] && b[0] == c[0] {
        lemma_lex_less_transitive(a.drop_first(), b.drop_first(), c.drop_first());
    }
}

/// Whether `a` comes strictly before `b`.
pub fn less(a: &Vec<char>, b: &Vec<char>) -> (r: bool)
    ensures
        r == lex_less(a@, b@),
{
    let mut i: usize = 0;
    assert(a@.skip(0) == a@);
    assert(b@.skip(0) == b@);
    while i < a.len() && i < b.len()
        invariant
            i <= a.len(),
            i <= b.len(),
            lex_less(a@, b@) == lex_less(a@.skip(i as int), b@.skip(i as int)),
        decreases a.len() - i,
    {
        let x = char_at(a, i);
        let y = char_at(b, i);
        if x != y {
            return x < y;
        }
        assert(a@.skip(i as int).drop_first() == a@.skip(i + 1));
        assert(b@.skip(i as int).drop_first() == b@.skip(i + 1));
        i += 1;
    }
    i < b.len()
}

/// Each element comes strictly before the next.
pub open spec fn strictly_sorted(s: Seq<Seq<char>>) -> bool {
    forall|i: int, j: int| 0 <= i < j < s.len() ==> lex_less(#[trigger] s[i], #[trigger] s[j])
}

/// `s` with `x` put at its place in the order, unless `s` holds `x` already.
pub open spec fn set_insert(s: Seq<Seq<char>>, x: Seq<char>) -> Seq<Seq<char>>
    decreases s.len(),
{
    if s.len() == 0 {
        seq![x]
    } else if s[0] == x {
        s
    } else if lex_less(x, s[0]) {
        seq![x] + s
    } else {
        seq![s[0]] + set_insert(s.drop_first(), x)
    }
}

/// Inserting keeps a sequence strictly increasing, and the result holds
/// exactly what it held before and `x`.
pub proof fn lemma_set_insert(s: Seq<Seq<char>>, x: Seq<char>)
    requires
        strictly_sorted(s),
    ensures
        strictly_sorted(set_insert(s, x)),
        set_insert(s, x).contains(x),
        forall|y: Seq<char>| #[trigger] s.contains(y) ==> set_insert(s, x).contains(y),
        forall|y: Seq<char>| #[trigger]
            set_insert(s, x).contains(y) ==> y == x || s.contains(y),
    decreases s.len(),
{
    let r = set_insert(s, x);
    if s.len() == 0 || s[0] == x || lex_less(x, s[0]) {
        assert(r[0] == x);
    } else {
        let u = set_insert(s.drop_first(), x);
        assert forall|i: int, j: int| 0 <= i < j < s.drop_first().len() implies lex_less(
            #[trigger] s.drop_first()[i],
            #[trigger] s.drop_first()[j],
        ) by {
            assert(lex_less(s[i + 1], s[j + 1]));
        }
        lemma_set_insert(s.drop_first(), x);
        let k = choose|k: int| 0 <= k < u.len() && u[k] == x;
        assert(r[k + 1] == x);
    }
    if s.len() == 0 {
        assert forall|y: Seq<char>|
            (#[trigger] r.contains(y) ==> y == x || s.contains(y)) && (y == x || #[trigger] s.contains(y)
                ==> r.contains(y)) by {
            if r.contains(y) {
                let k = choose|k: int| 0 <= k < r.len() && r[k] == y;
            }
            if y == x {
                assert(r[0] == y);
            }
        }
    } else if s[0] == x {
        assert(s.contains(x));
    } else if lex_less(x, s[0]) {
        assert forall|i: int, j: int| 0 <= i < j < r.len() implies lex_less(
            #[trigger] r[i],
            #[trigger] r[j],
        ) by {
            if i == 0 {
                if j > 1 {
                    assert(lex_less(s[0], s[j - 1]));
                    lemma_lex_less_transitive(x, s[0], s[j - 1]);
                }
            } else {
                assert(lex_less(s[i - 1], s[j - 1]));
            }
        }
        assert forall|y: Seq<char>|
            (#[trigger] r.contains(y) ==> y == x || s.contains(y)) && (y == x || #[trigger] s.contains(y)
                ==> r.contains(y)) by {
            if r.contains(y) {
                let k = choose|k: int| 0 <= k < r.len() && r[k] == y;
                if k > 0 {
                    assert(s[k - 1] == y);
                }
            }
            if y == x {
                assert(r[0] == y);
            }
            if s.contains(y) {
                let k = choose|k: int| 0 <= k < s.len() && s[k] == y;
                assert(r[k + 1] == y);
            }
        }
    } else {
        let t = s.drop_first();
        let u = set_insert(t, x);
        assert forall|i: int, j: int| 0 <= i < j < t.len() implies lex_less(
            #[trigger] t[i],
            #[trigger] t[j],
        ) by {
            assert(lex_less(s[i + 1], s[j + 1]));
        }
        lemma_set_insert(t, x);
        lemma_lex_less_total(x, s[0]);
        assert forall|i: int, j: int| 0 <= i < j < r.len() implies lex_less(
            #[trigger] r[i],
            #[trigger] r[j],
        ) by {
            if i == 0 {
                let y = u[j - 1];
                assert(u.contains(y));
                assert(y == x || t.contains(y));
                if y != x {
                    let k = choose|k: int| 0 <= k < t.len() && t[k] == y;
                    assert(t[k] == s[k + 1]);
                    assert(lex_less(s[0], s[k + 1]));
                }
            } else {
                assert(lex_less(u[i - 1], u[j - 1]));
            }
        }
        assert forall|y: Seq<char>|
            (#[trigger] r.contains(y) ==> y == x || s.contains(y)) && (y == x || #[trigger] s.contains(y)
                ==> r.contains(y)) by {
            if r.contains(y) {
                let k = choose|k: int| 0 <= k < r.len() && r[k] == y;
                if k > 0 {
                    assert(u[k - 1] == y);
                    assert(u.contains(y));
                    assert(y == x || t.contains(y));
                    if y != x {
                        let m = choose|m: int| 0 <= m < t.len() && t[m] == y;
                        assert(s[m + 1] == y);
                    }
                } else {
                    assert(s[0] == y);
                }
            }
            if y == x {
                assert(u.contains(x));
                let k = choose|k: int| 0 <= k < u.len() && u[k] == x;
                assert(r[k + 1] == x);
            }
            if s.contains(y) {
                let k = choose|k: int| 0 <= k < s.len() && s[k] == y;
                if k == 0 {
                    assert(r[0] == y);
                } else {
                    assert(t[k - 1] == y);
                    assert(t.contains(y));
                    assert(u.contains(y));
                    let m = choose|m: int| 0 <= m < u.len() && u[m] == y;
                    assert(r[m + 1] == y);
                }
            }
        }
    }
}

/// Two strictly increasing sequences that hold the same strings are the
/// same sequence.
pub proof fn lemma_sorted_unique(a: Seq<Seq<char>>, b: Seq<Seq<char>>)
    requires
        strictly_sorted(a),
        strictly_sorted(b),
        forall|y: Seq<char>| a.contains(y) <==> b.contains(y),
    ensures
        a == b,
    decreases a.len(),
{
    if a.len() == 0 {
        if b.len() > 0 {
            assert(b.contains(b[0]));
            assert(a.contains(b[0]));
        }
        assert(a =~= b);
    } else {
        assert(a.contains(a[0]));
        assert(b.contains(a[0]));
        assert(b.contains(b[0]));
        assert(a.contains(b[0]));
        let k = choose|k: int| 0 <= k < a.len() && a[k] == b[0];
        let m = choose|m: int| 0 <= m < b.len() && b[m] == a[0];
        if a[0] != b[0] {
            assert(lex_less(a[0], a[k]));
            assert(lex_less(b[0], b[m]));
            lemma_lex_less_total(a[0], b[0]);
        }
        let ta = a.drop_first();
        let tb = b.drop_first();
        assert forall|i: int, j: int| 0 <= i < j < ta.len() implies lex_less(
            #[trigger] ta[i],
            #[trigger] ta[j],
        ) by {
            assert(lex_less(a[i + 1], a[j + 1]));
        }
        assert forall|i: int, j: int| 0 <= i < j < tb.len() implies lex_less(
            #[trigger] tb[i],
            #[trigger] tb[j],
        ) by {
            assert(lex_less(b[i + 1], b[j + 1]));
        }
        assert forall|y: Seq<char>| ta.contains(y) <==> tb.contains(y) by {
            if ta.contains(y) {
                let i = choose|i: int| 0 <= i < ta.len() && ta[i] == y;
                assert(a[i + 1] == y);
                assert(lex_less(a[0], a[i + 1]));
                lemma_lex_less_total(a[0], y);
                assert(a.contains(y));
                let j = choose|j: int| 0 <= j < b.len() && b[j] == y;
                assert(j > 0);
                assert(tb[j - 1] == y);
            }
            if tb.contains(y) {
                let i = choose|i: int| 0 <= i < tb.len() && tb[i] == y;
                assert(b[i + 1] == y);
                assert(lex_less(b[0], b[i + 1]));
                lemma_lex_less_total(b[0], y);
                assert(b.contains(y));
                let j = choose|j: int| 0 <= j < a.len() && a[j] == y;
                assert(j > 0);
                assert(ta[j - 1] == y);
            }
        }
        lemma_sorted_unique(ta, tb);
        assert(a =~= seq![a[0]] + ta);
        assert(b =~= seq![b[0]] + tb);
    }
}

/// Puts `x` at its place in `list`, unless `list` holds it already.
pub fn insert_sorted(list: &mut Vec<Vec<char>>, x: Vec<char>)
    ensures
        crate::text::vec_views(final(list)@) == set_insert(crate::text::vec_views(old(list)@), x@),
{
    let ghost s = crate::text::vec_views(list@);
    let mut p: usize = 0;
    let mut present = false;
    assert(s.skip(0) == s);
    assert(s.take(0) + set_insert(s, x@) == set_insert(s, x@));
    while p < list.len()
        invariant_except_break
            p <= list.len(),
            !present,
            set_insert(s, x@) == s.take(p as int) + set_insert(s.skip(p as int), x@),
        invariant
            list@ == old(list)@,
            s == crate::text::vec_views(list@),
        ensures
            p <= list.len(),
            present ==> set_insert(s, x@) == s,
            !present ==> set_insert(s, x@) == s.take(p as int) + seq![x@] + s.skip(p as int),
        decreases list.len() - p,
    {
        let ghost rest = s.skip(p as int);
        assert(rest[0] == list@[p as int]@);
        if crate::text::same_chars(&list[p], &x) {
            present = true;
            assert(s.take(p as int) + rest == s);
            break;
        }
        if less(&x, &list[p]) {
            assert(s.take(p as int) + (seq![x@] + rest) == s.take(p as int) + seq![x@] + rest);
            break;
        }
        assert(rest.drop_first() == s.skip(p + 1));
        assert(s.take(p as int) + (seq![rest[0]] + set_insert(rest.drop_first(), x@)) == s.take(
            p + 1,
        ) + set_insert(s.skip(p + 1), x@));
        p += 1;
    }
    if !present {
        if p == list.len() {
            assert(s.skip(p as int) == Seq::<Seq<char>>::empty());
            assert(s.take(p as int) + seq![x@] == s.take(p as int) + seq![x@] + s.skip(p as int));
        }
        list.insert(p, x);
        assert(crate::text::vec_views(list@) == s.take(p as int) + seq![x@] + s.skip(p as int));
    }
}

} // verus!
