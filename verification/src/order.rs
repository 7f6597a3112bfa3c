//! Stable insertion order: the order a stable sort gives.

use vstd::prelude::*;

verus! {

/// `s` with `x` placed before the first element that `x` goes strictly
/// before, or at the end.
pub open spec fn insert_by<A>(x: A, s: Seq<A>, before: spec_fn(A, A) -> bool) -> Seq<A>
    decreases s.len(),
{
    if s.len() == 0 {
        seq![x]
    } else if before(x, s[0]) {
        seq![x] + s
    } else {
        seq![s[0]] + insert_by(x, s.drop_first(), before)
    }
}

/// `s` stably sorted by the strict order `before`: elements are inserted
/// front to back, each after all earlier elements it does not go strictly
/// before, so equal elements keep their relative order.
pub open spec fn sort_by<A>(s: Seq<A>, before: spec_fn(A, A) -> bool) -> Seq<A>
    decreases s.len(),
{
    if s.len() == 0 {
        s
    } else {
        insert_by(s.last(), sort_by(s.drop_last(), before), before)
    }
}

/// Inserting at the first position whose element `x` goes before.
pub proof fn lemma_insert_at<A>(x: A, s: Seq<A>, before: spec_fn(A, A) -> bool, p: int)
    requires
        0 <= p <= s.len(),
        forall|q: int| 0 <= q < p ==> !before(x, #[trigger] s[q]),
        p < s.len() ==> before(x, s[p]),
    ensures
        insert_by(x, s, before) == s.take(p).push(x) + s.skip(p),
    decreases s.len(),
{
    if s.len() == 0 {
        assert(s.take(p).push(x) + s.skip(p) =~= seq![x]);
    } else if p == 0 {
        assert(s.take(p).push(x) + s.skip(p) =~= seq![x] + s);
    } else {
        assert(!before(x, s[0]));
        let t = s.drop_first();
        assert forall|q: int| 0 <= q < p - 1 implies !before(x, #[trigger] t[q]) by {
            assert(t[q] == s[q + 1]);
        }
        lemma_insert_at(x, t, before, p - 1);
        assert(seq![s[0]] + (t.take(p - 1).push(x) + t.skip(p - 1)) =~= s.take(p).push(x) + s.skip(
            p,
        ));
    }
}

/// Inserting keeps every element and adds `x`.
pub proof fn lemma_insert_multiset<A>(x: A, s: Seq<A>, before: spec_fn(A, A) -> bool)
    ensures
        insert_by(x, s, before).to_multiset() == s.to_multiset().insert(x),
    decreases s.len(),
{
    broadcast use vstd::seq_lib::group_to_multiset_ensures;

    if s.len() == 0 {
        assert(seq![x] =~= s.push(x));
    } else if before(x, s[0]) {
        vstd::seq_lib::lemma_multiset_commutative(seq![x], s);
        assert(seq![x].to_multiset() =~= vstd::multiset::Multiset::empty().insert(x)) by {
            assert(seq![x] =~= Seq::<A>::empty().push(x));
        }
    } else {
        let t = s.drop_first();
        lemma_insert_multiset(x, t, before);
        vstd::seq_lib::lemma_multiset_commutative(seq![s[0]], insert_by(x, t, before));
        vstd::seq_lib::lemma_multiset_commutative(seq![s[0]], t);
        assert(seq![s[0]] + t =~= s);
    }
}

/// A stable sort keeps exactly the elements it was given.
pub proof fn sort_by_permutes<A>(s: Seq<A>, before: spec_fn(A, A) -> bool)
    ensures
        sort_by(s, before).to_multiset() == s.to_multiset(),
    decreases s.len(),
{
    broadcast use vstd::seq_lib::group_to_multiset_ensures;

    if s.len() > 0 {
        sort_by_permutes(s.drop_last(), before);
        lemma_insert_multiset(s.last(), sort_by(s.drop_last(), before), before);
        assert(s.drop_last().push(s.last()) =~= s);
    }
}

/// Inserting adds `x` and keeps every other element.
pub proof fn lemma_insert_contains<A>(x: A, s: Seq<A>, before: spec_fn(A, A) -> bool)
    ensures
        insert_by(x, s, before).len() == s.len() + 1,
        forall|y: A| #[trigger] insert_by(x, s, before).contains(y) <==> (y == x || s.contains(y)),
    decreases s.len(),
{
    if s.len() == 0 {
        assert forall|y: A| #[trigger] insert_by(x, s, before).contains(y) <==> (y == x || s.contains(y)) by {
            if insert_by(x, s, before).contains(y) {
                assert(insert_by(x, s, before)[0] == x);
            }
            if y == x {
                assert(insert_by(x, s, before)[0] == x);
            }
        }
    } else if before(x, s[0]) {
        let r = seq![x] + s;
        assert forall|y: A| #[trigger] r.contains(y) <==> (y == x || s.contains(y)) by {
            if r.contains(y) {
                let k = choose|k: int| 0 <= k < r.len() && r[k] == y;
                if k > 0 {
                    assert(s[k - 1] == y);
                }
            }
            if y == x {
                assert(r[0] == x);
            }
            if s.contains(y) {
                let k = choose|k: int| 0 <= k < s.len() && s[k] == y;
                assert(r[k + 1] == y);
            }
        }
    } else {
        let t = s.drop_first();
        lemma_insert_contains(x, t, before);
        let u = insert_by(x, t, before);
        let r = seq![s[0]] + u;
        assert forall|y: A| #[trigger] r.contains(y) <==> (y == x || s.contains(y)) by {
            if r.contains(y) {
                let k = choose|k: int| 0 <= k < r.len() && r[k] == y;
                if k == 0 {
                    assert(s[0] == y);
                } else {
                    assert(u[k - 1] == y);
                    assert(u.contains(y));
                    if t.contains(y) {
                        let m = choose|m: int| 0 <= m < t.len() && t[m] == y;
                        assert(s[m + 1] == y);
                    }
                }
            }
            if y == x {
                assert(u.contains(x));
                let m = choose|m: int| 0 <= m < u.len() && u[m] == x;
                assert(r[m + 1] == x);
            }
            if s.contains(y) {
                let k = choose|k: int| 0 <= k < s.len() && s[k] == y;
                if k == 0 {
                    assert(r[0] == y);
                } else {
                    assert(t[k - 1] == y);
                    assert(t.contains(y));
                    assert(u.contains(y));
                    let m = choose|m: int| 0 <= m < u.len() && u[m] == y;
                    assert(r[m + 1] == y);
                }
            }
        }
    }
}

/// A stable sort keeps the length and the elements.
pub proof fn sort_by_contains<A>(s: Seq<A>, before: spec_fn(A, A) -> bool)
    ensures
        sort_by(s, before).len() == s.len(),
        forall|y: A| #[trigger] sort_by(s, before).contains(y) <==> s.contains(y),
    decreases s.len(),
{
    if s.len() > 0 {
        let p = s.drop_last();
        sort_by_contains(p, before);
        lemma_insert_contains(s.last(), sort_by(p, before), before);
        assert forall|y: A| #[trigger] sort_by(s, before).contains(y) <==> s.contains(y) by {
            if p.contains(y) {
                let k = choose|k: int| 0 <= k < p.len() && p[k] == y;
                assert(s[k] == y);
            }
            if s.contains(y) {
                let k = choose|k: int| 0 <= k < s.len() && s[k] == y;
                if k < s.len() - 1 {
                    assert(p[k] == y);
                }
            }
        }
    }
}

} // verus!
