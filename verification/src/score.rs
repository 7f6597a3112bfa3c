//! Relevance scores and the orders built on them.
//!
//! A score is a binary32 float. This library holds it as an order key: the
//! float's bit pattern mapped so that unsigned comparison of keys is the
//! numeric comparison of the scores (for all scores other than NaN and
//! negative zero, which the scoring never produces).

use vstd::prelude::*;
use crate::models::{item_view, item_views, ContextItem, ItemView};
use crate::order::{insert_by, lemma_insert_at, sort_by, sort_by_contains};

verus! {

/// The order key of the binary32 number with bit pattern `bits`.
pub open spec fn key_of_bits(bits: u32) -> u32 {
    if bits < 0x8000_0000 {
        (bits + 0x8000_0000) as u32
    } else {
        (0xFFFF_FFFF - bits) as u32
    }
}

/// The bit pattern of the binary32 number with order key `key`.
pub open spec fn bits_of_key(key: u32) -> u32 {
    if key >= 0x8000_0000 {
        (key - 0x8000_0000) as u32
    } else {
        (0xFFFF_FFFF - key) as u32
    }
}

/// Two to the power `e`.
pub open spec fn pow2(e: nat) -> nat
    decreases e,
{
    if e == 0 {
        1
    } else {
        2 * pow2((e - 1) as nat)
    }
}

/// The position of the highest set bit of `m`.
pub open spec fn floor_log2(m: nat) -> nat
    decreases m,
{
    if m < 2 {
        0
    } else {
        1 + floor_log2(m / 2)
    }
}

/// The binary32 bit pattern of the whole number `m`, exact for
/// `m <= 2^24`: biased exponent `127 + e` and the bits of `m` below its
/// leading one as the fraction.
pub open spec fn f32_bits_of_nat(m: nat) -> nat {
    if m == 0 {
        0
    } else {
        let e = floor_log2(m);
        ((127 + e) * 0x80_0000 + (m - pow2(e)) * (0x80_0000nat / pow2(e))) as nat
    }
}

/// The order key of the binary32 number equal to the integer `n`,
/// `|n| <= 2^24`.
pub open spec fn int_key(n: int) -> u32 {
    if n >= 0 {
        (f32_bits_of_nat(n as nat) + 0x8000_0000) as u32
    } else {
        (0x7FFF_FFFF - f32_bits_of_nat((-n) as nat)) as u32
    }
}

/// The order key of the retrieval cut-off 0.35 (bit pattern `0x3EB3_3333`).
pub const THRESHOLD_KEY: u32 = 0xBEB3_3333;

/// Maps a binary32 bit pattern to its order key.
pub fn order_key(bits: u32) -> (r: u32)
    ensures
        r == key_of_bits(bits),
{
    if bits < 0x8000_0000 {
        bits + 0x8000_0000
    } else {
        0xFFFF_FFFF - bits
    }
}

/// Maps an order key back to its binary32 bit pattern.
pub fn key_bits(key: u32) -> (r: u32)
    ensures
        r == bits_of_key(key),
{
    if key >= 0x8000_0000 {
        key - 0x8000_0000
    } else {
        0xFFFF_FFFF - key
    }
}

/// The two maps are inverse to each other.
pub proof fn key_round_trip(bits: u32, key: u32)
    ensures
        bits_of_key(key_of_bits(bits)) == bits,
        key_of_bits(bits_of_key(key)) == key,
{
}

proof fn lemma_pow2_pos(e: nat)
    ensures
        pow2(e) >= 1,
    decreases e,
{
    if e > 0 {
        lemma_pow2_pos((e - 1) as nat);
    }
}

proof fn lemma_floor_log2(m: nat, e: nat)
    requires
        pow2(e) <= m < 2 * pow2(e),
    ensures
        floor_log2(m) == e,
    decreases e,
{
    lemma_pow2_pos(e);
    if e == 0 {
    } else {
        lemma_pow2_pos((e - 1) as nat);
        assert(pow2(e) == 2 * pow2((e - 1) as nat));
        assert(m >= 2);
        assert(pow2((e - 1) as nat) <= m / 2 < 2 * pow2((e - 1) as nat));
        lemma_floor_log2(m / 2, (e - 1) as nat);
    }
}

proof fn lemma_pow2_small(e: nat)
    requires
        e <= 24,
    ensures
        pow2(e) <= 0x100_0000,
        e <= 23 ==> pow2(e) * (0x80_0000nat / pow2(e)) == 0x80_0000,
    decreases 24 - e,
{
    reveal_with_fuel(pow2, 25);
    assert(pow2(0) == 1);
    assert(pow2(23) == 0x80_0000);
    assert(pow2(24) == 0x100_0000);
    if e == 24 {
    } else if e == 23 {
    } else {
        lemma_pow2_small(e + 1);
        assert(pow2(e + 1) == 2 * pow2(e));
        let q = 0x80_0000nat / pow2(e + 1);
        assert(pow2(e + 1) * q == 0x80_0000);
        assert(pow2(e) * (2 * q) == 0x80_0000) by (nonlinear_arith)
            requires
                pow2(e + 1) == 2 * pow2(e),
                pow2(e + 1) * q == 0x80_0000,
        ;
        assert(0x80_0000nat / pow2(e) == 2 * q) by (nonlinear_arith)
            requires
                pow2(e) * (2 * q) == 0x80_0000,
                pow2(e) >= 1,
        ;
    }
}

proof fn lemma_floor_log2_bounds(m: nat)
    requires
        m >= 1,
    ensures
        pow2(floor_log2(m)) <= m < 2 * pow2(floor_log2(m)),
    decreases m,
{
    if m >= 2 {
        lemma_floor_log2_bounds(m / 2);
        let f = floor_log2(m / 2);
        assert(floor_log2(m) == f + 1);
        assert(pow2(f + 1) == 2 * pow2(f));
    }
}

proof fn lemma_floor_log2_mono(m: nat, n: nat)
    requires
        1 <= m <= n,
    ensures
        floor_log2(m) <= floor_log2(n),
    decreases n,
{
    if m >= 2 {
        lemma_floor_log2_mono(m / 2, n / 2);
    }
}

proof fn lemma_bits_parts(m: nat)
    requires
        1 <= m <= 0x100_0000,
    ensures
        floor_log2(m) <= 24,
        f32_bits_of_nat(m) >= (127 + floor_log2(m)) * 0x80_0000,
        f32_bits_of_nat(m) < (128 + floor_log2(m)) * 0x80_0000,
        floor_log2(m) == 24 ==> m == 0x100_0000,
{
    let e = floor_log2(m);
    lemma_floor_log2_bounds(m);
    reveal_with_fuel(pow2, 26);
    assert(pow2(24) == 0x100_0000);
    assert(pow2(25) == 0x200_0000);
    if e > 24 {
        lemma_pow2_grows(25, e);
    }
    assert(e <= 24);
    lemma_pow2_small(e);
    let p = pow2(e);
    let q = 0x80_0000nat / p;
    assert(m - p >= 0);
    assert(f32_bits_of_nat(m) == (127 + e) * 0x80_0000 + (m - p) * q);
    assert((m - p) * q >= 0) by (nonlinear_arith)
        requires
            m - p >= 0,
            q >= 0,
    ;
    if e <= 23 {
        assert((m - p) * q < 0x80_0000) by (nonlinear_arith)
            requires
                m - p < p,
                m >= p,
                p * q == 0x80_0000,
        ;
    } else {
        assert(m == 0x100_0000);
        assert(m - p == 0);
        assert((m - p) * q == 0) by (nonlinear_arith)
            requires
                m - p == 0,
        ;
    }
}

proof fn lemma_pow2_grows(a: nat, b: nat)
    requires
        a <= b,
    ensures
        pow2(a) <= pow2(b),
    decreases b,
{
    if a < b {
        lemma_pow2_grows(a, (b - 1) as nat);
        lemma_pow2_pos((b - 1) as nat);
    }
}

proof fn lemma_bits_mono(m: nat, n: nat)
    requires
        m < n <= 0x100_0000,
    ensures
        f32_bits_of_nat(m) < f32_bits_of_nat(n),
{
    if m == 0 {
        lemma_bits_parts(n);
    } else {
        lemma_bits_parts(m);
        lemma_bits_parts(n);
        lemma_floor_log2_mono(m, n);
        let e = floor_log2(m);
        if e == floor_log2(n) {
            lemma_pow2_small(e);
            lemma_floor_log2_bounds(m);
            lemma_floor_log2_bounds(n);
            let p = pow2(e);
            let q = 0x80_0000nat / p;
            assert(f32_bits_of_nat(m) == (127 + e) * 0x80_0000 + (m - p) * q);
            assert(f32_bits_of_nat(n) == (127 + e) * 0x80_0000 + (n - p) * q);
            assert(e <= 23);
            assert(q >= 1) by (nonlinear_arith)
                requires
                    p * q == 0x80_0000,
            ;
            assert((m - p) * q < (n - p) * q) by (nonlinear_arith)
                requires
                    m - p < n - p,
                    q >= 1,
            ;
        }
    }
}

/// Scores that are whole numbers rank as the numbers do: a higher fixed
/// priority always sorts first.
pub proof fn int_keys_increase(a: int, b: int)
    requires
        -0x100_0000 <= a < b <= 0x100_0000,
    ensures
        int_key(a) < int_key(b),
{
    if a >= 0 {
        lemma_bits_mono(a as nat, b as nat);
        lemma_bits_parts(b as nat);
    } else if b >= 0 {
        lemma_bits_parts((-a) as nat);
        if b > 0 {
            lemma_bits_parts(b as nat);
        }
    } else {
        lemma_bits_mono((-b) as nat, (-a) as nat);
        lemma_bits_parts((-a) as nat);
    }
}

/// The binary32 bit pattern of a whole number `m <= 2^24`.
fn f32_bits_of(m: u32) -> (r: u32)
    requires
        m <= 0x100_0000,
    ensures
        r == f32_bits_of_nat(m as nat),
        r < 0x8000_0000,
{
    if m == 0 {
        return 0;
    }
    let mut p: u32 = 1;
    let mut e: u32 = 0;
    while p <= m / 2
        invariant
            1 <= p <= m <= 0x100_0000,
            p == pow2(e as nat),
            e <= 24,
        decreases m - p,
    {
        proof {
            reveal_with_fuel(pow2, 25);
            assert(pow2(24) == 0x100_0000);
            assert(e < 24);
        }
        p = p * 2;
        e = e + 1;
        assert(pow2(e as nat) == 2 * pow2((e - 1) as nat));
    }
    proof {
        lemma_floor_log2(m as nat, e as nat);
        lemma_pow2_small(e as nat);
    }
    let q: u32 = 0x80_0000 / p;
    let d: u32 = m - p;
    assert(d < p);
    assert(d * q <= 0x80_0000) by (nonlinear_arith)
        requires
            d < p,
            p >= 1,
            q == 0x80_0000u32 / p,
    ;
    let mant: u32 = d * q;
    assert(e <= 24);
    (127 + e) * 0x80_0000 + mant
}

/// The order key of the binary32 number equal to `n`, `|n| <= 2^24`.
pub fn int_score_key(n: i64) -> (r: u32)
    requires
        -0x100_0000 <= n <= 0x100_0000,
    ensures
        r == int_key(n as int),
{
    if n >= 0 {
        f32_bits_of(n as u32) + 0x8000_0000
    } else {
        0x7FFF_FFFF - f32_bits_of((-n) as u32)
    }
}

/// Higher scores first.
pub open spec fn by_score() -> spec_fn(ItemView, ItemView) -> bool {
    |a: ItemView, b: ItemView| a.4 > b.4
}

/// The items of `s` whose score is above the retrieval cut-off, in order.
pub open spec fn above_threshold(s: Seq<ItemView>) -> Seq<ItemView>
    decreases s.len(),
{
    if s.len() == 0 {
        s
    } else if s.last().4 > THRESHOLD_KEY {
        above_threshold(s.drop_last()).push(s.last())
    } else {
        above_threshold(s.drop_last())
    }
}

/// The first `limit` elements of `s` (all of them if there are fewer).
pub open spec fn first_n<A>(s: Seq<A>, limit: nat) -> Seq<A> {
    if s.len() <= limit {
        s
    } else {
        s.take(limit as int)
    }
}

/// Sorts items by score, highest first; items of equal score keep their
/// order.
pub fn sort_by_score(items: &Vec<ContextItem>) -> (r: Vec<ContextItem>)
    ensures
        item_views(r@) == sort_by(item_views(items@), by_score()),
{
    let mut r: Vec<ContextItem> = Vec::new();
    let mut i: usize = 0;
    let ghost all = item_views(items@);
    assert(all.take(0) =~= Seq::<ItemView>::empty());
    assert(item_views(r@) =~= Seq::<ItemView>::empty());
    while i < items.len()
        invariant
            i <= items@.len(),
            all == item_views(items@),
            item_views(r@) == sort_by(all.take(i as int), by_score()),
        decreases items@.len() - i,
    {
        let x = items[i].clone();
        let ghost rv = item_views(r@);
        let mut p: usize = 0;
        while p < r.len() && !(x.score > r[p].score)
            invariant
                p <= r@.len(),
                rv == item_views(r@),
                forall|q: int| 0 <= q < p ==> !(by_score())(item_view(x), #[trigger] rv[q]),
            decreases r@.len() - p,
        {
            p = p + 1;
        }
        proof {
            lemma_insert_at(item_view(x), rv, by_score(), p as int);
            assert(all.take(i + 1).drop_last() =~= all.take(i as int));
            assert(all.take(i + 1).last() == item_view(x));
        }
        r.insert(p, x);
        assert(item_views(r@) =~= rv.take(p as int).push(item_view(x)) + rv.skip(p as int));
        i = i + 1;
    }
    assert(all.take(items@.len() as int) =~= all);
    r
}

proof fn lemma_insert_sorted(x: ItemView, s: Seq<ItemView>)
    requires
        forall|i: int, j: int| 0 <= i < j < s.len() ==> s[i].4 >= s[j].4,
    ensures
        forall|i: int, j: int|
            0 <= i < j < insert_by(x, s, by_score()).len() ==> insert_by(x, s, by_score())[i].4
                >= insert_by(x, s, by_score())[j].4,
        forall|k: int|
            0 <= k < insert_by(x, s, by_score()).len() ==> insert_by(x, s, by_score())[k] == x || s.contains(insert_by(x, s, by_score())[k]),
    decreases s.len(),
{
    if s.len() > 0 && !(by_score())(x, s[0]) {
        let t = s.drop_first();
        lemma_insert_sorted(x, t);
        let u = insert_by(x, t, by_score());
        assert forall|k: int| 0 <= k < u.len() implies u[k].4 <= s[0].4 by {
            if u[k] != x {
                assert(t.contains(u[k]));
                let m = choose|m: int| 0 <= m < t.len() && t[m] == u[k];
                assert(s[m + 1] == t[m]);
            }
        }
        assert forall|k: int| 0 <= k < u.len() && u[k] != x implies s.contains(u[k]) by {
            let m = choose|m: int| 0 <= m < t.len() && t[m] == u[k];
            assert(s[m + 1] == u[k]);
        }
        let w = seq![s[0]] + u;
        assert forall|i: int, j: int| 0 <= i < j < w.len() implies w[i].4 >= w[j].4 by {
            if i > 0 {
                assert(w[i] == u[i - 1] && w[j] == u[j - 1]);
            } else {
                assert(w[j] == u[j - 1]);
            }
        }
        assert forall|k: int| 0 <= k < w.len() && w[k] != x implies s.contains(w[k]) by {
            if k == 0 {
                assert(s[0] == w[0]);
            } else {
                assert(w[k] == u[k - 1]);
            }
        }
    } else if s.len() > 0 {
        let w = seq![x] + s;
        assert forall|i: int, j: int| 0 <= i < j < w.len() implies w[i].4 >= w[j].4 by {
            if i > 0 {
                assert(w[i] == s[i - 1] && w[j] == s[j - 1]);
            } else {
                assert(w[j] == s[j - 1]);
            }
        }
        assert forall|k: int| 0 <= k < w.len() && w[k] != x implies s.contains(w[k]) by {
            assert(w[k] == s[k - 1]);
        }
    }
}

/// Sorting by score leaves the scores in non-increasing order.
pub proof fn sorted_by_score_descends(s: Seq<ItemView>)
    ensures
        forall|i: int, j: int|
            0 <= i < j < sort_by(s, by_score()).len() ==> sort_by(s, by_score())[i].4 >= sort_by(
                s,
                by_score(),
            )[j].4,
    decreases s.len(),
{
    if s.len() > 0 {
        sorted_by_score_descends(s.drop_last());
        lemma_insert_sorted(s.last(), sort_by(s.drop_last(), by_score()));
    }
}

/// Retrieval's final step: keeps the items scored above 0.35, highest
/// score first (ties in their given order), at most `limit` of them.
pub fn rank_retrieved(items: Vec<ContextItem>, limit: usize) -> (r: Vec<ContextItem>)
    ensures
        item_views(r@) == first_n(sort_by(above_threshold(item_views(items@)), by_score()), limit as nat),
{
    let mut kept: Vec<ContextItem> = Vec::new();
    let mut i: usize = 0;
    let ghost all = item_views(items@);
    assert(all.take(0) =~= Seq::<ItemView>::empty());
    assert(item_views(kept@) =~= Seq::<ItemView>::empty());
    while i < items.len()
        invariant
            i <= items@.len(),
            all == item_views(items@),
            item_views(kept@) == above_threshold(all.take(i as int)),
        decreases items@.len() - i,
    {
        assert(all.take(i + 1).drop_last() =~= all.take(i as int));
        if items[i].score > THRESHOLD_KEY {
            let ghost prev = item_views(kept@);
            let x = items[i].clone();
            kept.push(x);
            assert(item_views(kept@) =~= prev.push(item_view(x)));
        }
        i = i + 1;
    }
    assert(all.take(items@.len() as int) =~= all);
    let mut sorted = sort_by_score(&kept);
    if sorted.len() > limit {
        let ghost before = item_views(sorted@);
        sorted.truncate(limit);
        assert(item_views(sorted@) =~= before.take(limit as int));
    }
    sorted
}

proof fn lemma_above(s: Seq<ItemView>)
    ensures
        forall|k: int| 0 <= k < above_threshold(s).len() ==> (#[trigger] above_threshold(s)[k]).4 > THRESHOLD_KEY,
        above_threshold(s).len() <= s.len(),
    decreases s.len(),
{
    if s.len() > 0 {
        lemma_above(s.drop_last());
        let rest = above_threshold(s.drop_last());
        let a = above_threshold(s);
        assert forall|k: int| 0 <= k < a.len() implies (#[trigger] a[k]).4 > THRESHOLD_KEY by {
            if k < rest.len() {
                assert(a[k] == rest[k]);
            }
        }
    }
}

/// Retrieval keeps only results scored above the cut-off, at most `limit`
/// of them, highest score first.
pub proof fn ranked_results(items: Seq<ItemView>, limit: nat)
    ensures
        first_n(sort_by(above_threshold(items), by_score()), limit).len() <= limit,
        forall|k: int|
            0 <= k < first_n(sort_by(above_threshold(items), by_score()), limit).len() ==> (
            #[trigger] first_n(sort_by(above_threshold(items), by_score()), limit)[k]).4 > THRESHOLD_KEY,
        forall|i: int, j: int|
            0 <= i < j < first_n(sort_by(above_threshold(items), by_score()), limit).len() ==> (
            #[trigger] first_n(sort_by(above_threshold(items), by_score()), limit)[i]).4 >= (
            #[trigger] first_n(sort_by(above_threshold(items), by_score()), limit)[j]).4,
{
    let a = above_threshold(items);
    lemma_above(items);
    let s = sort_by(a, by_score());
    sort_by_contains(a, by_score());
    sorted_by_score_descends(a);
    let f = first_n(s, limit);
    assert forall|k: int| 0 <= k < f.len() implies (#[trigger] f[k]).4 > THRESHOLD_KEY by {
        assert(f[k] == s[k]);
        assert(s.contains(s[k]));
        let m = choose|m: int| 0 <= m < a.len() && a[m] == s[k];
    }
    assert forall|i: int, j: int| 0 <= i < j < f.len() implies (#[trigger] f[i]).4 >= (#[trigger] f[j]).4 by {
        assert(f[i] == s[i] && f[j] == s[j]);
    }
}

} // verus!
