//! Counting predicates over sequences.
//!
//! The contracts of this crate are mostly phrased as occurrence counts: how
//! many elements of a sequence lie below a value, equal it, or satisfy some
//! predicate. This module defines those counts once, together with the lemmas
//! the other modules need: counts are bounded, depend only on the prefix they
//! are taken over, drop by at most one when an element is removed, and are
//! invariant under permutation.

use vstd::prelude::*;

verus! {

/// How many of the first `n` elements of `s` satisfy `pred`.
pub open spec fn count_pred_upto<A>(s: Seq<A>, pred: spec_fn(A) -> bool, n: int) -> int
    decreases n,
{
    if n <= 0 {
        0
    } else {
        count_pred_upto(s, pred, n - 1) + if pred(s[n - 1]) {
            1int
        } else {
            0int
        }
    }
}

/// How many elements of `s` satisfy `pred`.
pub open spec fn count_pred<A>(s: Seq<A>, pred: spec_fn(A) -> bool) -> int {
    count_pred_upto(s, pred, s.len() as int)
}

/// Holds of keys strictly below `v`.
pub open spec fn below(v: i64) -> spec_fn(i64) -> bool {
    |x: i64| x < v
}

/// Holds of keys equal to `v`.
pub open spec fn equal_to(v: i64) -> spec_fn(i64) -> bool {
    |x: i64| x == v
}

/// Holds of keys at or below `v`.
pub open spec fn at_most(v: i64) -> spec_fn(i64) -> bool {
    |x: i64| x <= v
}

/// Holds of keys strictly above `v`.
pub open spec fn above(v: i64) -> spec_fn(i64) -> bool {
    |x: i64| x > v
}

/// Elements of `s` strictly below `v`.
pub open spec fn count_lt(s: Seq<i64>, v: i64) -> int {
    count_pred(s, below(v))
}

/// Elements of `s` equal to `v`.
pub open spec fn count_eq(s: Seq<i64>, v: i64) -> int {
    count_pred(s, equal_to(v))
}

/// Elements of `s` at or below `v`.
pub open spec fn count_le(s: Seq<i64>, v: i64) -> int {
    count_pred(s, at_most(v))
}

/// Below-or-equal splits into strictly-below and equal.
pub proof fn lemma_count_le_decomposition(s: Seq<i64>, v: i64)
    ensures
        count_le(s, v) == count_lt(s, v) + count_eq(s, v),
{
    lemma_count_le_decomposition_upto(s, v, s.len() as int);
}

proof fn lemma_count_le_decomposition_upto(s: Seq<i64>, v: i64, n: int)
    ensures
        count_pred_upto(s, at_most(v), n) == count_pred_upto(s, below(v), n) + count_pred_upto(
            s,
            equal_to(v),
            n,
        ),
    decreases n,
{
    if n > 0 {
        lemma_count_le_decomposition_upto(s, v, n - 1);
    }
}

/// Every key is below, equal to, or above `v`: the three counts over a
/// prefix cover it.
pub proof fn lemma_count_trichotomy(s: Seq<i64>, v: i64, n: int)
    requires
        0 <= n,
    ensures
        count_pred_upto(s, below(v), n) + count_pred_upto(s, equal_to(v), n) + count_pred_upto(
            s,
            above(v),
            n,
        ) == n,
    decreases n,
{
    if n > 0 {
        lemma_count_trichotomy(s, v, n - 1);
    }
}

pub proof fn lemma_count_pred_upto_bounds<A>(s: Seq<A>, pred: spec_fn(A) -> bool, n: int)
    requires
        0 <= n,
    ensures
        0 <= count_pred_upto(s, pred, n) <= n,
    decreases n,
{
    if n > 0 {
        lemma_count_pred_upto_bounds(s, pred, n - 1);
    }
}

/// The count over a prefix only looks at that prefix.
pub proof fn lemma_count_pred_upto_congruence<A>(
    s: Seq<A>,
    t: Seq<A>,
    pred: spec_fn(A) -> bool,
    n: int,
)
    requires
        forall|i: int| 0 <= i < n ==> s[i] == t[i],
    ensures
        count_pred_upto(s, pred, n) == count_pred_upto(t, pred, n),
    decreases n,
{
    if n > 0 {
        lemma_count_pred_upto_congruence(s, t, pred, n - 1);
    }
}

/// A predicate that holds exactly on the window `[lo, hi)` is satisfied by
/// exactly `hi - lo` elements.
pub proof fn lemma_count_pred_window<A>(s: Seq<A>, pred: spec_fn(A) -> bool, lo: int, hi: int)
    requires
        0 <= lo <= hi <= s.len(),
        forall|i: int| 0 <= i < s.len() ==> (pred(#[trigger] s[i]) <==> lo <= i < hi),
    ensures
        count_pred(s, pred) == hi - lo,
{
    lemma_count_pred_window_upto(s, pred, lo, hi, s.len() as int);
}

proof fn lemma_count_pred_window_upto<A>(
    s: Seq<A>,
    pred: spec_fn(A) -> bool,
    lo: int,
    hi: int,
    n: int,
)
    requires
        0 <= lo <= hi <= s.len(),
        0 <= n <= s.len(),
        forall|i: int| 0 <= i < s.len() ==> (pred(#[trigger] s[i]) <==> lo <= i < hi),
    ensures
        count_pred_upto(s, pred, n) == if n <= lo {
            0int
        } else if n <= hi {
            n - lo
        } else {
            hi - lo
        },
    decreases n,
{
    if n > 0 {
        lemma_count_pred_window_upto(s, pred, lo, hi, n - 1);
    }
}

/// Removing one element removes exactly its own contribution to the count.
pub proof fn lemma_count_pred_remove<A>(s: Seq<A>, pred: spec_fn(A) -> bool, i: int)
    requires
        0 <= i < s.len(),
    ensures
        count_pred(s.remove(i), pred) == count_pred(s, pred) - if pred(s[i]) {
            1int
        } else {
            0int
        },
{
    lemma_count_pred_remove_upto(s, pred, i, s.len() - 1);
}

proof fn lemma_count_pred_remove_upto<A>(s: Seq<A>, pred: spec_fn(A) -> bool, i: int, m: int)
    requires
        0 <= i < s.len(),
        i <= m <= s.len() - 1,
    ensures
        count_pred_upto(s.remove(i), pred, m) == count_pred_upto(s, pred, m + 1) - if pred(
            s[i],
        ) {
            1int
        } else {
            0int
        },
    decreases m,
{
    s.remove_ensures(i);
    if m == i {
        lemma_count_pred_upto_congruence(s.remove(i), s, pred, i);
    } else {
        lemma_count_pred_remove_upto(s, pred, i, m - 1);
    }
}

/// Counts are invariant under permutation.
pub proof fn lemma_count_pred_permutation<A>(s: Seq<A>, t: Seq<A>, pred: spec_fn(A) -> bool)
    requires
        s.to_multiset() == t.to_multiset(),
    ensures
        count_pred(s, pred) == count_pred(t, pred),
    decreases s.len(),
{
    broadcast use vstd::seq_lib::group_to_multiset_ensures;

    if s.len() == 0 {
        assert(s.to_multiset().len() == 0);
        assert(t.to_multiset().len() == t.len());
    } else {
        let last: int = s.len() - 1;
        let a = s[last];
        assert(s.to_multiset().count(a) > 0) by {
            assert(s.contains(a));
        }
        assert(t.contains(a));
        let j: int = choose|j: int| 0 <= j < t.len() && t[j] == a;
        assert(s.remove(last).to_multiset() =~= t.remove(j).to_multiset());
        lemma_count_pred_permutation(s.remove(last), t.remove(j), pred);
        lemma_count_pred_remove(s, pred, last);
        lemma_count_pred_remove(t, pred, j);
    }
}

/// A pointwise-weaker predicate is satisfied at most as often.
pub proof fn lemma_count_pred_implies<A>(s: Seq<A>, p: spec_fn(A) -> bool, q: spec_fn(A) -> bool)
    requires
        forall|i: int| 0 <= i < s.len() ==> p(#[trigger] s[i]) ==> q(s[i]),
    ensures
        count_pred(s, p) <= count_pred(s, q),
{
    lemma_count_pred_implies_upto(s, p, q, s.len() as int);
}

proof fn lemma_count_pred_implies_upto<A>(
    s: Seq<A>,
    p: spec_fn(A) -> bool,
    q: spec_fn(A) -> bool,
    n: int,
)
    requires
        0 <= n <= s.len(),
        forall|i: int| 0 <= i < s.len() ==> p(#[trigger] s[i]) ==> q(s[i]),
    ensures
        count_pred_upto(s, p, n) <= count_pred_upto(s, q, n),
    decreases n,
{
    if n > 0 {
        lemma_count_pred_implies_upto(s, p, q, n - 1);
    }
}

/// Cumulative counts grow with the threshold: the empirical distribution
/// function is monotone, and strictly so across an occurring value.
pub proof fn lemma_count_le_monotone(s: Seq<i64>, v1: i64, v2: i64)
    requires
        v1 <= v2,
    ensures
        count_le(s, v1) <= count_le(s, v2),
        v1 < v2 && s.contains(v2) ==> count_le(s, v1) < count_le(s, v2),
{
    assert forall|i: int| 0 <= i < s.len() implies at_most(v1)(#[trigger] s[i]) ==> at_most(v2)(
        s[i],
    ) by {}
    lemma_count_pred_implies(s, at_most(v1), at_most(v2));
    if v1 < v2 && s.contains(v2) {
        // everything at most v1 lies strictly below v2, and v2 itself
        // contributes on top of that
        assert forall|i: int| 0 <= i < s.len() implies at_most(v1)(#[trigger] s[i]) ==> below(v2)(
            s[i],
        ) by {}
        lemma_count_pred_implies(s, at_most(v1), below(v2));
        lemma_count_le_decomposition(s, v2);
        lemma_count_pred_zero(s, equal_to(v2));
        assert(count_eq(s, v2) != 0) by {
            let w: int = choose|w: int| 0 <= w < s.len() && s[w] == v2;
            assert(equal_to(v2)(s[w]));
        }
        lemma_count_pred_upto_bounds(s, equal_to(v2), s.len() as int);
    }
}

/// A value that does not occur has an occurrence count of zero, and vice
/// versa.
pub proof fn lemma_count_pred_zero<A>(s: Seq<A>, pred: spec_fn(A) -> bool)
    ensures
        count_pred(s, pred) == 0 <==> (forall|i: int| 0 <= i < s.len() ==> !pred(#[trigger] s[i])),
{
    lemma_count_pred_zero_upto(s, pred, s.len() as int);
}

proof fn lemma_count_pred_zero_upto<A>(s: Seq<A>, pred: spec_fn(A) -> bool, n: int)
    requires
        0 <= n <= s.len(),
    ensures
        count_pred_upto(s, pred, n) == 0 <==> (forall|i: int| 0 <= i < n ==> !pred(
            #[trigger] s[i],
        )),
    decreases n,
{
    if n > 0 {
        lemma_count_pred_zero_upto(s, pred, n - 1);
        lemma_count_pred_upto_bounds(s, pred, n - 1);
    }
}

} // verus!
