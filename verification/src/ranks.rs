//! Tie-aware average ranks.
//!
//! Ranks are 1-based; a group of equal values receives the mean of the ranks
//! the group occupies. For the element at position `k`, with `L` elements
//! strictly below it and `E` elements equal to it (itself included), that
//! mean is `L + (E + 1) / 2` — so its double, `2L + E + 1`, is always an
//! integer. This module returns the doubled ranks; the service layer halves
//! them in its own numeric domain before feeding them to the rank
//! correlations.

use vstd::prelude::*;
use crate::counting::{above, at_most, below, count_eq, count_lt, count_pred_upto, equal_to,
    lemma_count_le_decomposition, lemma_count_pred_implies, lemma_count_pred_remove,
    lemma_count_pred_upto_bounds, lemma_count_pred_upto_congruence, lemma_count_pred_window,
    lemma_count_pred_zero, lemma_count_trichotomy};

verus! {

/// Twice the 1-based average rank of each element, in input order.
pub fn average_ranks_doubled(keys: &Vec<i64>) -> (r: Vec<u64>)
    requires
        keys@.len() < 0x4000_0000_0000_0000,
    ensures
        r@.len() == keys@.len(),
        forall|k: int|
            0 <= k < keys@.len() ==> r@[k] == 2 * count_lt(keys@, keys@[k]) + count_eq(
                keys@,
                keys@[k],
            ) + 1,
{
    let n = keys.len();
    let mut ranks: Vec<u64> = Vec::new();
    let mut k: usize = 0;
    while k < n
        invariant
            k <= n,
            n == keys@.len(),
            n < 0x4000_0000_0000_0000,
            ranks@.len() == k,
            forall|w: int|
                0 <= w < k ==> ranks@[w] == 2 * count_lt(keys@, keys@[w]) + count_eq(
                    keys@,
                    keys@[w],
                ) + 1,
        decreases n - k,
    {
        let v = keys[k];
        let mut lt: u64 = 0;
        let mut eq: u64 = 0;
        let mut t: usize = 0;
        while t < n
            invariant
                t <= n,
                n == keys@.len(),
                n < 0x4000_0000_0000_0000,
                v == keys@[k as int],
                0 <= k < n,
                lt == count_pred_upto(keys@, below(v), t as int),
                eq == count_pred_upto(keys@, equal_to(v), t as int),
                lt <= t,
                eq <= t,
            decreases n - t,
        {
            if keys[t] < v {
                lt += 1;
            } else if keys[t] == v {
                eq += 1;
            }
            t += 1;
        }
        ranks.push(2 * lt + eq + 1);
        k += 1;
    }
    ranks
}

/// Doubled average ranks stay within the rank scale: every element's
/// doubled rank lies between 2 (rank 1) and twice the sample size.
pub proof fn lemma_doubled_rank_bounds(s: Seq<i64>, k: int)
    requires
        0 <= k < s.len(),
    ensures
        2 <= 2 * count_lt(s, s[k]) + count_eq(s, s[k]) + 1,
        2 * count_lt(s, s[k]) + count_eq(s, s[k]) + 1 <= 2 * s.len(),
{
    let v = s[k];
    lemma_count_le_decomposition(s, v);
    lemma_count_pred_upto_bounds(s, at_most(v), s.len() as int);
    lemma_count_pred_upto_bounds(s, below(v), s.len() as int);
    lemma_count_pred_zero(s, equal_to(v));
    assert(equal_to(v)(s[k]));
    assert(count_eq(s, v) != 0);
    lemma_count_pred_upto_bounds(s, equal_to(v), s.len() as int);
}

/// On a strictly increasing sample there are no ties: the element at
/// position `k` has doubled rank `2 (k + 1)`, i.e. plain rank `k + 1`.
pub proof fn lemma_ranks_strictly_increasing(s: Seq<i64>, k: int)
    requires
        forall|i: int, j: int| 0 <= i < j < s.len() ==> #[trigger] s[i] < #[trigger] s[j],
        0 <= k < s.len(),
    ensures
        2 * count_lt(s, s[k]) + count_eq(s, s[k]) + 1 == 2 * k + 2,
{
    assert forall|i: int| 0 <= i < s.len() implies (below(s[k])(#[trigger] s[i]) <==> 0 <= i
        < k) by {
        if i < k {
            assert(s[i] < s[k]);
        } else if i > k {
            assert(s[k] < s[i]);
        }
    }
    lemma_count_pred_window(s, below(s[k]), 0, k);
    assert forall|i: int| 0 <= i < s.len() implies (equal_to(s[k])(#[trigger] s[i]) <==> k <= i
        < k + 1) by {
        if i < k {
            assert(s[i] < s[k]);
        } else if i > k {
            assert(s[k] < s[i]);
        }
    }
    lemma_count_pred_window(s, equal_to(s[k]), k, k + 1);
}

/// On a strictly decreasing sample the element at position `k` has doubled
/// rank `2 (n - k)`: the ranks run backwards.
pub proof fn lemma_ranks_strictly_decreasing(s: Seq<i64>, k: int)
    requires
        forall|i: int, j: int| 0 <= i < j < s.len() ==> #[trigger] s[i] > #[trigger] s[j],
        0 <= k < s.len(),
    ensures
        2 * count_lt(s, s[k]) + count_eq(s, s[k]) + 1 == 2 * (s.len() - k),
{
    assert forall|i: int| 0 <= i < s.len() implies (below(s[k])(#[trigger] s[i]) <==> k + 1 <= i
        < s.len()) by {
        if i < k {
            assert(s[i] > s[k]);
        } else if i > k {
            assert(s[k] > s[i]);
        }
    }
    lemma_count_pred_window(s, below(s[k]), k + 1, s.len() as int);
    assert forall|i: int| 0 <= i < s.len() implies (equal_to(s[k])(#[trigger] s[i]) <==> k <= i
        < k + 1) by {
        if i < k {
            assert(s[i] > s[k]);
        } else if i > k {
            assert(s[k] > s[i]);
        }
    }
    lemma_count_pred_window(s, equal_to(s[k]), k, k + 1);
}

/// A strictly larger key has a strictly larger doubled rank.
proof fn lemma_doubled_rank_strictly_monotone(s: Seq<i64>, v1: i64, v2: i64)
    requires
        v1 < v2,
        s.contains(v1),
        s.contains(v2),
    ensures
        2 * count_lt(s, v1) + count_eq(s, v1) < 2 * count_lt(s, v2) + count_eq(s, v2),
{
    // everything at or below v1 lies strictly below v2
    assert forall|i: int| 0 <= i < s.len() implies at_most(v1)(#[trigger] s[i]) ==> below(v2)(
        s[i],
    ) by {}
    lemma_count_pred_implies(s, at_most(v1), below(v2));
    lemma_count_le_decomposition(s, v1);
    lemma_count_pred_zero(s, equal_to(v1));
    assert(count_eq(s, v1) != 0) by {
        let w: int = choose|w: int| 0 <= w < s.len() && s[w] == v1;
        assert(equal_to(v1)(s[w]));
    }
    lemma_count_pred_zero(s, equal_to(v2));
    assert(count_eq(s, v2) != 0) by {
        let w: int = choose|w: int| 0 <= w < s.len() && s[w] == v2;
        assert(equal_to(v2)(s[w]));
    }
    lemma_count_pred_upto_bounds(s, equal_to(v1), s.len() as int);
    lemma_count_pred_upto_bounds(s, equal_to(v2), s.len() as int);
}

/// The rank transform preserves every comparison, ties included: two
/// elements' doubled ranks compare exactly as the elements themselves do.
/// Classifying pairs of ranks, as the rank correlations do, is therefore the
/// same as classifying pairs of keys.
pub proof fn lemma_ranks_order_as_keys(s: Seq<i64>, i: int, j: int)
    requires
        0 <= i < s.len(),
        0 <= j < s.len(),
    ensures
        (2 * count_lt(s, s[i]) + count_eq(s, s[i]) < 2 * count_lt(s, s[j]) + count_eq(s, s[j]))
            <==> s[i] < s[j],
        (2 * count_lt(s, s[i]) + count_eq(s, s[i]) == 2 * count_lt(s, s[j]) + count_eq(s, s[j]))
            <==> s[i] == s[j],
{
    if s[i] < s[j] {
        lemma_doubled_rank_strictly_monotone(s, s[i], s[j]);
    } else if s[j] < s[i] {
        lemma_doubled_rank_strictly_monotone(s, s[j], s[i]);
    }
}

/// On strictly increasing paired samples the two rank transforms agree
/// position by position (each is the identity ranking), so their rank
/// correlation is that of a sequence with itself.
pub proof fn lemma_ranks_agree_on_strictly_increasing_pairs(x: Seq<i64>, y: Seq<i64>, k: int)
    requires
        x.len() == y.len(),
        forall|i: int, j: int| 0 <= i < j < x.len() ==> #[trigger] x[i] < #[trigger] x[j],
        forall|i: int, j: int| 0 <= i < j < y.len() ==> #[trigger] y[i] < #[trigger] y[j],
        0 <= k < x.len(),
    ensures
        2 * count_lt(x, x[k]) + count_eq(x, x[k]) == 2 * count_lt(y, y[k]) + count_eq(y, y[k]),
{
    lemma_ranks_strictly_increasing(x, k);
    lemma_ranks_strictly_increasing(y, k);
}

/// The sum of the first `n` doubled average ranks.
pub open spec fn doubled_rank_sum_upto(s: Seq<i64>, n: int) -> int
    decreases n,
{
    if n <= 0 {
        0
    } else {
        doubled_rank_sum_upto(s, n - 1) + 2 * count_lt(s, s[n - 1]) + count_eq(s, s[n - 1]) + 1
    }
}

/// The sum of all doubled average ranks.
pub open spec fn doubled_rank_sum(s: Seq<i64>) -> int {
    doubled_rank_sum_upto(s, s.len() as int)
}

/// Removing the last element lowers each remaining element's doubled rank by
/// exactly the removed element's contribution: two if it lay below, one if it
/// was equal.
proof fn lemma_rank_sum_remove_last(s: Seq<i64>, n: int)
    requires
        s.len() > 0,
        0 <= n <= s.len() - 1,
    ensures
        doubled_rank_sum_upto(s, n) == doubled_rank_sum_upto(s.remove(s.len() - 1), n) + 2
            * count_pred_upto(s, above(s[s.len() - 1]), n) + count_pred_upto(
            s,
            equal_to(s[s.len() - 1]),
            n,
        ),
    decreases n,
{
    let last: int = s.len() - 1;
    let a = s[last];
    let t = s.remove(last);
    s.remove_ensures(last);
    if n > 0 {
        lemma_rank_sum_remove_last(s, n - 1);
        let v = s[n - 1];
        assert(t[n - 1] == v);
        // counts against the shortened sample drop by the removed element's
        // own indicator
        lemma_count_pred_remove(s, below(v), last);
        lemma_count_pred_remove(s, equal_to(v), last);
        // the count over the whole of s splits off position `last`
        assert(count_lt(s, v) == count_pred_upto(s, below(v), last) + if a < v {
            1int
        } else {
            0int
        });
        assert(count_eq(s, v) == count_pred_upto(s, equal_to(v), last) + if a == v {
            1int
        } else {
            0int
        });
        lemma_count_pred_upto_congruence(s, t, below(v), last);
        lemma_count_pred_upto_congruence(s, t, equal_to(v), last);
        assert(count_lt(t, v) == count_lt(s, v) - if a < v {
            1int
        } else {
            0int
        });
        assert(count_eq(t, v) == count_eq(s, v) - if a == v {
            1int
        } else {
            0int
        });
    }
}

/// Average ranks always sum to `n (n + 1) / 2`, ties or no ties: tie
/// averaging redistributes ranks within a group without changing their
/// total. Stated over doubled ranks, which are integers.
pub proof fn lemma_doubled_rank_sum(s: Seq<i64>)
    ensures
        doubled_rank_sum(s) == s.len() * (s.len() + 1),
    decreases s.len(),
{
    let n = s.len() as int;
    if n == 0 {
    } else {
        let last: int = n - 1;
        let a = s[last];
        let t = s.remove(last);
        s.remove_ensures(last);
        lemma_doubled_rank_sum(t);
        lemma_rank_sum_remove_last(s, last);
        // the removed element's own doubled rank, split at position `last`
        assert(count_lt(s, a) == count_pred_upto(s, below(a), last));
        assert(count_eq(s, a) == count_pred_upto(s, equal_to(a), last) + 1);
        lemma_count_trichotomy(s, a, last);
        assert((n - 1) * n + 2 * (n - 1) + 2 == n * (n + 1)) by (nonlinear_arith);
    }
}

} // verus!
