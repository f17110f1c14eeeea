//! Hubness accounting: k-occurrence counts and the sums behind their Gini
//! coefficient.
//!
//! Each point's k-occurrence is how often it appears across all neighbor
//! lists. The Gini coefficient of those counts, the hubness indicator, is
//! `2 S / (n T) - (n + 1) / n`, where the counts are sorted ascending,
//! `S` is their weighted sum with 1-based position weights and `T` their
//! plain sum. The counts and both sums are exact integers and are computed
//! here; the service layer forms the quotient.

use vstd::prelude::*;
use crate::counting::{count_pred, count_pred_upto, lemma_count_pred_upto_bounds};
use crate::order::{lemma_sorted_keys_facts, sort_keys, sorted_keys};

verus! {

/// Holds of identifiers equal to `j`.
pub open spec fn equals_id(j: usize) -> spec_fn(usize) -> bool {
    |x: usize| x == j
}

/// Occurrences of `j` in the first `n` lists.
pub open spec fn occurrences_upto(lists: Seq<Seq<usize>>, j: usize, n: int) -> int
    decreases n,
{
    if n <= 0 {
        0
    } else {
        occurrences_upto(lists, j, n - 1) + count_pred(lists[n - 1], equals_id(j))
    }
}

/// Occurrences of `j` across all lists.
pub open spec fn occurrences(lists: Seq<Seq<usize>>, j: usize) -> int {
    occurrences_upto(lists, j, lists.len() as int)
}

proof fn lemma_occurrences_upto_bounds(lists: Seq<Seq<usize>>, j: usize, n: int)
    requires
        0 <= n <= lists.len(),
        forall|a: int| 0 <= a < lists.len() ==> #[trigger] lists[a].len() < 0x8000_0000,
    ensures
        0 <= occurrences_upto(lists, j, n) <= n * 0x8000_0000,
    decreases n,
{
    if n > 0 {
        lemma_occurrences_upto_bounds(lists, j, n - 1);
        lemma_count_pred_upto_bounds(lists[n - 1], equals_id(j), lists[n - 1].len() as int);
        assert((n - 1) * 0x8000_0000 + 0x8000_0000 == n * 0x8000_0000) by (nonlinear_arith);
    }
}

/// Counts, for each point, how often it occurs across the neighbor lists.
pub fn occurrence_counts(neighbor_lists: &Vec<Vec<usize>>, n_points: usize) -> (r: Vec<i64>)
    requires
        forall|a: int, b: int|
            0 <= a < neighbor_lists.deep_view().len() && 0 <= b
                < neighbor_lists.deep_view()[a].len() ==> #[trigger] neighbor_lists.deep_view()[a][b]
                < n_points,
        neighbor_lists.deep_view().len() < 0x8000_0000,
        forall|a: int|
            0 <= a < neighbor_lists.deep_view().len() ==> #[trigger] neighbor_lists.deep_view()[a].len()
                < 0x8000_0000,
    ensures
        r@.len() == n_points,
        forall|j: int|
            0 <= j < n_points ==> #[trigger] r@[j] == occurrences(
                neighbor_lists.deep_view(),
                j as usize,
            ),
{
    let ghost dv = neighbor_lists.deep_view();
    let mut counts: Vec<i64> = Vec::new();
    let mut k: usize = 0;
    while k < n_points
        invariant
            k <= n_points,
            counts@.len() == k,
            forall|j: int| 0 <= j < k ==> counts@[j] == 0,
        decreases n_points - k,
    {
        counts.push(0);
        k += 1;
    }
    let mut a: usize = 0;
    while a < neighbor_lists.len()
        invariant
            a <= neighbor_lists@.len(),
            dv == neighbor_lists.deep_view(),
            dv.len() == neighbor_lists@.len(),
            forall|t: int| 0 <= t < dv.len() ==> #[trigger] dv[t] == neighbor_lists@[t]@,
            counts@.len() == n_points,
            forall|t: int, b: int|
                0 <= t < dv.len() && 0 <= b < dv[t].len() ==> #[trigger] dv[t][b] < n_points,
            dv.len() < 0x8000_0000,
            forall|t: int| 0 <= t < dv.len() ==> #[trigger] dv[t].len() < 0x8000_0000,
            forall|j: int|
                0 <= j < n_points ==> #[trigger] counts@[j] == occurrences_upto(dv, j as usize, a as int),
        decreases neighbor_lists.len() - a,
    {
        let row = &neighbor_lists[a];
        let mut b: usize = 0;
        while b < row.len()
            invariant
                b <= row@.len(),
                a < dv.len(),
                row@ == dv[a as int],
                dv.len() < 0x8000_0000,
                forall|t: int| 0 <= t < dv.len() ==> #[trigger] dv[t].len() < 0x8000_0000,
                counts@.len() == n_points,
                forall|t: int, u: int|
                    0 <= t < dv.len() && 0 <= u < dv[t].len() ==> #[trigger] dv[t][u] < n_points,
                forall|j: int|
                    0 <= j < n_points ==> #[trigger] counts@[j] == occurrences_upto(
                        dv,
                        j as usize,
                        a as int,
                    ) + count_pred_upto(dv[a as int], equals_id(j as usize), b as int),
            decreases row.len() - b,
        {
            let x = row[b];
            proof {
                lemma_occurrences_upto_bounds(dv, x, a as int);
                lemma_count_pred_upto_bounds(dv[a as int], equals_id(x), b as int);
                assert(a as int * 0x8000_0000 <= 0x8000_0000 * 0x8000_0000) by (nonlinear_arith)
                    requires
                        0 <= a as int <= 0x8000_0000,
                ;
            }
            let cur = counts[x];
            counts.set(x, cur + 1);
            b += 1;
        }
        a += 1;
    }
    counts
}

/// The plain sum of the first `n` counts.
pub open spec fn count_total_upto(s: Seq<i64>, n: int) -> int
    decreases n,
{
    if n <= 0 {
        0
    } else {
        count_total_upto(s, n - 1) + s[n - 1]
    }
}

/// The plain sum of the counts.
pub open spec fn count_total(s: Seq<i64>) -> int {
    count_total_upto(s, s.len() as int)
}

/// The weighted sum of the first `n` counts, position `k` (from zero)
/// weighted `k + 1`.
pub open spec fn weighted_total_upto(s: Seq<i64>, n: int) -> int
    decreases n,
{
    if n <= 0 {
        0
    } else {
        weighted_total_upto(s, n - 1) + n * s[n - 1]
    }
}

proof fn lemma_count_total_upto_bounds(s: Seq<i64>, n: int)
    requires
        0 <= n <= s.len(),
        forall|i: int| 0 <= i < s.len() ==> 0 <= #[trigger] s[i],
    ensures
        0 <= count_total_upto(s, n) <= n * 0x8000_0000_0000_0000,
    decreases n,
{
    if n > 0 {
        lemma_count_total_upto_bounds(s, n - 1);
        assert((n - 1) * 0x8000_0000_0000_0000 + 0x8000_0000_0000_0000 == n
            * 0x8000_0000_0000_0000) by (nonlinear_arith);
    }
}

proof fn lemma_weighted_total_upto_bounds(s: Seq<i64>, n: int)
    requires
        0 <= n <= s.len(),
        s.len() < 0x1_0000_0000,
        forall|i: int| 0 <= i < s.len() ==> 0 <= #[trigger] s[i],
    ensures
        0 <= weighted_total_upto(s, n) <= n * 0x8000_0000_0000_0000_0000_0000,
    decreases n,
{
    if n > 0 {
        lemma_weighted_total_upto_bounds(s, n - 1);
        assert(0 <= n * s[n - 1] <= 0x8000_0000_0000_0000_0000_0000) by (nonlinear_arith)
            requires
                0 < n < 0x1_0000_0000,
                0 <= s[n - 1] < 0x8000_0000_0000_0000,
        ;
        assert((n - 1) * 0x8000_0000_0000_0000_0000_0000 + 0x8000_0000_0000_0000_0000_0000 == n
            * 0x8000_0000_0000_0000_0000_0000) by (nonlinear_arith);
    }
}

/// The two exact sums behind the Gini coefficient of the counts: the
/// weighted sum `S` of the ascending counts, and their plain sum `T`.
/// The coefficient is `2 S / (n T) - (n + 1) / n` (zero when `n` or `T` is).
pub fn gini_sums(counts: &Vec<i64>) -> (r: (u128, u128))
    requires
        forall|i: int| 0 <= i < counts@.len() ==> 0 <= #[trigger] counts@[i],
        counts@.len() < 0x1_0000_0000,
    ensures
        r.0 == weighted_total_upto(sorted_keys(counts@), counts@.len() as int),
        r.1 == count_total(counts@),
{
    let n = counts.len();
    let sorted = sort_keys(counts);
    proof {
        lemma_sorted_keys_facts(counts@);
        assert forall|i: int| 0 <= i < sorted@.len() implies 0 <= #[trigger] sorted@[i] by {
            assert(counts@.contains(sorted@[i]));
            let w: int = choose|w: int| 0 <= w < counts@.len() && counts@[w] == sorted@[i];
            assert(0 <= counts@[w]);
        }
    }
    let mut weighted: u128 = 0;
    let mut k: usize = 0;
    while k < n
        invariant
            k <= n,
            n == counts@.len(),
            n < 0x1_0000_0000,
            sorted@ == sorted_keys(counts@),
            sorted@.len() == n,
            forall|i: int| 0 <= i < sorted@.len() ==> 0 <= #[trigger] sorted@[i],
            weighted == weighted_total_upto(sorted@, k as int),
        decreases n - k,
    {
        proof {
            lemma_weighted_total_upto_bounds(sorted@, k as int + 1);
            lemma_weighted_total_upto_bounds(sorted@, k as int);
        }
        weighted = weighted + (k as u128 + 1) * (sorted[k] as u128);
        k += 1;
    }
    let mut total: u128 = 0;
    let mut t: usize = 0;
    while t < n
        invariant
            t <= n,
            n == counts@.len(),
            n < 0x1_0000_0000,
            forall|i: int| 0 <= i < counts@.len() ==> 0 <= #[trigger] counts@[i],
            total == count_total_upto(counts@, t as int),
        decreases n - t,
    {
        proof {
            lemma_count_total_upto_bounds(counts@, t as int + 1);
            lemma_count_total_upto_bounds(counts@, t as int);
        }
        total = total + (counts[t] as u128);
        t += 1;
    }
    (weighted, total)
}

} // verus!
