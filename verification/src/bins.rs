//! Histogram binning with rightmost-inclusive semantics.
//!
//! Bin edges come sorted ascending (for drift detection they are the
//! quantiles of the expected sample). A value at or below the lowest edge
//! falls in bin 0, a value at or above the highest edge falls in the last
//! bin, and otherwise a value falls in the unique bin whose left edge it
//! exceeds and whose right edge it does not. Equal (collapsed) edges are
//! tolerated.

use vstd::prelude::*;

verus! {

/// The edges are ascending (not necessarily strictly).
pub open spec fn edges_sorted(edges: Seq<i64>) -> bool {
    forall|i: int, j: int| 0 <= i <= j < edges.len() ==> #[trigger] edges[i] <= #[trigger] edges[j]
}

/// The bin `x` falls into, among the `edges.len() - 1` bins.
pub open spec fn spec_bin_index(x: i64, edges: Seq<i64>) -> int
    recommends
        edges.len() >= 2,
{
    if x <= edges[0] {
        0
    } else if x >= edges[edges.len() - 1] {
        edges.len() - 2
    } else {
        choose|r: int| 0 <= r < edges.len() - 1 && #[trigger] edges[r] < x && x <= edges[r + 1]
    }
}

/// Interior bins do not overlap: the bin of an interior value is unique.
proof fn lemma_interior_bin_unique(x: i64, edges: Seq<i64>, r: int, t: int)
    requires
        edges_sorted(edges),
        0 <= r < edges.len() - 1,
        0 <= t < edges.len() - 1,
        edges[r] < x && x <= edges[r + 1],
        edges[t] < x && x <= edges[t + 1],
    ensures
        r == t,
{
    if r < t {
        assert(edges[r + 1] <= edges[t]);
    }
    if t < r {
        assert(edges[t + 1] <= edges[r]);
    }
}

/// Finds the bin of `x` by binary search.
pub fn bin_index(x: i64, edges: &Vec<i64>) -> (r: usize)
    requires
        edges@.len() >= 2,
        edges_sorted(edges@),
    ensures
        r < edges@.len() - 1,
        r == spec_bin_index(x, edges@),
{
    let m = edges.len() - 1;
    if x <= edges[0] {
        return 0;
    }
    if x >= edges[m] {
        return m - 1;
    }
    let mut lo: usize = 0;
    let mut hi: usize = m;
    while lo + 1 < hi
        invariant
            lo < hi <= m,
            m == edges@.len() - 1,
            edges@.len() >= 2,
            edges_sorted(edges@),
            edges@[lo as int] < x,
            x <= edges@[hi as int],
        decreases hi - lo,
    {
        let mid = lo + (hi - lo) / 2;
        if x <= edges[mid] {
            hi = mid;
        } else {
            lo = mid;
        }
    }
    proof {
        let c = spec_bin_index(x, edges@);
        assert(edges@[lo as int] < x && x <= edges@[lo as int + 1]);
        assert(0 <= c < edges@.len() - 1 && edges@[c] < x && x <= edges@[c + 1]) by {
            assert(edges@[lo as int] < x && x <= edges@[lo as int + 1]);
        }
        lemma_interior_bin_unique(x, edges@, c, lo as int);
    }
    lo
}

/// How many of the first `n` keys fall in bin `b`.
pub open spec fn count_in_bin_upto(keys: Seq<i64>, edges: Seq<i64>, b: int, n: int) -> int
    decreases n,
{
    if n <= 0 {
        0
    } else {
        count_in_bin_upto(keys, edges, b, n - 1) + if spec_bin_index(keys[n - 1], edges) == b {
            1int
        } else {
            0int
        }
    }
}

/// How many keys fall in bin `b`.
pub open spec fn count_in_bin(keys: Seq<i64>, edges: Seq<i64>, b: int) -> int {
    count_in_bin_upto(keys, edges, b, keys.len() as int)
}

proof fn lemma_count_in_bin_upto_bounds(keys: Seq<i64>, edges: Seq<i64>, b: int, n: int)
    requires
        0 <= n,
    ensures
        0 <= count_in_bin_upto(keys, edges, b, n) <= n,
    decreases n,
{
    if n > 0 {
        lemma_count_in_bin_upto_bounds(keys, edges, b, n - 1);
    }
}

/// The sum of the first `n` counters.
pub open spec fn sum_upto(s: Seq<u64>, n: int) -> int
    decreases n,
{
    if n <= 0 {
        0
    } else {
        sum_upto(s, n - 1) + s[n - 1]
    }
}

/// The sum of all counters.
pub open spec fn counter_sum(s: Seq<u64>) -> int {
    sum_upto(s, s.len() as int)
}

proof fn lemma_sum_zero(s: Seq<u64>, n: int)
    requires
        0 <= n <= s.len(),
        forall|b: int| 0 <= b < s.len() ==> #[trigger] s[b] == 0,
    ensures
        sum_upto(s, n) == 0,
    decreases n,
{
    if n > 0 {
        lemma_sum_zero(s, n - 1);
    }
}

proof fn lemma_sum_update(s: Seq<u64>, b: int, v: u64, n: int)
    requires
        0 <= b < s.len(),
        0 <= n <= s.len(),
    ensures
        sum_upto(s.update(b, v), n) == if b < n {
            sum_upto(s, n) - s[b] + v
        } else {
            sum_upto(s, n)
        },
    decreases n,
{
    if n > 0 {
        lemma_sum_update(s, b, v, n - 1);
    }
}

/// Counts every key into its bin. The counts cover the sample: they sum to
/// the number of keys.
#[verifier::rlimit(100)]
pub fn histogram_counts(keys: &Vec<i64>, edges: &Vec<i64>) -> (r: Vec<u64>)
    requires
        edges@.len() >= 2,
        edges_sorted(edges@),
    ensures
        r@.len() == edges@.len() - 1,
        forall|b: int| 0 <= b < r@.len() ==> r@[b] == count_in_bin(keys@, edges@, b),
        counter_sum(r@) == keys@.len(),
{
    let bins = edges.len() - 1;
    let mut counts: Vec<u64> = Vec::new();
    let mut k: usize = 0;
    while k < bins
        invariant
            k <= bins,
            counts@.len() == k,
            forall|b: int| 0 <= b < k ==> counts@[b] == 0,
        decreases bins - k,
    {
        counts.push(0);
        k += 1;
    }
    proof {
        lemma_sum_zero(counts@, counts@.len() as int);
    }
    let mut i: usize = 0;
    while i < keys.len()
        invariant
            i <= keys@.len(),
            counts@.len() == bins,
            bins == edges@.len() - 1,
            edges@.len() >= 2,
            edges_sorted(edges@),
            forall|b: int|
                0 <= b < bins ==> counts@[b] == count_in_bin_upto(keys@, edges@, b, i as int),
            counter_sum(counts@) == i,
        decreases keys.len() - i,
    {
        let b = bin_index(keys[i], edges);
        proof {
            lemma_count_in_bin_upto_bounds(keys@, edges@, b as int, i as int);
            lemma_sum_update(counts@, b as int, (counts@[b as int] + 1) as u64, counts@.len() as int);
        }
        let cur = counts[b];
        counts.set(b, cur + 1);
        i += 1;
    }
    counts
}

} // verus!
