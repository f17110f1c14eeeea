//! Pair classification for Kendall's tau-b.
//!
//! Every unordered pair of observations of a paired sample is concordant,
//! discordant, tied in the first dimension only, tied in the second only, or
//! tied in both. tau-b is `(C - D) / sqrt((C + D + Tx) (C + D + Ty))`, with
//! pairs tied in both dimensions excluded throughout; this module delivers
//! the five exact pair counts and the service layer forms that quotient.
//!
//! tau-b is often presented over tie-aware average ranks; a pair of ranks
//! compares exactly as the pair of underlying keys does (the ranks module
//! proves it), so the keys are classified directly.

use vstd::prelude::*;

verus! {

/// How one pair of observations relates in the two dimensions.
pub enum PairClass {
    Concordant,
    Discordant,
    TieX,
    TieY,
    TieBoth,
}

/// The class of the pair of observations `(xi, yi)`, `(xj, yj)`.
pub open spec fn pair_class(xi: i64, xj: i64, yi: i64, yj: i64) -> PairClass {
    if xi == xj && yi == yj {
        PairClass::TieBoth
    } else if xi == xj {
        PairClass::TieX
    } else if yi == yj {
        PairClass::TieY
    } else if (xi < xj) <==> (yi < yj) {
        PairClass::Concordant
    } else {
        PairClass::Discordant
    }
}

/// Pairs `(i, t)` with `i < t < j` whose class is `c`.
pub open spec fn row_count(x: Seq<i64>, y: Seq<i64>, i: int, j: int, c: PairClass) -> int
    decreases j - i,
{
    if j <= i + 1 {
        0
    } else {
        row_count(x, y, i, j - 1, c) + if pair_class(x[i], x[j - 1], y[i], y[j - 1]) == c {
            1int
        } else {
            0int
        }
    }
}

/// Pairs `(s, t)` with `s < i`, `s < t < x.len()`, whose class is `c`.
pub open spec fn count_upto_row(x: Seq<i64>, y: Seq<i64>, i: int, c: PairClass) -> int
    decreases i,
{
    if i <= 0 {
        0
    } else {
        count_upto_row(x, y, i - 1, c) + row_count(x, y, i - 1, x.len() as int, c)
    }
}

/// All pairs of the sample whose class is `c`.
pub open spec fn pair_count(x: Seq<i64>, y: Seq<i64>, c: PairClass) -> int {
    count_upto_row(x, y, x.len() as int, c)
}

proof fn lemma_row_count_bounds(x: Seq<i64>, y: Seq<i64>, i: int, j: int, c: PairClass)
    ensures
        0 <= row_count(x, y, i, j, c),
        j <= i + 1 ==> row_count(x, y, i, j, c) == 0,
        j > i + 1 ==> row_count(x, y, i, j, c) <= j - i - 1,
    decreases j - i,
{
    if j > i + 1 {
        lemma_row_count_bounds(x, y, i, j - 1, c);
    }
}

proof fn lemma_count_upto_row_bounds(x: Seq<i64>, y: Seq<i64>, i: int, c: PairClass)
    requires
        0 <= i,
    ensures
        0 <= count_upto_row(x, y, i, c) <= i * x.len(),
    decreases i,
{
    if i > 0 {
        lemma_count_upto_row_bounds(x, y, i - 1, c);
        lemma_row_count_bounds(x, y, i - 1, x.len() as int, c);
        assert((i - 1) * x.len() + x.len() == i * x.len()) by (nonlinear_arith);
    }
}

/// The five pair counts of a paired sample.
pub struct PairCounts {
    pub concordant: u64,
    pub discordant: u64,
    pub ties_x: u64,
    pub ties_y: u64,
    pub ties_both: u64,
}

/// Classifies every unordered pair of observations and counts each class.
pub fn kendall_pair_counts(x: &Vec<i64>, y: &Vec<i64>) -> (r: PairCounts)
    requires
        x@.len() == y@.len(),
        x@.len() < 0x8000_0000,
    ensures
        r.concordant == pair_count(x@, y@, PairClass::Concordant),
        r.discordant == pair_count(x@, y@, PairClass::Discordant),
        r.ties_x == pair_count(x@, y@, PairClass::TieX),
        r.ties_y == pair_count(x@, y@, PairClass::TieY),
        r.ties_both == pair_count(x@, y@, PairClass::TieBoth),
{
    let n = x.len();
    let mut c: u64 = 0;
    let mut d: u64 = 0;
    let mut tx: u64 = 0;
    let mut ty: u64 = 0;
    let mut tb: u64 = 0;
    let mut i: usize = 0;
    while i < n
        invariant
            i <= n,
            n == x@.len(),
            n == y@.len(),
            n < 0x8000_0000,
            c == count_upto_row(x@, y@, i as int, PairClass::Concordant),
            d == count_upto_row(x@, y@, i as int, PairClass::Discordant),
            tx == count_upto_row(x@, y@, i as int, PairClass::TieX),
            ty == count_upto_row(x@, y@, i as int, PairClass::TieY),
            tb == count_upto_row(x@, y@, i as int, PairClass::TieBoth),
        decreases n - i,
    {
        let mut j: usize = i + 1;
        proof {
            lemma_counter_fits(x@, y@, i as int, j as int, PairClass::Concordant);
            lemma_counter_fits(x@, y@, i as int, j as int, PairClass::Discordant);
            lemma_counter_fits(x@, y@, i as int, j as int, PairClass::TieX);
            lemma_counter_fits(x@, y@, i as int, j as int, PairClass::TieY);
            lemma_counter_fits(x@, y@, i as int, j as int, PairClass::TieBoth);
        }
        while j < n
            invariant
                i < j <= n || (i >= n && j == i + 1),
                i < n,
                n == x@.len(),
                n == y@.len(),
                n < 0x8000_0000,
                c == count_upto_row(x@, y@, i as int, PairClass::Concordant) + row_count(
                    x@,
                    y@,
                    i as int,
                    j as int,
                    PairClass::Concordant,
                ),
                d == count_upto_row(x@, y@, i as int, PairClass::Discordant) + row_count(
                    x@,
                    y@,
                    i as int,
                    j as int,
                    PairClass::Discordant,
                ),
                tx == count_upto_row(x@, y@, i as int, PairClass::TieX) + row_count(
                    x@,
                    y@,
                    i as int,
                    j as int,
                    PairClass::TieX,
                ),
                ty == count_upto_row(x@, y@, i as int, PairClass::TieY) + row_count(
                    x@,
                    y@,
                    i as int,
                    j as int,
                    PairClass::TieY,
                ),
                tb == count_upto_row(x@, y@, i as int, PairClass::TieBoth) + row_count(
                    x@,
                    y@,
                    i as int,
                    j as int,
                    PairClass::TieBoth,
                ),
            decreases n - j,
        {
            proof {
                lemma_counter_fits(x@, y@, i as int, j as int + 1, PairClass::Concordant);
                lemma_counter_fits(x@, y@, i as int, j as int + 1, PairClass::Discordant);
                lemma_counter_fits(x@, y@, i as int, j as int + 1, PairClass::TieX);
                lemma_counter_fits(x@, y@, i as int, j as int + 1, PairClass::TieY);
                lemma_counter_fits(x@, y@, i as int, j as int + 1, PairClass::TieBoth);
            }
            let xi = x[i];
            let xj = x[j];
            let yi = y[i];
            let yj = y[j];
            if xi == xj && yi == yj {
                tb += 1;
            } else if xi == xj {
                tx += 1;
            } else if yi == yj {
                ty += 1;
            } else if (xi < xj) == (yi < yj) {
                c += 1;
            } else {
                d += 1;
            }
            j += 1;
        }
        i += 1;
    }
    PairCounts { concordant: c, discordant: d, ties_x: tx, ties_y: ty, ties_both: tb }
}

/// A running class counter is at most the number of pairs inspected so far,
/// which fits comfortably in 64 bits.
proof fn lemma_counter_fits(x: Seq<i64>, y: Seq<i64>, i: int, j: int, c: PairClass)
    requires
        0 <= i <= x.len(),
        j <= x.len(),
        x.len() < 0x8000_0000,
    ensures
        count_upto_row(x, y, i, c) + row_count(x, y, i, j, c) < 0x8000_0000_0000_0000,
{
    let n = x.len() as int;
    lemma_count_upto_row_bounds(x, y, i, c);
    lemma_row_count_bounds(x, y, i, j, c);
    assert(i * n <= n * n) by (nonlinear_arith)
        requires
            0 <= i <= n,
    ;
    assert(n * n < 0x4000_0000_0000_0000) by (nonlinear_arith)
        requires
            0 <= n < 0x8000_0000,
    ;
}

/// When every pair of the sample has the one class `k`, the count of `k` is
/// the number of pairs, `n (n - 1) / 2`, and every other count is zero.
proof fn lemma_count_uniform(x: Seq<i64>, y: Seq<i64>, k: PairClass, c: PairClass, i: int)
    requires
        x.len() == y.len(),
        0 <= i <= x.len(),
        forall|s: int, t: int|
            0 <= s < t < x.len() ==> #[trigger] pair_class(x[s], x[t], y[s], y[t]) == k,
    ensures
        c == k ==> 2 * count_upto_row(x, y, i, c) == i * (2 * x.len() - i - 1),
        c != k ==> count_upto_row(x, y, i, c) == 0,
    decreases i,
{
    let n = x.len() as int;
    if i > 0 {
        lemma_count_uniform(x, y, k, c, i - 1);
        lemma_row_count_uniform(x, y, k, c, i - 1, n);
        if c == k {
            assert((i - 1) * (2 * n - (i - 1) - 1) + 2 * (n - i) == i * (2 * n - i - 1))
                by (nonlinear_arith);
        }
    }
}

proof fn lemma_row_count_uniform(x: Seq<i64>, y: Seq<i64>, k: PairClass, c: PairClass, i: int, j: int)
    requires
        x.len() == y.len(),
        0 <= i < x.len(),
        i < j <= x.len(),
        forall|s: int, t: int|
            0 <= s < t < x.len() ==> #[trigger] pair_class(x[s], x[t], y[s], y[t]) == k,
    ensures
        c == k ==> row_count(x, y, i, j, c) == j - i - 1,
        c != k ==> row_count(x, y, i, j, c) == 0,
    decreases j - i,
{
    if j > i + 1 {
        lemma_row_count_uniform(x, y, k, c, i, j - 1);
    }
}

proof fn lemma_row_count_partition(x: Seq<i64>, y: Seq<i64>, i: int, j: int)
    ensures
        row_count(x, y, i, j, PairClass::Concordant) + row_count(x, y, i, j, PairClass::Discordant)
            + row_count(x, y, i, j, PairClass::TieX) + row_count(x, y, i, j, PairClass::TieY)
            + row_count(x, y, i, j, PairClass::TieBoth) == if j <= i + 1 {
            0int
        } else {
            j - i - 1
        },
    decreases j - i,
{
    if j > i + 1 {
        lemma_row_count_partition(x, y, i, j - 1);
        let pc = pair_class(x[i], x[j - 1], y[i], y[j - 1]);
        assert(pc == PairClass::Concordant || pc == PairClass::Discordant || pc == PairClass::TieX
            || pc == PairClass::TieY || pc == PairClass::TieBoth);
    }
}

proof fn lemma_count_upto_partition(x: Seq<i64>, y: Seq<i64>, i: int)
    requires
        0 <= i <= x.len(),
    ensures
        2 * (count_upto_row(x, y, i, PairClass::Concordant) + count_upto_row(
            x,
            y,
            i,
            PairClass::Discordant,
        ) + count_upto_row(x, y, i, PairClass::TieX) + count_upto_row(x, y, i, PairClass::TieY)
            + count_upto_row(x, y, i, PairClass::TieBoth)) == i * (2 * x.len() - i - 1),
    decreases i,
{
    let n = x.len() as int;
    if i > 0 {
        lemma_count_upto_partition(x, y, i - 1);
        lemma_row_count_partition(x, y, i - 1, n);
        assert((i - 1) * (2 * n - (i - 1) - 1) + 2 * (n - i) == i * (2 * n - i - 1))
            by (nonlinear_arith);
    } else {
        assert(count_upto_row(x, y, 0, PairClass::Concordant) == 0);
    }
}

/// Every unordered pair of observations falls in exactly one class: the five
/// counts together cover all `n (n - 1) / 2` pairs. In particular the tie
/// corrections in tau-b's denominator never exceed the pair total.
pub proof fn lemma_kendall_counts_partition(x: Seq<i64>, y: Seq<i64>)
    requires
        x.len() == y.len(),
    ensures
        2 * (pair_count(x, y, PairClass::Concordant) + pair_count(x, y, PairClass::Discordant)
            + pair_count(x, y, PairClass::TieX) + pair_count(x, y, PairClass::TieY) + pair_count(
            x,
            y,
            PairClass::TieBoth,
        )) == x.len() * (x.len() - 1),
{
    let n = x.len() as int;
    lemma_count_upto_partition(x, y, n);
    assert(n * (2 * n - n - 1) == n * (n - 1)) by (nonlinear_arith);
}

/// On strictly increasing paired sequences every pair is concordant: the
/// concordant count is `n (n - 1) / 2` and the other four counts are zero.
pub proof fn lemma_kendall_strictly_increasing(x: Seq<i64>, y: Seq<i64>)
    requires
        x.len() == y.len(),
        forall|i: int, j: int| 0 <= i < j < x.len() ==> #[trigger] x[i] < #[trigger] x[j],
        forall|i: int, j: int| 0 <= i < j < y.len() ==> #[trigger] y[i] < #[trigger] y[j],
    ensures
        2 * pair_count(x, y, PairClass::Concordant) == x.len() * (x.len() - 1),
        pair_count(x, y, PairClass::Discordant) == 0,
        pair_count(x, y, PairClass::TieX) == 0,
        pair_count(x, y, PairClass::TieY) == 0,
        pair_count(x, y, PairClass::TieBoth) == 0,
{
    let n = x.len() as int;
    assert forall|s: int, t: int| 0 <= s < t < n implies #[trigger] pair_class(
        x[s],
        x[t],
        y[s],
        y[t],
    ) == PairClass::Concordant by {
        assert(x[s] < x[t]);
        assert(y[s] < y[t]);
    }
    lemma_count_uniform(x, y, PairClass::Concordant, PairClass::Concordant, n);
    lemma_count_uniform(x, y, PairClass::Concordant, PairClass::Discordant, n);
    lemma_count_uniform(x, y, PairClass::Concordant, PairClass::TieX, n);
    lemma_count_uniform(x, y, PairClass::Concordant, PairClass::TieY, n);
    lemma_count_uniform(x, y, PairClass::Concordant, PairClass::TieBoth, n);
    assert(n * (2 * n - n - 1) == n * (n - 1)) by (nonlinear_arith);
}

/// With the first sequence strictly increasing and the second strictly
/// decreasing, every pair is discordant.
pub proof fn lemma_kendall_strictly_decreasing(x: Seq<i64>, y: Seq<i64>)
    requires
        x.len() == y.len(),
        forall|i: int, j: int| 0 <= i < j < x.len() ==> #[trigger] x[i] < #[trigger] x[j],
        forall|i: int, j: int| 0 <= i < j < y.len() ==> #[trigger] y[i] > #[trigger] y[j],
    ensures
        2 * pair_count(x, y, PairClass::Discordant) == x.len() * (x.len() - 1),
        pair_count(x, y, PairClass::Concordant) == 0,
        pair_count(x, y, PairClass::TieX) == 0,
        pair_count(x, y, PairClass::TieY) == 0,
        pair_count(x, y, PairClass::TieBoth) == 0,
{
    let n = x.len() as int;
    assert forall|s: int, t: int| 0 <= s < t < n implies #[trigger] pair_class(
        x[s],
        x[t],
        y[s],
        y[t],
    ) == PairClass::Discordant by {
        assert(x[s] < x[t]);
        assert(y[s] > y[t]);
    }
    lemma_count_uniform(x, y, PairClass::Discordant, PairClass::Discordant, n);
    lemma_count_uniform(x, y, PairClass::Discordant, PairClass::Concordant, n);
    lemma_count_uniform(x, y, PairClass::Discordant, PairClass::TieX, n);
    lemma_count_uniform(x, y, PairClass::Discordant, PairClass::TieY, n);
    lemma_count_uniform(x, y, PairClass::Discordant, PairClass::TieBoth, n);
    assert(n * (2 * n - n - 1) == n * (n - 1)) by (nonlinear_arith);
}

} // verus!
