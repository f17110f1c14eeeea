//! Empirical distribution steps.
//!
//! The empirical CDF of a sample steps at each distinct value: at value `v`
//! it reaches `(number of observations at or below v) / n`. This module
//! returns the distinct values ascending together with those cumulative
//! counts; the service layer divides by `n` (and applies any downsampling
//! of the step list).

use vstd::prelude::*;
use crate::counting::{at_most, count_le, lemma_count_le_monotone, lemma_count_pred_permutation,
    lemma_count_pred_window};
use crate::order::{lemma_sorted_keys_facts, sort_keys, sorted_keys};

verus! {

/// The distinct keys ascending, each with the number of keys at or below it.
pub fn ecdf_steps(keys: &Vec<i64>) -> (r: (Vec<i64>, Vec<u64>))
    ensures
        r.0@.len() == r.1@.len(),
        forall|t: int, u: int| 0 <= t < u < r.0@.len() ==> #[trigger] r.0@[t] < #[trigger] r.0@[u],
        forall|v: i64| r.0@.contains(v) <==> keys@.contains(v),
        forall|t: int| 0 <= t < r.1@.len() ==> #[trigger] r.1@[t] == count_le(keys@, r.0@[t]),
        keys@.len() > 0 ==> r.0@.len() > 0 && r.1@[r.1@.len() - 1] == keys@.len(),
        forall|t: int, u: int| 0 <= t < u < r.1@.len() ==> #[trigger] r.1@[t] < #[trigger] r.1@[u],
{
    let s = sort_keys(keys);
    proof {
        lemma_sorted_keys_facts(keys@);
        assert forall|v: i64| #[trigger] count_le(s@, v) == count_le(keys@, v) by {
            lemma_count_pred_permutation(s@, keys@, at_most(v));
        }
    }
    let n = s.len();
    let mut uniq: Vec<i64> = Vec::new();
    let mut cum: Vec<u64> = Vec::new();
    let mut i: usize = 0;
    while i < n
        invariant
            i <= n,
            n == s@.len(),
            s@ == sorted_keys(keys@),
            forall|a: int, b: int| 0 <= a <= b < s@.len() ==> s@[a] <= s@[b],
            i < n ==> i == 0 || s@[i - 1] != s@[i as int],
            i == n || i == 0 || s@[i - 1] != s@[i as int],
            uniq@.len() == cum@.len(),
            forall|t: int, u: int| 0 <= t < u < uniq@.len() ==> #[trigger] uniq@[t] < #[trigger] uniq@[u],
            uniq@.len() > 0 ==> i > 0 && uniq@[uniq@.len() - 1] == s@[i - 1],
            i > 0 ==> uniq@.len() > 0,
            forall|t: int| 0 <= t < cum@.len() ==> #[trigger] cum@[t] == count_le(s@, uniq@[t]),
            forall|v: i64| uniq@.contains(v) <==> s@.subrange(0, i as int).contains(v),
        decreases n - i,
    {
        let x = s[i];
        let mut j: usize = i + 1;
        while j < n && s[j] == x
            invariant
                i < j <= n,
                n == s@.len(),
                x == s@[i as int],
                forall|t: int| i <= t < j ==> #[trigger] s@[t] == x,
            decreases n - j,
        {
            j += 1;
        }
        let ghost kept = uniq@;
        uniq.push(x);
        cum.push(j as u64);
        proof {
            // the cumulative count at x is exactly j: positions below j hold
            // keys at most x, positions from j on hold larger keys
            assert forall|t: int| 0 <= t < s@.len() implies (at_most(x)(#[trigger] s@[t]) <==> 0
                <= t < j) by {
                if t < i {
                    assert(s@[t] <= s@[i as int]);
                } else if t < j {
                    assert(s@[t] == x);
                } else {
                    assert(s@[t] >= s@[j as int]);
                    assert(s@[j as int] != x || j == n);
                    if (j as int) < n {
                        assert(s@[i as int] <= s@[j as int]);
                    }
                }
            }
            lemma_count_pred_window(s@, at_most(x), 0, j as int);
            assert(cum@[cum@.len() - 1] == count_le(s@, x));
            assert forall|t: int, u: int| 0 <= t < u < uniq@.len() implies #[trigger] uniq@[t]
                < #[trigger] uniq@[u] by {
                if u < uniq@.len() - 1 {
                    assert(kept[t] < kept[u]);
                } else if t < uniq@.len() - 1 {
                    assert(kept[t] <= s@[i - 1] || i == 0);
                    assert(uniq@[u] == x);
                    if i > 0 {
                        assert(s@[i - 1] <= s@[i as int]);
                    }
                }
            }
            assert forall|v: i64| #![trigger uniq@.contains(v)]
                uniq@.contains(v) <==> s@.subrange(0, j as int).contains(v) by {
                if uniq@.contains(v) {
                    if kept.contains(v) {
                        let t: int = choose|t: int| 0 <= t < kept.len() && kept[t] == v;
                        assert(uniq@[t] == v);
                        assert(s@.subrange(0, i as int).contains(v));
                        let w: int = choose|w: int|
                            #![trigger s@.subrange(0, i as int)[w]]
                            0 <= w < i && s@.subrange(0, i as int)[w] == v;
                        assert(s@.subrange(0, j as int)[w] == v);
                    } else {
                        assert(uniq@[uniq@.len() - 1] == x);
                        assert(s@.subrange(0, j as int)[i as int] == x);
                    }
                }
                if s@.subrange(0, j as int).contains(v) {
                    let w: int = choose|w: int|
                        #![trigger s@.subrange(0, j as int)[w]]
                        0 <= w < j && s@.subrange(0, j as int)[w] == v;
                    if w < i {
                        assert(s@.subrange(0, i as int)[w] == v);
                        assert(kept.contains(v));
                        let t: int = choose|t: int| 0 <= t < kept.len() && kept[t] == v;
                        assert(uniq@[t] == v);
                    } else {
                        assert(s@[w] == x);
                        assert(uniq@[uniq@.len() - 1] == v);
                    }
                }
            }
        }
        i = j;
    }
    proof {
        assert(s@.subrange(0, s@.len() as int) =~= s@);
        assert forall|v: i64| uniq@.contains(v) <==> keys@.contains(v) by {
            assert(uniq@.contains(v) <==> s@.contains(v));
        }
        if keys@.len() > 0 {
            // the last distinct key is the maximum, so its cumulative count
            // covers the whole sample
            let last: int = uniq@.len() - 1;
            assert(uniq@[last] == s@[s@.len() - 1]);
            assert forall|t: int| 0 <= t < s@.len() implies (at_most(uniq@[last])(
                #[trigger] s@[t],
            ) <==> 0 <= t < s@.len()) by {
                assert(s@[t] <= s@[s@.len() - 1]);
            }
            lemma_count_pred_window(s@, at_most(uniq@[last]), 0, s@.len() as int);
        }
    }
    proof {
        // the steps rise strictly: raising the threshold to a later distinct
        // value adds at least that value's own occurrences
        assert forall|t: int, u: int| 0 <= t < u < cum@.len() implies #[trigger] cum@[t]
            < #[trigger] cum@[u] by {
            assert(keys@.contains(uniq@[u]));
            lemma_count_le_monotone(keys@, uniq@[t], uniq@[u]);
        }
    }
    (uniq, cum)
}

} // verus!
