//! Outlier selection against a pair of fences.
//!
//! Both detection rules reduce to fences around the sample: the
//! interquartile-range rule flags values strictly outside
//! `[Q1 - 1.5 IQR, Q3 + 1.5 IQR]`, and the z-score rule flags values whose
//! distance from the mean reaches the threshold, i.e. values at or outside
//! `[mean - t std, mean + t std]`. The service layer computes the fences and
//! this module selects exactly the flagged positions, in order.

use vstd::prelude::*;

verus! {

/// Whether `x` lies outside the fences: strictly for the interquartile-range
/// rule, inclusively for the z-score rule.
pub open spec fn outside_fences(x: i64, lo: i64, hi: i64, inclusive: bool) -> bool {
    if inclusive {
        x <= lo || x >= hi
    } else {
        x < lo || x > hi
    }
}

/// The positions of the keys outside the fences, ascending.
pub fn outlier_indices(keys: &Vec<i64>, lo: i64, hi: i64, inclusive: bool) -> (r: Vec<usize>)
    ensures
        forall|t: int, u: int| 0 <= t < u < r@.len() ==> #[trigger] r@[t] < #[trigger] r@[u],
        forall|t: int|
            0 <= t < r@.len() ==> #[trigger] r@[t] < keys@.len() && outside_fences(
                keys@[r@[t] as int],
                lo,
                hi,
                inclusive,
            ),
        forall|i: int|
            0 <= i < keys@.len() && outside_fences(#[trigger] keys@[i], lo, hi, inclusive)
                ==> r@.contains(i as usize),
{
    let mut out: Vec<usize> = Vec::new();
    let mut i: usize = 0;
    while i < keys.len()
        invariant
            i <= keys@.len(),
            forall|t: int, u: int| 0 <= t < u < out@.len() ==> #[trigger] out@[t] < #[trigger] out@[u],
            forall|t: int|
                0 <= t < out@.len() ==> #[trigger] out@[t] < i && outside_fences(
                    keys@[out@[t] as int],
                    lo,
                    hi,
                    inclusive,
                ),
            forall|w: int|
                0 <= w < i && outside_fences(#[trigger] keys@[w], lo, hi, inclusive)
                    ==> out@.contains(w as usize),
        decreases keys.len() - i,
    {
        let x = keys[i];
        let flagged = if inclusive {
            x <= lo || x >= hi
        } else {
            x < lo || x > hi
        };
        let ghost kept = out@;
        if flagged {
            out.push(i);
        }
        proof {
            assert forall|w: int|
                0 <= w < i + 1 && outside_fences(#[trigger] keys@[w], lo, hi, inclusive)
                    implies out@.contains(w as usize) by {
                if w < i {
                    assert(kept.contains(w as usize));
                    let t: int = choose|t: int| 0 <= t < kept.len() && kept[t] == w as usize;
                    assert(out@[t] == w as usize);
                } else {
                    assert(flagged);
                    assert(out@[out@.len() - 1] == i as usize);
                }
            }
        }
        i += 1;
    }
    out
}

} // verus!
