//! Modes: every key tied for the maximum occurrence count.
//!
//! The service layer buckets sample values to keys at a fixed relative
//! precision before calling in, so equal keys stand for values that agree up
//! to floating noise. All keys of maximal frequency are returned, ascending;
//! an empty sample has no modes.

use vstd::prelude::*;
use crate::counting::{count_eq, count_pred_upto, equal_to, lemma_count_pred_permutation,
    lemma_count_pred_upto_bounds, lemma_count_pred_zero};
use crate::order::{lemma_sorted_keys_facts, sort_keys, sorted_keys};

verus! {

/// `v` occurs in `s` and nothing occurs more often.
pub open spec fn is_mode(s: Seq<i64>, v: i64) -> bool {
    s.contains(v) && forall|w: i64| #[trigger] count_eq(s, w) <= count_eq(s, v)
}

/// How often `v` occurs in `s`.
fn count_key(s: &Vec<i64>, v: i64) -> (r: usize)
    ensures
        r == count_eq(s@, v),
{
    let mut c: usize = 0;
    let mut t: usize = 0;
    while t < s.len()
        invariant
            t <= s@.len(),
            c == count_pred_upto(s@, equal_to(v), t as int),
            c <= t,
        decreases s.len() - t,
    {
        if s[t] == v {
            c += 1;
        }
        t += 1;
    }
    c
}

/// All modes of the sample, ascending. Empty exactly when the sample is.
pub fn modal_keys(keys: &Vec<i64>) -> (r: Vec<i64>)
    ensures
        forall|t: int, u: int| 0 <= t < u < r@.len() ==> #[trigger] r@[t] < #[trigger] r@[u],
        forall|v: i64| r@.contains(v) <==> is_mode(keys@, v),
        keys@.len() > 0 ==> r@.len() > 0,
{
    let s = sort_keys(keys);
    proof {
        lemma_sorted_keys_facts(keys@);
        assert forall|v: i64| #[trigger] count_eq(s@, v) == count_eq(keys@, v) by {
            lemma_count_pred_permutation(s@, keys@, equal_to(v));
        }
    }
    let n = s.len();
    let mut best: usize = 0;
    let ghost mut wit: i64 = 0;
    let mut i: usize = 0;
    while i < n
        invariant
            i <= n,
            n == s@.len(),
            s@ == sorted_keys(keys@),
            forall|t: int| 0 <= t < i ==> count_eq(s@, #[trigger] s@[t]) <= best,
            i > 0 ==> best >= 1 && best == count_eq(s@, wit) && s@.contains(wit),
            i == 0 ==> best == 0,
        decreases n - i,
    {
        let c = count_key(&s, s[i]);
        proof {
            lemma_count_pred_zero(s@, equal_to(s@[i as int]));
            lemma_count_pred_upto_bounds(s@, equal_to(s@[i as int]), s@.len() as int);
            assert(equal_to(s@[i as int])(s@[i as int]));
            assert(count_eq(s@, s@[i as int]) != 0);
        }
        if c > best {
            best = c;
            proof {
                wit = s@[i as int];
            }
        }
        i += 1;
    }
    let mut out: Vec<i64> = Vec::new();
    let mut j: usize = 0;
    while j < n
        invariant
            j <= n,
            n == s@.len(),
            s@ == sorted_keys(keys@),
            forall|v: i64| #[trigger] count_eq(s@, v) == count_eq(keys@, v),
            forall|a: int, b: int| 0 <= a <= b < s@.len() ==> s@[a] <= s@[b],
            forall|t: int, u: int| 0 <= t < u < out@.len() ==> #[trigger] out@[t] < #[trigger] out@[u],
            out@.len() > 0 && j > 0 ==> out@[out@.len() - 1] <= s@[j - 1],
            out@.len() > 0 ==> j > 0,
            forall|v: i64|
                out@.contains(v) <==> (s@.subrange(0, j as int).contains(v) && count_eq(s@, v)
                    == best),
        decreases n - j,
    {
        let run_start = j == 0 || s[j - 1] != s[j];
        let ghost kept = out@;
        if run_start {
            let c = count_key(&s, s[j]);
            if c == best {
                out.push(s[j]);
                proof {
                    assert forall|t: int, u: int| 0 <= t < u < out@.len() implies #[trigger] out@[t]
                        < #[trigger] out@[u] by {
                        if u < out@.len() - 1 {
                            assert(kept[t] < kept[u]);
                        } else if t < out@.len() - 1 {
                            assert(kept[t] <= s@[j as int - 1] || j == 0);
                            assert(out@[u] == s@[j as int]);
                        }
                    }
                }
            }
        }
        proof {
            assert(s@.subrange(0, j as int + 1) =~= s@.subrange(0, j as int).push(s@[j as int]));
            assert forall|v: i64| #![trigger out@.contains(v)]
                out@.contains(v) <==> (s@.subrange(0, j as int + 1).contains(v) && count_eq(s@, v)
                    == best) by {
                if out@.contains(v) {
                    if kept.contains(v) {
                        let t: int = choose|t: int| 0 <= t < kept.len() && kept[t] == v;
                        assert(out@[t] == v);
                        assert(s@.subrange(0, j as int).contains(v));
                        let w: int = choose|w: int|
                            0 <= w < j && s@.subrange(0, j as int)[w] == v;
                        assert(s@.subrange(0, j as int + 1)[w] == v);
                    } else {
                        assert(out@[out@.len() - 1] == s@[j as int]);
                        assert(v == s@[j as int]);
                        assert(s@.subrange(0, j as int + 1)[j as int] == v);
                    }
                }
                if s@.subrange(0, j as int + 1).contains(v) && count_eq(s@, v) == best {
                    let w: int = choose|w: int|
                        #![trigger s@.subrange(0, j as int + 1)[w]]
                        0 <= w < j + 1 && s@.subrange(0, j as int + 1)[w] == v;
                    if w < j {
                        assert(s@.subrange(0, j as int)[w] == v);
                        assert(kept.contains(v));
                        let t: int = choose|t: int| 0 <= t < kept.len() && kept[t] == v;
                        assert(out@[t] == v);
                    } else {
                        // v == s[j]; its run start carries the same value
                        if j > 0 && s@[j as int - 1] == s@[j as int] {
                            assert(s@.subrange(0, j as int)[j as int - 1] == v);
                            assert(kept.contains(v));
                            let t: int = choose|t: int| 0 <= t < kept.len() && kept[t] == v;
                            assert(out@[t] == v);
                        } else {
                            assert(out@[out@.len() - 1] == v);
                        }
                    }
                }
            }
        }
        j += 1;
    }
    proof {
        assert(s@.subrange(0, s@.len() as int) =~= s@);
        assert forall|v: i64| #![trigger out@.contains(v)] out@.contains(v) <==> is_mode(
            keys@,
            v,
        ) by {
            if out@.contains(v) {
                assert(s@.contains(v));
                assert forall|w: i64| #[trigger] count_eq(keys@, w) <= count_eq(keys@, v) by {
                    if s@.contains(w) {
                        let t: int = choose|t: int| 0 <= t < s@.len() && s@[t] == w;
                        assert(count_eq(s@, s@[t]) <= best);
                    } else {
                        lemma_count_pred_zero(s@, equal_to(w));
                        assert forall|t: int| 0 <= t < s@.len() implies !equal_to(w)(
                            #[trigger] s@[t],
                        ) by {
                            assert(s@[t] != w);
                        }
                        assert(count_eq(s@, w) == 0);
                        lemma_count_pred_upto_bounds(s@, equal_to(v), s@.len() as int);
                    }
                }
            }
            if is_mode(keys@, v) {
                assert(s@.contains(v));
                // v occurs, so its count reaches best: best is some element's count
                assert(keys@.len() > 0);
                assert(count_eq(s@, wit) <= count_eq(s@, v));
                assert(count_eq(s@, v) <= best) by {
                    let t: int = choose|t: int| 0 <= t < s@.len() && s@[t] == v;
                    assert(count_eq(s@, s@[t]) <= best);
                }
                assert(count_eq(s@, v) == best);
            }
        }
        if keys@.len() > 0 {
            assert(s@.contains(wit));
            assert(is_mode(keys@, wit)) by {
                assert(keys@.contains(wit));
                assert forall|w: i64| #[trigger] count_eq(keys@, w) <= count_eq(keys@, wit) by {
                    if s@.contains(w) {
                        let t: int = choose|t: int| 0 <= t < s@.len() && s@[t] == w;
                        assert(count_eq(s@, s@[t]) <= best);
                    } else {
                        lemma_count_pred_zero(s@, equal_to(w));
                        assert forall|t: int| 0 <= t < s@.len() implies !equal_to(w)(
                            #[trigger] s@[t],
                        ) by {
                            assert(s@[t] != w);
                        }
                        assert(count_eq(s@, w) == 0);
                        lemma_count_pred_upto_bounds(s@, equal_to(wit), s@.len() as int);
                    }
                }
            }
            assert(out@.contains(wit));
            assert(out@.len() > 0);
        }
    }
    out
}

} // verus!
