//! Retrieval-ranking accounting.
//!
//! A ranked list is a sequence of item identifiers; relevance is membership
//! in a set of identifiers. Everything the ranking metrics need to know
//! about a list — how many of the top `k` are relevant, where the first
//! relevant item sits, which positions hold relevant items, how many
//! distinct sources appear — is counted here exactly. The metrics
//! themselves (precision and recall as quotients, reciprocal rank, the
//! logarithmically discounted gain sums) are formed from these counts by the
//! service layer.

use vstd::prelude::*;
use crate::counting::{count_pred, count_pred_upto};

verus! {

/// Holds of identifiers in the relevance set `rel`.
pub open spec fn relevant_in(rel: Seq<usize>) -> spec_fn(usize) -> bool {
    |id: usize| rel.contains(id)
}

/// Whether `id` occurs in `list`.
fn contains_id(list: &Vec<usize>, id: usize) -> (r: bool)
    ensures
        r == list@.contains(id),
{
    let mut t: usize = 0;
    while t < list.len()
        invariant
            t <= list@.len(),
            forall|w: int| 0 <= w < t ==> list@[w] != id,
        decreases list.len() - t,
    {
        if list[t] == id {
            return true;
        }
        t += 1;
    }
    false
}

/// How many of the first `min(k, len)` retrieved identifiers are relevant.
///
/// Precision at `k` is this count over `min(k, len)`; recall at `k` is this
/// count over the number of distinct relevant identifiers.
pub fn hits_at_k(retrieved: &Vec<usize>, relevant: &Vec<usize>, k: usize) -> (r: usize)
    ensures
        r == count_pred_upto(
            retrieved@,
            relevant_in(relevant@),
            if k <= retrieved@.len() {
                k as int
            } else {
                retrieved@.len() as int
            },
        ),
        r <= k,
        r <= retrieved@.len(),
{
    let kk = if k <= retrieved.len() {
        k
    } else {
        retrieved.len()
    };
    let mut hits: usize = 0;
    let mut i: usize = 0;
    while i < kk
        invariant
            i <= kk <= retrieved@.len(),
            hits == count_pred_upto(retrieved@, relevant_in(relevant@), i as int),
            hits <= i,
        decreases kk - i,
    {
        if contains_id(relevant, retrieved[i]) {
            hits += 1;
        }
        i += 1;
    }
    hits
}

/// The position of the first relevant identifier, if any. The reciprocal
/// rank is `1 / (position + 1)`, or zero when there is none.
pub fn first_relevant_rank(retrieved: &Vec<usize>, relevant: &Vec<usize>) -> (r: Option<usize>)
    ensures
        match r {
            Some(i) => i < retrieved@.len() && relevant@.contains(retrieved@[i as int])
                && forall|t: int|
                0 <= t < i ==> !relevant@.contains(#[trigger] retrieved@[t]),
            None => forall|t: int|
                0 <= t < retrieved@.len() ==> !relevant@.contains(#[trigger] retrieved@[t]),
        },
{
    let mut i: usize = 0;
    while i < retrieved.len()
        invariant
            i <= retrieved@.len(),
            forall|t: int| 0 <= t < i ==> !relevant@.contains(#[trigger] retrieved@[t]),
        decreases retrieved.len() - i,
    {
        if contains_id(relevant, retrieved[i]) {
            return Some(i);
        }
        i += 1;
    }
    None
}

/// The binary gain of each position: whether the identifier retrieved there
/// is relevant. The discounted gain sums read these flags.
pub fn relevance_flags(retrieved: &Vec<usize>, relevant: &Vec<usize>) -> (r: Vec<bool>)
    ensures
        r@.len() == retrieved@.len(),
        forall|t: int|
            0 <= t < r@.len() ==> r@[t] == relevant@.contains(#[trigger] retrieved@[t]),
{
    let mut flags: Vec<bool> = Vec::new();
    let mut i: usize = 0;
    while i < retrieved.len()
        invariant
            i <= retrieved@.len(),
            flags@.len() == i,
            forall|t: int|
                0 <= t < i ==> flags@[t] == relevant@.contains(#[trigger] retrieved@[t]),
        decreases retrieved.len() - i,
    {
        flags.push(contains_id(relevant, retrieved[i]));
        i += 1;
    }
    flags
}

/// The ideal binary gain profile over `k` positions when `m` relevant items
/// exist: gains of one first, zeros after.
pub open spec fn ideal_flags(m: int, k: int) -> Seq<bool> {
    Seq::new(k as nat, |t: int| t < m)
}

/// The ideal gain profile over `k` positions for `m` relevant items, as
/// flags: the first `min(m, k)` positions relevant, the rest not.
pub fn ideal_relevance_flags(m: usize, k: usize) -> (r: Vec<bool>)
    ensures
        r@ == ideal_flags(if m <= k {
            m as int
        } else {
            k as int
        }, k as int),
{
    let ones = if m <= k {
        m
    } else {
        k
    };
    let mut flags: Vec<bool> = Vec::new();
    let mut i: usize = 0;
    while i < k
        invariant
            i <= k,
            flags@.len() == i,
            ones == if m <= k {
                m as int
            } else {
                k as int
            },
            forall|t: int| 0 <= t < i ==> flags@[t] == (t < ones),
        decreases k - i,
    {
        flags.push(i < ones);
        i += 1;
    }
    proof {
        assert(flags@ =~= ideal_flags(ones as int, k as int));
    }
    flags
}

/// A ranking whose top `min(m, k)` positions hold exactly the relevant items
/// has the ideal gain profile over its top `k`: its discounted gain sum is
/// the ideal one term by term, so its normalized gain is one.
pub proof fn lemma_perfect_ranking_flags(flags: Seq<bool>, m: int, k: int)
    requires
        0 <= m <= k <= flags.len(),
        forall|t: int| 0 <= t < m ==> #[trigger] flags[t],
        forall|t: int| m <= t < k ==> !#[trigger] flags[t],
    ensures
        flags.subrange(0, k) == ideal_flags(m, k),
{
    assert(flags.subrange(0, k) =~= ideal_flags(m, k));
}

/// The ranks that hold relevant identifiers, ascending, and their number.
///
/// Average precision sums, at each of these positions `p` (the `h`-th hit,
/// counting from one), the precision `h / (p + 1)`, and divides by the total
/// number of hits.
pub fn hit_positions(retrieved: &Vec<usize>, relevant: &Vec<usize>) -> (r: Vec<usize>)
    ensures
        r@.len() == count_pred(retrieved@, relevant_in(relevant@)),
        forall|t: int, u: int| 0 <= t < u < r@.len() ==> #[trigger] r@[t] < #[trigger] r@[u],
        forall|t: int|
            0 <= t < r@.len() ==> #[trigger] r@[t] < retrieved@.len() && relevant@.contains(
                retrieved@[r@[t] as int],
            ),
        forall|i: int|
            0 <= i < retrieved@.len() && relevant@.contains(#[trigger] retrieved@[i])
                ==> r@.contains(i as usize),
{
    let mut out: Vec<usize> = Vec::new();
    let mut i: usize = 0;
    while i < retrieved.len()
        invariant
            i <= retrieved@.len(),
            out@.len() == count_pred_upto(retrieved@, relevant_in(relevant@), i as int),
            forall|t: int, u: int| 0 <= t < u < out@.len() ==> #[trigger] out@[t] < #[trigger] out@[u],
            forall|t: int|
                0 <= t < out@.len() ==> #[trigger] out@[t] < i && relevant@.contains(
                    retrieved@[out@[t] as int],
                ),
            forall|w: int|
                0 <= w < i && relevant@.contains(#[trigger] retrieved@[w]) ==> out@.contains(
                    w as usize,
                ),
        decreases retrieved.len() - i,
    {
        let hit = contains_id(relevant, retrieved[i]);
        let ghost kept = out@;
        if hit {
            out.push(i);
        }
        proof {
            assert forall|w: int|
                0 <= w < i + 1 && relevant@.contains(#[trigger] retrieved@[w])
                    implies out@.contains(w as usize) by {
                if w < i {
                    assert(kept.contains(w as usize));
                    let t: int = choose|t: int| 0 <= t < kept.len() && kept[t] == w as usize;
                    assert(out@[t] == w as usize);
                } else {
                    assert(hit);
                    assert(out@[out@.len() - 1] == i as usize);
                }
            }
        }
        i += 1;
    }
    out
}

/// How many distinct identifiers occur. Coverage is this count over the
/// total number of picks.
pub fn distinct_count(ids: &Vec<usize>) -> (r: usize)
    ensures
        r == ids@.to_set().len(),
        r <= ids@.len(),
{
    let mut seen: Vec<usize> = Vec::new();
    let mut i: usize = 0;
    proof {
        assert(seen@.to_set() =~= ids@.subrange(0, 0).to_set());
    }
    while i < ids.len()
        invariant
            i <= ids@.len(),
            seen@.to_set() == ids@.subrange(0, i as int).to_set(),
            seen@.no_duplicates(),
            seen@.len() <= i,
        decreases ids.len() - i,
    {
        let x = ids[i];
        let ghost kept = seen@;
        if !contains_id(&seen, x) {
            seen.push(x);
            proof {
                assert forall|a: int, b: int| 0 <= a < b < seen@.len() implies seen@[a]
                    != seen@[b] by {
                    if b < seen@.len() - 1 {
                        assert(kept[a] != kept[b]);
                    } else {
                        assert(!kept.contains(seen@[b]));
                        assert(kept[a] == seen@[a]);
                    }
                }
            }
        }
        proof {
            assert(ids@.subrange(0, i as int + 1) =~= ids@.subrange(0, i as int) + seq![
                ids@[i as int],
            ]);
            Seq::<usize>::lemma_to_set_insert_commutes(ids@.subrange(0, i as int), ids@[i as int]);
            if kept.contains(x) {
                assert(seen@.to_set() =~= ids@.subrange(0, i as int).to_set().insert(x)) by {
                    assert(seen@.to_set().contains(x));
                }
            } else {
                assert(seen@ =~= kept + seq![x]);
                Seq::<usize>::lemma_to_set_insert_commutes(kept, x);
            }
        }
        i += 1;
    }
    proof {
        assert(ids@.subrange(0, ids@.len() as int) =~= ids@);
        seen@.unique_seq_to_set();
    }
    seen.len()
}

} // verus!
