//! Order statistics over keys: sorting, extrema, k-th smallest element, and
//! the median pair.
//!
//! Every contract here is phrased against `sorted_keys`, the mathematical
//! ascending rearrangement of the input. The service layer maps a sample to
//! keys, asks this module for the order statistics it needs (the minimum, the
//! maximum, the two middle elements, the elements a quantile interpolates
//! between), and performs whatever averaging or interpolation the statistic
//! calls for on the values the keys stand for.

use vstd::prelude::*;

verus! {

/// The ordering the keys are sorted by.
pub open spec fn key_le() -> spec_fn(i64, i64) -> bool {
    |a: i64, b: i64| a <= b
}

/// The ascending rearrangement of `s`.
pub open spec fn sorted_keys(s: Seq<i64>) -> Seq<i64> {
    s.sort_by(key_le())
}

pub proof fn lemma_key_le_total_ordering()
    ensures
        vstd::relations::total_ordering(key_le()),
{
}

/// What `sorted_keys` means, spelled out: same length, ascending, same
/// elements, and every entry is drawn from the input.
pub proof fn lemma_sorted_keys_facts(s: Seq<i64>)
    ensures
        sorted_keys(s).len() == s.len(),
        sorted_keys(s).to_multiset() == s.to_multiset(),
        forall|i: int, j: int|
            0 <= i <= j < s.len() ==> #[trigger] sorted_keys(s)[i] <= #[trigger] sorted_keys(s)[j],
        forall|v: i64| s.contains(v) <==> sorted_keys(s).contains(v),
        forall|i: int| 0 <= i < s.len() ==> s.contains(#[trigger] sorted_keys(s)[i]),
{
    broadcast use vstd::seq_lib::group_to_multiset_ensures;

    lemma_key_le_total_ordering();
    s.lemma_sort_by_ensures(key_le());
    let t = sorted_keys(s);
    assert(t.to_multiset().len() == t.len());
    assert(s.to_multiset().len() == s.len());
    assert forall|i: int, j: int| 0 <= i <= j < s.len() implies #[trigger] t[i] <= #[trigger] t[j] by {
        if i < j {
            assert(vstd::relations::sorted_by(t, key_le()));
            assert(key_le()(t[i], t[j]));
        }
    }
    assert forall|v: i64| s.contains(v) <==> t.contains(v) by {
        assert(s.contains(v) <==> s.to_multiset().count(v) > 0);
        assert(t.contains(v) <==> t.to_multiset().count(v) > 0);
    }
    assert forall|i: int| 0 <= i < s.len() implies s.contains(#[trigger] t[i]) by {
        assert(t.contains(t[i]));
    }
}

/// Sorts the keys ascending.
///
/// Insertion sort: each key is inserted in front of the first strictly larger
/// element of the output built so far.
pub fn sort_keys(keys: &Vec<i64>) -> (r: Vec<i64>)
    ensures
        r@ == sorted_keys(keys@),
{
    let mut out: Vec<i64> = Vec::new();
    let mut i: usize = 0;
    proof {
        assert(out@.to_multiset() =~= keys@.subrange(0, 0).to_multiset()) by {
            assert(out@ =~= keys@.subrange(0, 0));
        }
    }
    while i < keys.len()
        invariant
            i <= keys.len(),
            vstd::relations::sorted_by(out@, key_le()),
            out@.to_multiset() == keys@.subrange(0, i as int).to_multiset(),
        decreases keys.len() - i,
    {
        let x = keys[i];
        let mut j: usize = 0;
        while j < out.len() && out[j] <= x
            invariant
                j <= out.len(),
                forall|t: int| 0 <= t < j ==> out@[t] <= x,
            decreases out.len() - j,
        {
            j += 1;
        }
        let ghost prev = out@;
        out.insert(j, x);
        proof {
            broadcast use vstd::seq_lib::group_to_multiset_ensures;

            prev.insert_ensures(j as int, x);
            assert forall|a: int, b: int| 0 <= a < b < out@.len() implies #[trigger] key_le()(
                out@[a],
                out@[b],
            ) by {
                if b < j {
                    assert(key_le()(prev[a], prev[b]));
                } else if a > j {
                    assert(key_le()(prev[a - 1], prev[b - 1]));
                } else if a < j && b == j {
                    assert(out@[a] == prev[a] && prev[a] <= x);
                } else if a == j && b > j {
                    // everything at or past the insertion point sits above x:
                    // the scan stopped there
                    assert(out@[b] == prev[b - 1]);
                    if j < prev.len() {
                        assert(x <= prev[j as int] || !(prev[j as int] <= x));
                        if b - 1 > j {
                            assert(key_le()(prev[j as int], prev[b - 1]));
                        }
                    }
                } else if a < j && b > j {
                    assert(out@[a] == prev[a] && out@[b] == prev[b - 1]);
                    if b - 1 == j {
                        if j < prev.len() {
                            assert(!(prev[j as int] <= x));
                            assert(prev[a] <= x);
                        }
                    } else {
                        assert(key_le()(prev[a], prev[b - 1]));
                    }
                }
            }
            // multiset: inserting x matches extending the consumed prefix by keys[i]
            assert(out@ =~= prev.subrange(0, j as int).push(x) + prev.subrange(
                j as int,
                prev.len() as int,
            ));
            lemma_insert_to_multiset(prev, j as int, x);
            assert(keys@.subrange(0, i as int + 1) =~= keys@.subrange(0, i as int).push(
                keys@[i as int],
            ));
        }
        i += 1;
    }
    proof {
        assert(keys@.subrange(0, keys@.len() as int) =~= keys@);
        lemma_key_le_total_ordering();
        keys@.lemma_sort_by_ensures(key_le());
        vstd::seq_lib::lemma_sorted_unique(out@, sorted_keys(keys@), key_le());
    }
    out
}

proof fn lemma_insert_to_multiset(s: Seq<i64>, j: int, x: i64)
    requires
        0 <= j <= s.len(),
    ensures
        s.insert(j, x).to_multiset() == s.to_multiset().insert(x),
{
    broadcast use vstd::seq_lib::group_to_multiset_ensures;

    let t = s.insert(j, x);
    s.insert_ensures(j, x);
    assert(t.remove(j).to_multiset() == t.to_multiset().remove(t[j]));
    assert(t.remove(j) =~= s);
    assert(t.contains(t[j]));
    assert(t.to_multiset().count(x) > 0);
    assert(t.to_multiset() =~= t.to_multiset().remove(x).insert(x));
}

/// The least key: `sorted_keys(keys)[0]`.
pub fn min_key(keys: &Vec<i64>) -> (r: i64)
    requires
        keys@.len() > 0,
    ensures
        r == sorted_keys(keys@)[0],
        keys@.contains(r),
        forall|i: int| 0 <= i < keys@.len() ==> r <= #[trigger] keys@[i],
{
    let mut m = keys[0];
    let mut i: usize = 1;
    proof {
        assert(keys@.subrange(0, 1)[0] == keys@[0]);
    }
    while i < keys.len()
        invariant
            1 <= i <= keys.len(),
            keys@.subrange(0, i as int).contains(m),
            forall|t: int| 0 <= t < i ==> m <= #[trigger] keys@[t],
        decreases keys.len() - i,
    {
        if keys[i] < m {
            m = keys[i];
            assert(keys@.subrange(0, i as int + 1)[i as int] == m);
        } else {
            let ghost w: int = choose|w: int|
                0 <= w < i && keys@.subrange(0, i as int)[w] == m;
            assert(keys@.subrange(0, i as int + 1)[w] == m);
        }
        i += 1;
    }
    proof {
        assert(keys@.subrange(0, keys@.len() as int) =~= keys@);
        lemma_sorted_keys_facts(keys@);
        let s = sorted_keys(keys@);
        assert(keys@.contains(s[0]));
        assert(s.contains(m));
        let w: int = choose|w: int| 0 <= w < s.len() && s[w] == m;
        assert(s[0] <= s[w]);
    }
    m
}

/// The greatest key: `sorted_keys(keys)[len - 1]`.
pub fn max_key(keys: &Vec<i64>) -> (r: i64)
    requires
        keys@.len() > 0,
    ensures
        r == sorted_keys(keys@)[keys@.len() - 1],
        keys@.contains(r),
        forall|i: int| 0 <= i < keys@.len() ==> #[trigger] keys@[i] <= r,
{
    let mut m = keys[0];
    let mut i: usize = 1;
    proof {
        assert(keys@.subrange(0, 1)[0] == keys@[0]);
    }
    while i < keys.len()
        invariant
            1 <= i <= keys.len(),
            keys@.subrange(0, i as int).contains(m),
            forall|t: int| 0 <= t < i ==> #[trigger] keys@[t] <= m,
        decreases keys.len() - i,
    {
        if keys[i] > m {
            m = keys[i];
            assert(keys@.subrange(0, i as int + 1)[i as int] == m);
        } else {
            let ghost w: int = choose|w: int|
                0 <= w < i && keys@.subrange(0, i as int)[w] == m;
            assert(keys@.subrange(0, i as int + 1)[w] == m);
        }
        i += 1;
    }
    proof {
        assert(keys@.subrange(0, keys@.len() as int) =~= keys@);
        lemma_sorted_keys_facts(keys@);
        let s = sorted_keys(keys@);
        let last: int = s.len() - 1;
        assert(keys@.contains(s[last]));
        assert(s.contains(m));
        let w: int = choose|w: int| 0 <= w < s.len() && s[w] == m;
        assert(s[w] <= s[last]);
    }
    m
}

/// The `k`-th smallest key, counting from zero.
pub fn kth_smallest(keys: &Vec<i64>, k: usize) -> (r: i64)
    requires
        k < keys@.len(),
    ensures
        r == sorted_keys(keys@)[k as int],
{
    let sorted = sort_keys(keys);
    proof {
        lemma_sorted_keys_facts(keys@);
    }
    sorted[k]
}

/// The two middle elements of the ascending rearrangement: equal for an odd
/// count, adjacent for an even one. The median is their midpoint.
pub fn median_key_pair(keys: &Vec<i64>) -> (r: (i64, i64))
    requires
        keys@.len() > 0,
    ensures
        r.0 == sorted_keys(keys@)[((keys@.len() - 1) / 2) as int],
        r.1 == sorted_keys(keys@)[(keys@.len() / 2) as int],
        r.0 <= r.1,
{
    let sorted = sort_keys(keys);
    proof {
        lemma_sorted_keys_facts(keys@);
    }
    let n = keys.len();
    (sorted[(n - 1) / 2], sorted[n / 2])
}

/// Both middle elements of a non-empty sample lie between its minimum and its
/// maximum; the median, their midpoint, therefore does too.
pub proof fn lemma_median_within_extremes(s: Seq<i64>)
    requires
        s.len() > 0,
    ensures
        sorted_keys(s)[0] <= sorted_keys(s)[((s.len() - 1) / 2) as int],
        sorted_keys(s)[((s.len() - 1) / 2) as int] <= sorted_keys(s)[(s.len() / 2) as int],
        sorted_keys(s)[(s.len() / 2) as int] <= sorted_keys(s)[(s.len() - 1) as int],
{
    lemma_sorted_keys_facts(s);
}

} // verus!
