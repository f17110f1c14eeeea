use stats_rs::order::{kth_smallest, max_key, median_key_pair, min_key, sort_keys};

/// Order-preserving integer key of a finite float, for feeding samples to
/// the order-statistic kernels.
fn key_of(x: f64) -> i64 {
    let b = x.to_bits();
    let m = if b & 0x8000_0000_0000_0000 != 0 {
        !b
    } else {
        b | 0x8000_0000_0000_0000
    };
    (m ^ 0x8000_0000_0000_0000) as i64
}

fn value_of(k: i64) -> f64 {
    let u = (k as u64) ^ 0x8000_0000_0000_0000;
    let b = if u & 0x8000_0000_0000_0000 != 0 {
        u ^ 0x8000_0000_0000_0000
    } else {
        !u
    };
    f64::from_bits(b)
}

#[test]
fn key_encoding_round_trips_and_orders() {
    let xs = vec![-3.5, -1.0, 0.0, 0.5, 1.0, 2.0, 1e300];
    for &x in &xs {
        assert_eq!(value_of(key_of(x)), x);
    }
    for w in xs.windows(2) {
        assert!(key_of(w[0]) < key_of(w[1]));
    }
}

#[test]
fn sort_keys_sorts_ascending() {
    let keys = vec![5i64, -2, 9, -2, 0];
    assert_eq!(sort_keys(&keys), vec![-2i64, -2, 0, 5, 9]);
    let empty: Vec<i64> = vec![];
    assert_eq!(sort_keys(&empty), Vec::<i64>::new());
}

#[test]
fn min_max_and_kth() {
    let keys = vec![4i64, 1, 3, 2];
    assert_eq!(min_key(&keys), 1);
    assert_eq!(max_key(&keys), 4);
    assert_eq!(kth_smallest(&keys, 0), 1);
    assert_eq!(kth_smallest(&keys, 1), 2);
    assert_eq!(kth_smallest(&keys, 2), 3);
    assert_eq!(kth_smallest(&keys, 3), 4);
}

#[test]
fn median_pair_even_and_odd() {
    // even count: the two middle elements, to be averaged by the caller
    let even = vec![4i64, 1, 3, 2];
    assert_eq!(median_key_pair(&even), (2, 3));
    // odd count: both components are the middle element
    let odd = vec![3i64, 1, 2];
    assert_eq!(median_key_pair(&odd), (2, 2));
}

#[test]
fn median_lies_between_extremes() {
    for keys in [vec![7i64], vec![5i64, -5], vec![9i64, 0, 4, 4, 2]] {
        let (m1, m2) = median_key_pair(&keys);
        assert!(min_key(&keys) <= m1);
        assert!(m1 <= m2);
        assert!(m2 <= max_key(&keys));
    }
}

#[test]
fn median_of_one_to_four_is_two_point_five() {
    let keys: Vec<i64> = [1.0f64, 2.0, 3.0, 4.0].iter().map(|&x| key_of(x)).collect();
    let (m1, m2) = median_key_pair(&keys);
    let median = (value_of(m1) + value_of(m2)) / 2.0;
    assert!((median - 2.5).abs() < 1e-12);
}

#[test]
fn quantile_positions_of_one_to_four() {
    // R-7 quantile at p: h = (n - 1) p; interpolate between the floor(h)-th
    // and ceil(h)-th smallest values
    let keys: Vec<i64> = [1.0f64, 2.0, 3.0, 4.0].iter().map(|&x| key_of(x)).collect();
    let quantile = |p: f64| -> f64 {
        let h = (keys.len() - 1) as f64 * p;
        let i = h.floor() as usize;
        let j = h.ceil() as usize;
        let lo = value_of(kth_smallest(&keys, i));
        if i == j {
            lo
        } else {
            let hi = value_of(kth_smallest(&keys, j));
            lo + (h - i as f64) * (hi - lo)
        }
    };
    assert!((quantile(0.25) - 1.75).abs() < 1e-12);
    assert!((quantile(0.5) - 2.5).abs() < 1e-12);
    assert!((quantile(0.75) - 3.25).abs() < 1e-12);
    let iqr = quantile(0.75) - quantile(0.25);
    assert!((iqr - 1.5).abs() < 1e-12);
    assert_eq!(quantile(0.0), 1.0);
    assert_eq!(quantile(1.0), 4.0);
}
