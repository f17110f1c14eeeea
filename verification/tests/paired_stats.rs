use stats_rs::kendall::kendall_pair_counts;
use stats_rs::ranks::average_ranks_doubled;

#[test]
fn average_ranks_with_ties() {
    // [10, 10, 30]: the tied pair shares rank 1.5, the last has rank 3
    let r = average_ranks_doubled(&vec![10i64, 10, 30]);
    assert_eq!(r, vec![3u64, 3, 6]);
}

#[test]
fn average_ranks_alignment_and_multitied_block() {
    // [3, 3, 3, 1]: the three 3s occupy ranks 2..=4, average 3; the 1 has rank 1
    let r = average_ranks_doubled(&vec![3i64, 3, 3, 1]);
    assert_eq!(r, vec![6u64, 6, 6, 2]);
    // [1, 2, 2, 2, 5]: ranks 1, 3, 3, 3, 5
    let r2 = average_ranks_doubled(&vec![1i64, 2, 2, 2, 5]);
    assert_eq!(r2, vec![2u64, 6, 6, 6, 10]);
}

#[test]
fn average_ranks_strictly_increasing_are_one_to_n() {
    let r = average_ranks_doubled(&vec![-7i64, 0, 3, 12]);
    assert_eq!(r, vec![2u64, 4, 6, 8]);
}

#[test]
fn doubled_ranks_sum_to_n_times_n_plus_one() {
    // tie averaging never changes the total rank mass
    for keys in [
        vec![10i64, 10, 30],
        vec![3i64, 3, 3, 1],
        vec![5i64],
        vec![7i64, 7, 7, 7],
        vec![1i64, 2, 3, 4, 5],
    ] {
        let n = keys.len() as u64;
        let total: u64 = average_ranks_doubled(&keys).iter().sum();
        assert_eq!(total, n * (n + 1));
    }
}

#[test]
fn kendall_counts_on_monotone_pairs() {
    // strictly increasing together: all six pairs concordant, tau-b = 1
    let x = vec![1i64, 2, 3, 4];
    let y = vec![10i64, 20, 30, 40];
    let c = kendall_pair_counts(&x, &y);
    assert_eq!(
        (c.concordant, c.discordant, c.ties_x, c.ties_y, c.ties_both),
        (6, 0, 0, 0, 0)
    );
    // strictly opposed: all six pairs discordant, tau-b = -1
    let y_inv = vec![40i64, 30, 20, 10];
    let d = kendall_pair_counts(&x, &y_inv);
    assert_eq!(
        (d.concordant, d.discordant, d.ties_x, d.ties_y, d.ties_both),
        (0, 6, 0, 0, 0)
    );
}

#[test]
fn kendall_counts_with_ties() {
    // (0,1) is tied in x only; (0,2) and (1,2) are concordant
    let x = vec![1i64, 1, 2];
    let y = vec![5i64, 6, 7];
    let c = kendall_pair_counts(&x, &y);
    assert_eq!(
        (c.concordant, c.discordant, c.ties_x, c.ties_y, c.ties_both),
        (2, 0, 1, 0, 0)
    );
    // a pair tied in both dimensions is excluded from every other count
    let x2 = vec![1i64, 1];
    let y2 = vec![5i64, 5];
    let c2 = kendall_pair_counts(&x2, &y2);
    assert_eq!(
        (c2.concordant, c2.discordant, c2.ties_x, c2.ties_y, c2.ties_both),
        (0, 0, 0, 0, 1)
    );
}

#[test]
fn kendall_tau_b_from_counts_is_plus_minus_one_on_monotone_pairs() {
    let x = vec![1i64, 2, 3, 4];
    let y = vec![10i64, 20, 30, 40];
    let tau = |c: stats_rs::kendall::PairCounts| -> f64 {
        let num = c.concordant as f64 - c.discordant as f64;
        let den = ((c.concordant + c.discordant + c.ties_x) as f64
            * (c.concordant + c.discordant + c.ties_y) as f64)
            .sqrt();
        num / den
    };
    assert!((tau(kendall_pair_counts(&x, &y)) - 1.0).abs() < 1e-12);
    let y_inv = vec![40i64, 30, 20, 10];
    assert!((tau(kendall_pair_counts(&x, &y_inv)) + 1.0).abs() < 1e-12);
}
