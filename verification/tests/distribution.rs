use stats_rs::bins::{bin_index, histogram_counts};
use stats_rs::ecdf::ecdf_steps;
use stats_rs::mode::modal_keys;

#[test]
fn bin_index_rightmost_inclusive() {
    let edges = vec![1i64, 2, 3];
    assert_eq!(bin_index(0, &edges), 0); // at or below the lowest edge
    assert_eq!(bin_index(1, &edges), 0);
    assert_eq!(bin_index(2, &edges), 0); // right edge included
    assert_eq!(bin_index(3, &edges), 1); // at the highest edge
    assert_eq!(bin_index(9, &edges), 1); // above the highest edge
}

#[test]
fn bin_index_collapsed_edges() {
    // degenerate edges (all quantiles equal) still place every value
    let edges = vec![5i64, 5, 5];
    assert_eq!(bin_index(4, &edges), 0);
    assert_eq!(bin_index(5, &edges), 0);
    assert_eq!(bin_index(6, &edges), 1);
}

#[test]
fn histogram_counts_cover_the_sample() {
    let edges = vec![0i64, 2, 4];
    let keys = vec![0i64, 1, 2, 3, 4, 9];
    let counts = histogram_counts(&keys, &edges);
    assert_eq!(counts, vec![3u64, 3]);
    assert_eq!(counts.iter().sum::<u64>(), keys.len() as u64);
}

#[test]
fn histogram_counts_identical_samples_agree() {
    // binning the same sample twice gives identical per-bin counts, so the
    // population-stability terms all compare equal proportions
    let edges = vec![1i64, 3, 5, 10];
    let keys = vec![1i64, 2, 3, 4, 5, 6, 7, 8, 9, 10];
    assert_eq!(histogram_counts(&keys, &edges), histogram_counts(&keys, &edges));
}

#[test]
fn ecdf_steps_cumulative_counts() {
    let (xs, cum) = ecdf_steps(&vec![3i64, 1, 1, 2]);
    assert_eq!(xs, vec![1i64, 2, 3]);
    assert_eq!(cum, vec![2u64, 3, 4]);
}

#[test]
fn ecdf_steps_empty_and_constant() {
    let (xs, cum) = ecdf_steps(&vec![]);
    assert!(xs.is_empty() && cum.is_empty());
    let (xs1, cum1) = ecdf_steps(&vec![7i64, 7, 7]);
    assert_eq!(xs1, vec![7i64]);
    assert_eq!(cum1, vec![3u64]);
}

#[test]
fn ecdf_steps_rise_strictly() {
    let (xs, cum) = ecdf_steps(&vec![5i64, -1, 5, 2, 2, 2, 9]);
    assert_eq!(xs, vec![-1i64, 2, 5, 9]);
    assert_eq!(cum, vec![1u64, 4, 6, 7]);
    for w in cum.windows(2) {
        assert!(w[0] < w[1]);
    }
}

#[test]
fn mode_multimodal_sorted_ascending() {
    assert_eq!(modal_keys(&vec![1i64, 2, 2, 3, 3]), vec![2i64, 3]);
    // all singletons: every value is a mode, ascending
    assert_eq!(modal_keys(&vec![10i64, -1, 5]), vec![-1i64, 5, 10]);
    assert_eq!(modal_keys(&vec![]), Vec::<i64>::new());
}

#[test]
fn mode_single_winner() {
    assert_eq!(modal_keys(&vec![4i64, 4, 1, 2]), vec![4i64]);
}
