use stats_rs::hubness::{gini_sums, occurrence_counts};
use stats_rs::outliers::outlier_indices;
use stats_rs::retrieval::{
    distinct_count, first_relevant_rank, hit_positions, hits_at_k, ideal_relevance_flags,
    relevance_flags,
};

#[test]
fn hits_and_first_rank() {
    let retrieved = vec![3usize, 1, 2, 4, 5];
    let relevant = vec![1usize, 2];
    // precision@3 = 2/3, recall@3 = 2/2
    assert_eq!(hits_at_k(&retrieved, &relevant, 3), 2);
    assert_eq!(hits_at_k(&retrieved, &relevant, 10), 2);
    assert_eq!(hits_at_k(&retrieved, &relevant, 0), 0);
    // first hit at position 1: reciprocal rank 1/2
    assert_eq!(first_relevant_rank(&retrieved, &relevant), Some(1));
    assert_eq!(first_relevant_rank(&retrieved, &vec![9usize, 8]), None);
    assert_eq!(first_relevant_rank(&vec![], &relevant), None);
}

#[test]
fn flags_and_positions() {
    let retrieved = vec![3usize, 1, 2, 4, 5];
    let relevant = vec![1usize, 2];
    assert_eq!(
        relevance_flags(&retrieved, &relevant),
        vec![false, true, true, false, false]
    );
    assert_eq!(hit_positions(&retrieved, &relevant), vec![1usize, 2]);
    assert_eq!(hit_positions(&retrieved, &vec![9usize]), Vec::<usize>::new());
}

#[test]
fn average_precision_from_hit_positions() {
    // hits at positions 1 and 2: AP = (1/2 + 2/3) / 2 = 0.5833...
    let retrieved = vec![3usize, 1, 2, 4, 5];
    let relevant = vec![1usize, 2];
    let pos = hit_positions(&retrieved, &relevant);
    let mut sum = 0.0f64;
    for (h, &p) in pos.iter().enumerate() {
        sum += (h as f64 + 1.0) / (p as f64 + 1.0);
    }
    let ap = sum / pos.len() as f64;
    assert!((ap - 0.5833333333333333).abs() < 1e-12);
}

#[test]
fn ndcg_of_perfect_top_three_is_one() {
    // two relevant items placed first in a top-3 retrieval
    let retrieved = vec![1usize, 2, 3];
    let relevant = vec![1usize, 2];
    let flags = relevance_flags(&retrieved, &relevant);
    let k = 3usize;
    let dcg = |gains: &[f64]| -> f64 {
        gains
            .iter()
            .take(k)
            .enumerate()
            .map(|(i, g)| g / (i as f64 + 2.0).log2())
            .sum::<f64>()
    };
    let gains: Vec<f64> = flags.iter().map(|&f| if f { 1.0 } else { 0.0 }).collect();
    let ideal: Vec<f64> = ideal_relevance_flags(relevant.len(), k)
        .iter()
        .map(|&f| if f { 1.0 } else { 0.0 })
        .collect();
    let nd = dcg(&gains) / dcg(&ideal);
    assert!((nd - 1.0).abs() < 1e-12);
}

#[test]
fn ideal_flags_shape() {
    assert_eq!(ideal_relevance_flags(2, 3), vec![true, true, false]);
    assert_eq!(ideal_relevance_flags(5, 3), vec![true, true, true]);
    assert_eq!(ideal_relevance_flags(0, 2), vec![false, false]);
    assert_eq!(ideal_relevance_flags(2, 0), Vec::<bool>::new());
}

#[test]
fn distinct_counts_for_coverage() {
    // coverage of sources [1, 1, 2] is 2/3
    assert_eq!(distinct_count(&vec![1usize, 1, 2]), 2);
    assert_eq!(distinct_count(&vec![]), 0);
    assert_eq!(distinct_count(&vec![4usize, 4, 4]), 1);
}

#[test]
fn outlier_indices_by_fences() {
    let keys = vec![1i64, 2, 3, 100];
    // interquartile-style fences: strict comparison
    assert_eq!(outlier_indices(&keys, 0, 10, false), vec![3usize]);
    // boundary values stay inside under the strict rule
    assert_eq!(outlier_indices(&keys, 1, 100, false), Vec::<usize>::new());
    // and are flagged under the inclusive z-score rule
    assert_eq!(outlier_indices(&keys, 1, 100, true), vec![0usize, 3]);
}

#[test]
fn hubness_counts_and_gini() {
    // all three queries name point 1: counts [0, 3, 0], gini 2/3
    let knn = vec![vec![1usize], vec![1usize], vec![1usize]];
    let counts = occurrence_counts(&knn, 3);
    assert_eq!(counts, vec![0i64, 3, 0]);
    let (s, t) = gini_sums(&counts);
    let n = counts.len() as f64;
    let gini = 2.0 * s as f64 / (n * t as f64) - (n + 1.0) / n;
    assert!((gini - 2.0 / 3.0).abs() < 1e-12);
}

#[test]
fn hubness_uniform_counts_gini_zero() {
    let knn = vec![vec![1usize], vec![0usize]];
    let counts = occurrence_counts(&knn, 2);
    assert_eq!(counts, vec![1i64, 1]);
    let (s, t) = gini_sums(&counts);
    let n = counts.len() as f64;
    let gini = 2.0 * s as f64 / (n * t as f64) - (n + 1.0) / n;
    assert!(gini.abs() < 1e-12);
}

#[test]
fn hubness_empty() {
    let knn: Vec<Vec<usize>> = vec![];
    let counts = occurrence_counts(&knn, 0);
    assert!(counts.is_empty());
    let (s, t) = gini_sums(&counts);
    assert_eq!((s, t), (0, 0));
}
