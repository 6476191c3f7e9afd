//! Ranking metrics.

use kzn_recsys::evaluation::means::{average_precision, ndcg};
use kzn_recsys::metrics::{
    coverage, hit_rate_at_k, mean_average_precision, ndcg_at_k, precision_at_k, recall_at_k,
    NdcgTerms, PrecisionTerms, Ratio,
};
use std::collections::HashSet;

fn make_relevant(items: &[usize]) -> HashSet<usize> {
    items.iter().copied().collect()
}

fn value(ratio: Ratio) -> f64 {
    ratio.hits as f64 / ratio.out_of as f64
}

fn gain(terms: &NdcgTerms) -> f64 {
    let last = terms.hit_ranks.iter().copied().max().unwrap_or(0);
    let gains: Vec<f64> = (0..terms.ideal_hits.max(last + 1))
        .map(|r| 1.0 / (r as f64 + 2.0).log2())
        .collect();
    ndcg(terms, &gains, 0.0)
}

fn average(terms: &PrecisionTerms) -> f64 {
    let precisions: Vec<f64> = terms.precisions.iter().map(|&p| value(p)).collect();
    average_precision(terms, &precisions, 0.0, terms.num_relevant as f64)
}

fn rate(hit: bool) -> f64 {
    if hit {
        1.0
    } else {
        0.0
    }
}

#[test]
fn test_precision_at_k_basic() {
    let recommended = vec![1, 2, 3, 4, 5];
    let relevant = make_relevant(&[1, 3, 5, 7]);
    assert!((value(precision_at_k(&recommended, &relevant, 3)) - 2.0 / 3.0).abs() < 1e-10);
}

#[test]
fn test_precision_at_k_all_relevant() {
    let recommended = vec![1, 2, 3];
    let relevant = make_relevant(&[1, 2, 3]);
    assert!((value(precision_at_k(&recommended, &relevant, 3)) - 1.0).abs() < 1e-10);
}

#[test]
fn test_precision_at_k_none_relevant() {
    let recommended = vec![1, 2, 3];
    let relevant = make_relevant(&[4, 5, 6]);
    assert!((value(precision_at_k(&recommended, &relevant, 3)) - 0.0).abs() < 1e-10);
}

#[test]
fn test_precision_at_k_zero_k() {
    let recommended = vec![1, 2, 3];
    let relevant = make_relevant(&[1, 2]);
    assert!((value(precision_at_k(&recommended, &relevant, 0)) - 0.0).abs() < 1e-10);
}

#[test]
fn test_precision_at_k_exceeds_list_length() {
    let recommended = vec![1, 2];
    let relevant = make_relevant(&[1, 2, 3]);
    assert!((value(precision_at_k(&recommended, &relevant, 5)) - 2.0 / 5.0).abs() < 1e-10);
}

#[test]
fn test_recall_at_k_basic() {
    let recommended = vec![1, 2, 3, 4, 5];
    let relevant = make_relevant(&[1, 3, 5, 7]);
    assert!((value(recall_at_k(&recommended, &relevant, 3)) - 0.5).abs() < 1e-10);
}

#[test]
fn test_recall_at_k_full() {
    let recommended = vec![1, 3, 5, 7, 2, 4];
    let relevant = make_relevant(&[1, 3, 5, 7]);
    assert!((value(recall_at_k(&recommended, &relevant, 4)) - 1.0).abs() < 1e-10);
}

#[test]
fn test_recall_at_k_empty_relevant() {
    let recommended = vec![1, 2, 3];
    let relevant = make_relevant(&[]);
    assert!((value(recall_at_k(&recommended, &relevant, 3)) - 0.0).abs() < 1e-10);
}

#[test]
fn test_ndcg_at_k_perfect_ranking() {
    let recommended = vec![1, 2, 3, 4, 5];
    let relevant = make_relevant(&[1, 2, 3]);
    assert!((gain(&ndcg_at_k(&recommended, &relevant, 3)) - 1.0).abs() < 1e-10);
}

#[test]
fn test_ndcg_at_k_imperfect_ranking() {
    let recommended = vec![1, 2, 3, 4, 5];
    let relevant = make_relevant(&[3, 5]);
    let ndcg = gain(&ndcg_at_k(&recommended, &relevant, 5));
    let dcg = 1.0 / 4.0_f64.log2() + 1.0 / 6.0_f64.log2();
    let idcg = 1.0 / 2.0_f64.log2() + 1.0 / 3.0_f64.log2();
    let expected = dcg / idcg;
    assert!(
        (ndcg - expected).abs() < 1e-10,
        "ndcg={ndcg}, expected={expected}"
    );
}

#[test]
fn test_ndcg_at_k_single_hit_at_top() {
    let recommended = vec![1, 2, 3];
    let relevant = make_relevant(&[1]);
    assert!((gain(&ndcg_at_k(&recommended, &relevant, 3)) - 1.0).abs() < 1e-10);
}

#[test]
fn test_ndcg_at_k_zero_k() {
    let recommended = vec![1, 2, 3];
    let relevant = make_relevant(&[1]);
    assert!((gain(&ndcg_at_k(&recommended, &relevant, 0)) - 0.0).abs() < 1e-10);
}

#[test]
fn test_ndcg_at_k_empty_relevant() {
    let recommended = vec![1, 2, 3];
    let relevant = make_relevant(&[]);
    assert!((gain(&ndcg_at_k(&recommended, &relevant, 3)) - 0.0).abs() < 1e-10);
}

#[test]
fn test_map_basic() {
    let recommended = vec![1, 2, 3, 4, 5];
    let relevant = make_relevant(&[1, 3, 5]);
    let map = average(&mean_average_precision(&recommended, &relevant));
    let expected = (1.0 + 2.0 / 3.0 + 3.0 / 5.0) / 3.0;
    assert!((map - expected).abs() < 1e-10);
}

#[test]
fn test_map_perfect() {
    let recommended = vec![1, 2, 3];
    let relevant = make_relevant(&[1, 2, 3]);
    assert!((average(&mean_average_precision(&recommended, &relevant)) - 1.0).abs() < 1e-10);
}

#[test]
fn test_map_no_hits() {
    let recommended = vec![1, 2, 3];
    let relevant = make_relevant(&[4, 5, 6]);
    assert!((average(&mean_average_precision(&recommended, &relevant)) - 0.0).abs() < 1e-10);
}

#[test]
fn test_map_empty_relevant() {
    let recommended = vec![1, 2, 3];
    let relevant = make_relevant(&[]);
    assert!((average(&mean_average_precision(&recommended, &relevant)) - 0.0).abs() < 1e-10);
}

#[test]
fn test_map_relevant_not_in_list() {
    let recommended = vec![1, 2, 3];
    let relevant = make_relevant(&[1, 99]);
    assert!((average(&mean_average_precision(&recommended, &relevant)) - 0.5).abs() < 1e-10);
}

#[test]
fn test_coverage_basic() {
    let all_recs = vec![vec![0, 1, 2], vec![2, 3, 4], vec![4, 5]];
    assert!((value(coverage(&all_recs, 10)) - 0.6).abs() < 1e-10);
}

#[test]
fn test_coverage_full() {
    let all_recs = vec![vec![0, 1], vec![2, 3], vec![4]];
    assert!((value(coverage(&all_recs, 5)) - 1.0).abs() < 1e-10);
}

#[test]
fn test_coverage_empty() {
    let all_recs: Vec<Vec<usize>> = vec![vec![], vec![]];
    assert!((value(coverage(&all_recs, 10)) - 0.0).abs() < 1e-10);
}

#[test]
fn test_coverage_zero_items() {
    let all_recs = vec![vec![1, 2]];
    assert!((value(coverage(&all_recs, 0)) - 0.0).abs() < 1e-10);
}

#[test]
fn test_coverage_duplicates_across_users() {
    let all_recs = vec![vec![0, 1], vec![0, 1], vec![0, 1]];
    assert!((value(coverage(&all_recs, 10)) - 0.2).abs() < 1e-10);
}

#[test]
fn test_hit_rate_hit() {
    let recommended = vec![10, 20, 30];
    let relevant = make_relevant(&[20, 40]);
    assert!((rate(hit_rate_at_k(&recommended, &relevant, 3)) - 1.0).abs() < 1e-10);
}

#[test]
fn test_hit_rate_miss() {
    let recommended = vec![10, 20, 30];
    let relevant = make_relevant(&[40, 50]);
    assert!((rate(hit_rate_at_k(&recommended, &relevant, 3)) - 0.0).abs() < 1e-10);
}

#[test]
fn test_hit_rate_hit_outside_k() {
    let recommended = vec![10, 20, 30, 40];
    let relevant = make_relevant(&[40]);
    assert!((rate(hit_rate_at_k(&recommended, &relevant, 2)) - 0.0).abs() < 1e-10);
    assert!((rate(hit_rate_at_k(&recommended, &relevant, 4)) - 1.0).abs() < 1e-10);
}

#[test]
fn test_hit_rate_zero_k() {
    let recommended = vec![1, 2, 3];
    let relevant = make_relevant(&[1]);
    assert!((rate(hit_rate_at_k(&recommended, &relevant, 0)) - 0.0).abs() < 1e-10);
}

#[test]
fn fractions_are_exact() {
    let recommended = vec![4, 9, 2, 7];
    let relevant = make_relevant(&[9, 7, 1]);
    assert_eq!(
        precision_at_k(&recommended, &relevant, 4),
        Ratio { hits: 2, out_of: 4 }
    );
    assert_eq!(
        recall_at_k(&recommended, &relevant, 2),
        Ratio { hits: 1, out_of: 3 }
    );
    let terms = ndcg_at_k(&recommended, &relevant, 4);
    assert_eq!(terms.hit_ranks, vec![1, 3]);
    assert_eq!(terms.ideal_hits, 3);
    let map = mean_average_precision(&recommended, &relevant);
    assert_eq!(
        map.precisions,
        vec![Ratio { hits: 1, out_of: 2 }, Ratio { hits: 2, out_of: 4 }]
    );
}

#[test]
fn recall_does_not_exceed_one() {
    let recommended = vec![0, 1, 2, 3, 4, 5];
    let relevant = make_relevant(&[0, 1]);
    for k in 0..8 {
        let recall = recall_at_k(&recommended, &relevant, k);
        assert!(recall.hits <= recall.out_of);
        let terms = ndcg_at_k(&recommended, &relevant, k);
        for (j, &rank) in terms.hit_ranks.iter().enumerate() {
            assert!(rank >= j);
        }
    }
}

#[test]
fn gains_are_summed_from_a_table() {
    let terms = NdcgTerms {
        hit_ranks: vec![1, 2],
        ideal_hits: 2,
    };
    assert_eq!(ndcg(&terms, &[2, 4, 8], 0), 2);
    assert_eq!(ndcg(&terms, &[1.0, 0.5, 0.25], 0.0), 0.5);
    let none = NdcgTerms {
        hit_ranks: vec![],
        ideal_hits: 0,
    };
    assert_eq!(ndcg(&none, &[1.0], 0.0), 0.0);
}

#[test]
fn average_precision_counts_all_relevant_items() {
    let terms = mean_average_precision(&[7, 1, 8], &make_relevant(&[7, 8, 9, 10]));
    assert_eq!(terms.precisions.len(), 2);
    assert_eq!(average_precision(&terms, &[1.0, 0.5], 0.0, 4.0), 0.375);
    let empty = mean_average_precision(&[7], &make_relevant(&[]));
    assert_eq!(average_precision(&empty, &[], 0.0, 0.0), 0.0);
}

#[test]
fn a_repeated_recommendation_counts_once() {
    let relevant = make_relevant(&[1]);
    assert_eq!(recall_at_k(&[1, 1], &relevant, 2), Ratio { hits: 1, out_of: 1 });
    assert_eq!(precision_at_k(&[1, 1], &relevant, 2), Ratio { hits: 1, out_of: 2 });
}
