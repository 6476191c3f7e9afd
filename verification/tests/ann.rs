//! Exact retrieval and its measures.

use kzn_recsys::ann::comparison::{clustered_triples, Lcg};
use kzn_recsys::ann::exact::{exact_top_k, recall_at_k};
use kzn_recsys::ann::{
    keep_top, over_fetch_count, quantized_index_bytes, AnnBackend, ExactBackend,
};
use kzn_recsys::metrics::Ratio;
use kzn_recsys::order::rank_descending;

fn value(ratio: Ratio) -> f64 {
    ratio.hits as f64 / ratio.out_of as f64
}

#[test]
fn exact_top_k_descending_with_index_tiebreak() {
    let items: Vec<Vec<f32>> = vec![vec![1.0, 0.0], vec![0.0, 1.0], vec![0.9, 0.1]];
    let top = exact_top_k(&[1.0, 0.0], &items, 2);
    assert_eq!(top.iter().map(|(i, _)| *i).collect::<Vec<_>>(), vec![0, 2]);
}

#[test]
fn exact_top_k_ties_break_by_lower_index() {
    let items: Vec<Vec<f32>> = vec![vec![1.0], vec![1.0], vec![0.5]];
    let top = exact_top_k(&[1.0], &items, 2);
    assert_eq!(top[0].0, 0);
    assert_eq!(top[1].0, 1);
}

#[test]
fn recall_full_and_partial() {
    let exact: Vec<(usize, f32)> = vec![(1, 0.9), (2, 0.5), (3, 0.4)];
    assert_eq!(value(recall_at_k(&exact, &exact)), 1.0);
    let approx: Vec<(usize, f32)> = vec![(1, 0.9), (2, 0.5), (9, 0.3)];
    assert!((value(recall_at_k(&approx, &exact)) - 2.0 / 3.0).abs() < 1e-6);
}

#[test]
fn exact_search_is_the_control() {
    let items: Vec<Vec<f32>> = (0..20)
        .map(|i| vec![(i * 7 % 5) as f32, (i * 3 % 11) as f32, i as f32])
        .collect();
    let be = ExactBackend::build(&items);
    for qi in 0..20 {
        let mut exact = exact_top_k(&items[qi], &items, 6);
        exact.retain(|(i, _)| *i != qi);
        exact.truncate(5);
        let found = be.search(&items[qi], 5, &[qi]);
        assert_eq!(value(recall_at_k(&found, &exact)), 1.0);
    }
}

#[test]
fn recall_of_empty_truth_is_one() {
    let none: Vec<(usize, f32)> = Vec::new();
    assert_eq!(value(recall_at_k(&none, &none)), 1.0);
}

#[test]
fn exact_backend_matches_exact_top_k_and_excludes() {
    let items: Vec<Vec<f32>> = vec![vec![1.0, 0.0], vec![0.0, 1.0], vec![0.9, 0.1]];
    let be = ExactBackend::build(&items);
    assert_eq!(be.search(&[1.0, 0.0], 1, &[])[0].0, 0);
    assert_eq!(be.search(&[1.0, 0.0], 1, &[0])[0].0, 2);
}

#[test]
fn exact_backend_reports_its_size() {
    let items: Vec<Vec<f32>> = vec![vec![1.0, 0.0, 2.0], vec![0.0, 1.0, 3.0]];
    let be = ExactBackend::build(&items);
    assert_eq!(be.index_bytes(), 2 * 3 * 4);
}

#[test]
fn dot_products_are_exact() {
    let items: Vec<Vec<f32>> = vec![vec![1.0, 2.0], vec![3.0, 4.0]];
    let top = exact_top_k(&[10.0, 1.0], &items, 5);
    assert_eq!(top, vec![(1, 34.0), (0, 12.0)]);
}

#[test]
fn fetching_allows_for_the_excluded() {
    assert_eq!(over_fetch_count(5, 2, 100), 7);
    assert_eq!(over_fetch_count(5, 2, 6), 6);
    assert_eq!(over_fetch_count(usize::MAX, 3, 10), 10);
    assert_eq!(over_fetch_count(0, 0, 10), 0);
}

#[test]
fn excluded_neighbours_are_dropped() {
    let neighbours: Vec<(usize, f32)> = vec![(4, 0.9), (1, 0.8), (7, 0.7), (2, 0.6)];
    assert_eq!(keep_top(&neighbours, &[1], 2), vec![(4, 0.9), (7, 0.7)]);
    assert_eq!(keep_top(&neighbours, &[4, 1, 7, 2], 2), vec![]);
}

#[test]
fn quantized_size_counts_codes_and_norms() {
    assert_eq!(quantized_index_bytes(10, 64, 4), 10 * 64 * 4 / 8 + 10 * 4);
    assert_eq!(quantized_index_bytes(0, 64, 4), 0);
}

#[test]
fn generator_follows_its_recurrence() {
    let mut lcg = Lcg::new(1);
    let first: u64 = 6364136223846793005u64.wrapping_add(1442695040888963407);
    assert_eq!(lcg.next_u64(), first);
    let second: u64 = first
        .wrapping_mul(6364136223846793005)
        .wrapping_add(1442695040888963407);
    assert_eq!(lcg.below(10), (second % 10) as usize);
}

#[test]
fn clustered_examples_are_in_range() {
    let data = clustered_triples(30, 3, 8, 5, 7);
    assert_eq!(data.num_items(), 30);
    assert_eq!(data.num_users(), 9);
    assert_eq!(data.idx_to_user[0], "__cold_start__");
    assert_eq!(data.idx_to_item[29], "item_29");
    assert_eq!(data.user_to_idx["user_7"], 8);
    assert!(!data.user_to_idx.contains_key("__cold_start__"));
    assert_eq!(data.triples.len(), 40);
    for (t, triple) in data.triples.iter().enumerate() {
        assert_eq!(triple.user_idx, t / 5 + 1);
        assert!(triple.item_idx < 30);
    }
    let again = clustered_triples(30, 3, 8, 5, 7);
    assert_eq!(data.triples, again.triples);
}

#[test]
fn rankings_are_unique_and_descending() {
    assert_eq!(
        rank_descending(&[0.5, 0.9, 0.5, 0.1, 0.9]),
        vec![1, 4, 0, 2, 3]
    );
    let none: [f64; 0] = [];
    assert!(rank_descending(&none).is_empty());
}

#[test]
fn a_repeated_neighbour_counts_once() {
    let exact = [(1, 0.9), (2, 0.8)];
    let recall = recall_at_k(&[(1, 0.9), (1, 0.9), (1, 0.9)], &exact);
    assert_eq!((recall.hits, recall.out_of), (1, 2));
}

#[test]
fn values_that_are_not_numbers_rank_last() {
    let scores = [1.0, f64::NAN, f64::NEG_INFINITY, f64::NAN, 2.0, -0.0, 0.0];
    assert_eq!(rank_descending(&scores), vec![4, 0, 5, 6, 2, 1, 3]);
}
