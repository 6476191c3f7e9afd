//! Event weights, temporal decay and inverse-propensity scores.

use kzn_recsys::weighting::{
    apply_event_weights, apply_ips, apply_temporal_decay, ips_counts, weigh_entries,
    WeightingConfig,
};

fn events(names: &[&str]) -> Vec<Option<String>> {
    names.iter().map(|n| Some(n.to_string())).collect()
}

/// Scales each value by how long ago it happened.
fn decay(triplets: &mut Vec<(usize, usize, f64)>, days_ago: &[Option<f64>], rate: f64) {
    let factors: Vec<Option<f64>> = days_ago
        .iter()
        .map(|d| d.map(|days| (-rate * days).exp()))
        .collect();
    apply_temporal_decay(triplets, &factors);
}

/// Divides each value by its item's propensity.
fn reweight(triplets: &mut Vec<(usize, usize, f64)>, num_items: usize, alpha: f64) {
    if let Some(found) = ips_counts(triplets, num_items, alpha, 0.0) {
        let propensities: Vec<f64> = found
            .counts
            .iter()
            .map(|&c| (c as f64 / found.max as f64).powf(alpha))
            .collect();
        apply_ips(triplets, &found.counts, &propensities, 1e-12);
    }
}

#[test]
fn test_event_weights() {
    let mut triplets = vec![(0, 0, 1.0), (1, 1, 1.0), (2, 2, 1.0)];
    let event_types = events(&["click", "purchase", "cart"]);
    let weights = vec![
        ("click".to_string(), 1.0),
        ("purchase".to_string(), 5.0),
        ("cart".to_string(), 3.0),
    ];

    apply_event_weights(&mut triplets, &event_types, &weights);

    let values: Vec<f64> = triplets.iter().map(|t| t.2).collect();
    assert!((values[0] - 1.0).abs() < 1e-10);
    assert!((values[1] - 5.0).abs() < 1e-10);
    assert!((values[2] - 3.0).abs() < 1e-10);
}

#[test]
fn test_event_weights_unknown_type() {
    let mut triplets: Vec<(usize, usize, f64)> = vec![(0, 0, 2.0)];
    let event_types = events(&["unknown_event"]);

    apply_event_weights(&mut triplets, &event_types, &[]);

    assert!((triplets[0].2 - 2.0).abs() < 1e-10);
}

#[test]
fn test_temporal_decay() {
    let mut triplets = vec![(0, 0, 10.0), (1, 1, 10.0)];
    let days_ago = vec![Some(0.0), Some(100.0)];

    decay(&mut triplets, &days_ago, 0.01);

    assert!((triplets[0].2 - 10.0).abs() < 1e-10);
    assert!((triplets[1].2 - 10.0 * (-1.0_f64).exp()).abs() < 1e-6);
}

#[test]
fn test_temporal_decay_zero_rate() {
    let mut triplets = vec![(0, 0, 5.0)];
    let days_ago = vec![Some(365.0)];

    decay(&mut triplets, &days_ago, 0.0);

    assert!((triplets[0].2 - 5.0).abs() < 1e-10);
}

#[test]
fn test_ips_reweighting() {
    let mut triplets = vec![(0, 0, 1.0), (1, 0, 1.0), (2, 0, 1.0), (3, 1, 1.0)];

    reweight(&mut triplets, 2, 0.5);

    assert!((triplets[0].2 - 1.0).abs() < 1e-10);
    assert!((triplets[3].2 - 1.0 / (1.0_f64 / 3.0).powf(0.5)).abs() < 1e-6);
}

#[test]
fn test_ips_zero_alpha() {
    let mut triplets = vec![(0, 0, 5.0)];
    reweight(&mut triplets, 1, 0.0);
    assert!((triplets[0].2 - 5.0).abs() < 1e-10);
}

#[test]
fn test_default_config_is_no_op() {
    let config = WeightingConfig::neutral(0.0);
    assert!(config.event_weights.is_none());
    assert_eq!(config.decay_rate, 0.0);
    assert_eq!(config.ips_alpha, 0.0);
    assert_eq!(config.sparsity_threshold, 0.0);
}

#[test]
fn missing_columns_leave_values_alone() {
    let mut triplets = vec![(0, 0, 2.0), (1, 1, 3.0)];
    apply_event_weights(&mut triplets, &[None], &[("click".to_string(), 9.0)]);
    assert_eq!(triplets, vec![(0, 0, 2.0), (1, 1, 3.0)]);
    apply_temporal_decay(&mut triplets, &[None, Some(0.5)]);
    assert_eq!(triplets, vec![(0, 0, 2.0), (1, 1, 1.5)]);
}

#[test]
fn occurrences_are_counted_per_item() {
    let triplets = vec![(0, 0, 1.0), (1, 2, 1.0), (2, 2, 1.0), (3, 9, 1.0)];
    let found = ips_counts(&triplets, 3, 0.5, 0.0).unwrap();
    assert_eq!(found.counts, vec![1, 0, 2]);
    assert_eq!(found.max, 2);
    assert!(ips_counts(&triplets, 3, 0.0, 0.0).is_none());
    let none: Vec<(usize, usize, f64)> = vec![];
    assert!(ips_counts(&none, 3, 0.5, 0.0).is_none());
}

#[test]
fn tiny_propensities_leave_values_alone() {
    let mut triplets = vec![(0, 0, 1.0), (1, 1, 1.0), (2, 2, 1.0), (3, 9, 1.0)];
    apply_ips(&mut triplets, &[1, 1, 0], &[0.25, 0.0, 0.5], 1e-12);
    let values: Vec<f64> = triplets.iter().map(|t| t.2).collect();
    assert_eq!(values, vec![4.0, 1.0, 1.0, 1.0]);
}

#[test]
fn entries_are_weighted_by_their_own_row() {
    let config = WeightingConfig {
        event_weights: Some(vec![("click".to_string(), 2.0), ("cart".to_string(), 3.0)]),
        decay_rate: 0.1,
        ips_alpha: 0.0,
        sparsity_threshold: 0.0,
    };
    let types = events(&["cart", "click", "view", "click"]);
    let factors = vec![Some(0.5), None, Some(0.25), Some(0.5)];
    let mut entries = vec![(0, 0, 1.0), (1, 1, 1.0), (2, 2, 1.0)];
    weigh_entries(&mut entries, &[1, 2, 3], &config, &types, &factors, 0.0);
    assert_eq!(entries, vec![(0, 0, 2.0), (1, 1, 0.25), (2, 2, 1.0)]);
}

#[test]
fn default_weighting_keeps_entries() {
    let config = WeightingConfig::neutral(0.0);
    let mut entries = vec![(0, 0, 1.5)];
    let types = events(&["click"]);
    weigh_entries(&mut entries, &[0], &config, &types, &[Some(0.5)], 0.0);
    assert_eq!(entries, vec![(0, 0, 1.5)]);
}
