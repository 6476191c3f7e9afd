//! Splitting interactions and evaluating models.

use ahash::AHashMap;
use kzn_recsys::data_pipeline::{LongTable, Mappings};
use kzn_recsys::evaluation::harness::{
    evaluate_model, evaluate_user, EvalConfig, EvalError, EvalReport, UserEvaluation,
};
use kzn_recsys::evaluation::means::{average_precision, mean_metrics, ndcg, MetricsAtK};
use kzn_recsys::evaluation::splits::{
    check_ratio, count_unique_users, leave_k_out_split, random_split, temporal_split, Split,
    SplitError,
};
use kzn_recsys::matrix::Matrix;
use kzn_recsys::metrics::{
    coverage, hit_rate_at_k, mean_average_precision, ndcg_at_k, precision_at_k, recall_at_k,
    NdcgTerms, PrecisionTerms, Ratio,
};
use kzn_recsys::model::{RustFeaseModel, ValidationReport};
use kzn_recsys::models::{sparse_input, ModelError, ModelInput, ModelKind, RecModel};
use std::collections::HashSet;

fn column(names: &[&str]) -> Vec<Option<String>> {
    names.iter().map(|n| Some(n.to_string())).collect()
}

fn interaction_users() -> Vec<Option<String>> {
    column(&[
        "u1", "u1", "u1", "u1", "u2", "u2", "u2", "u3", "u3", "u3", "u3", "u3",
    ])
}

/// How many rows a user with `len` rows gives to the test part, for each `len`.
fn requested(rows: usize, ratio: f64) -> Vec<usize> {
    (0..=rows)
        .map(|len| (len as f64 * ratio).round() as usize)
        .collect()
}

fn test_rows_of(users: &[Option<String>], split: &Split, user: &str) -> usize {
    (0..users.len())
        .filter(|&i| split.test[i] && users[i].as_deref() == Some(user))
        .count()
}

#[test]
fn test_random_split_ratios() {
    let users = interaction_users();
    let split = random_split(&users, 0.25, 0.0, 1.0, &requested(12, 0.25), 42)
        .ok()
        .unwrap();
    let stats = split.stats;
    assert_eq!(stats.train_interactions + stats.test_interactions, 12);
    assert!(stats.test_interactions > 0);
    assert!(stats.train_interactions > 0);
}

#[test]
fn test_random_split_deterministic() {
    let users = interaction_users();
    let wanted = requested(12, 0.3);
    let split1 = random_split(&users, 0.3, 0.0, 1.0, &wanted, 123)
        .ok()
        .unwrap();
    let split2 = random_split(&users, 0.3, 0.0, 1.0, &wanted, 123)
        .ok()
        .unwrap();
    assert_eq!(
        split1.stats.train_interactions,
        split2.stats.train_interactions
    );
    assert_eq!(
        split1.stats.test_interactions,
        split2.stats.test_interactions
    );
    assert_eq!(split1.test, split2.test);
    assert_eq!(split1.train, split2.train);
}

#[test]
fn test_leave_k_out_correct_k() {
    let users = interaction_users();
    let k = 2;
    let split = leave_k_out_split(&users, k, 42);
    assert_eq!(
        split.stats.train_interactions + split.stats.test_interactions,
        12
    );
    for user in ["u1", "u2", "u3"] {
        assert_eq!(
            test_rows_of(&users, &split, user),
            k,
            "Each eligible user should have exactly k test items"
        );
    }
}

#[test]
fn test_temporal_split() {
    let users = column(&["u1", "u1", "u1", "u2", "u2", "u2"]);
    let days: Vec<Option<f64>> = [30.0, 5.0, 2.0, 60.0, 3.0, 1.0]
        .iter()
        .map(|d| Some(*d))
        .collect();
    let split = temporal_split(&users, &days, 7.0).ok().unwrap();
    let stats = split.stats;
    assert_eq!(stats.train_interactions + stats.test_interactions, 6);
    assert_eq!(stats.test_interactions, 4);
    assert_eq!(stats.train_interactions, 2);
    for i in 0..6 {
        if split.test[i] {
            assert!(
                days[i].unwrap() <= 7.0,
                "Test items should have days_ago <= cutoff"
            );
        }
    }
}

#[test]
fn split_ratio_lies_between_zero_and_one() {
    let users = interaction_users();
    for (ratio, held) in [(0.0, 0), (1.0, 12)] {
        assert!(check_ratio(ratio, 0.0, 1.0).is_ok());
        let split = random_split(&users, ratio, 0.0, 1.0, &requested(12, ratio), 42)
            .ok()
            .unwrap();
        assert_eq!(split.stats.test_interactions, held);
        assert_eq!(split.stats.train_interactions, 12 - held);
    }
    for ratio in [-0.5, 1.5, f64::NAN] {
        let err = random_split(&users, ratio, 0.0, 1.0, &requested(12, 0.5), 42)
            .err()
            .unwrap();
        assert_eq!(err, SplitError::InvalidRatio);
        assert_eq!(err.message(), "test_ratio must be between 0.0 and 1.0");
        assert_eq!(check_ratio(ratio, 0.0, 1.0), Err(SplitError::InvalidRatio));
    }
}

#[test]
fn temporal_split_refuses_missing_ages() {
    let err = temporal_split(&column(&["u", "u"]), &[Some(1.0), None], 7.0)
        .err()
        .unwrap();
    assert_eq!(err, SplitError::NullDaysAgo);
    assert!(err.message().starts_with("days_ago contains null values"));
}

#[test]
fn splits_partition_rows() {
    let mut users = interaction_users();
    users[5] = None;
    let split = random_split(&users, 0.9, 0.0, 1.0, &requested(12, 0.9), 7)
        .ok()
        .unwrap();
    for i in 0..12 {
        assert_ne!(split.train[i], split.test[i]);
    }
    assert!(split.train[5], "a row without a user is never held out");
    assert_eq!(split.stats.train_users, 3);
    assert_eq!(split.stats.test_users, 3);
    for (user, held) in [("u1", 3), ("u2", 1), ("u3", 4)] {
        assert_eq!(test_rows_of(&users, &split, user), held);
    }
    assert_eq!(count_unique_users(&users), 3);
}

#[test]
fn a_share_between_zero_and_one_keeps_every_user() {
    let users = column(&["a", "b", "b", "b", "c", "c"]);
    for ratio in [0.1, 0.6, 0.9] {
        let split = random_split(&users, ratio, 0.0, 1.0, &requested(6, ratio), 3)
            .ok()
            .unwrap();
        assert_eq!(split.stats.train_users, 3);
        assert_eq!(split.stats.test_users, 2);
        assert_eq!(test_rows_of(&users, &split, "a"), 0);
        let held = if ratio < 0.5 { 1 } else { 2 };
        assert_eq!(test_rows_of(&users, &split, "b"), held);
        assert_eq!(test_rows_of(&users, &split, "c"), 1);
    }
}

#[test]
fn a_row_of_unknown_age_trains() {
    let days = [Some(3.0), Some(f64::NAN), Some(9.0)];
    let split = temporal_split(&column(&["u", "u", "v"]), &days, 7.0)
        .ok()
        .unwrap();
    assert_eq!(split.train, vec![false, true, true]);
    assert_eq!(split.test, vec![true, false, false]);
    assert_eq!(split.stats.train_interactions, 2);
    assert_eq!(split.stats.test_interactions, 1);
}

#[test]
fn seed_shuffles_rows() {
    let users: Vec<Option<String>> = (0..40).map(|_| Some("u".to_string())).collect();
    let a = leave_k_out_split(&users, 5, 1);
    let b = leave_k_out_split(&users, 5, 2);
    assert_ne!(a.test, b.test);
    assert_eq!(a.test.iter().filter(|t| **t).count(), 5);
    assert_ne!(
        a.test,
        (0..40).map(|i| i < 5).collect::<Vec<bool>>(),
        "the held-out rows are drawn, not the first ones"
    );
}

#[test]
fn users_with_few_rows_stay_in_train() {
    let users = column(&["a", "a", "b", "b", "b"]);
    let split = leave_k_out_split(&users, 2, 9);
    assert_eq!(test_rows_of(&users, &split, "a"), 0);
    assert_eq!(test_rows_of(&users, &split, "b"), 2);
}

struct EaseAdapter {
    model: RustFeaseModel<f64>,
}

impl RecModel<f64, f32> for EaseAdapter {
    fn kind(&self) -> ModelKind {
        ModelKind::Ease
    }

    fn num_items(&self) -> usize {
        self.model.num_items
    }

    fn item_mapping(&self) -> &Mappings {
        &self.model.mappings
    }

    fn predict_scores(&self, input: ModelInput<f64, f32>) -> Result<Vec<f32>, ModelError> {
        let taken = sparse_input(input)?;
        let scores =
            self.model
                .predict(taken.interactions, taken.user_features, self.model.beta, 0.0);
        Ok(scores.into_iter().map(|s| s as f32).collect())
    }

    fn predict_similar_items(
        &self,
        item_idx: usize,
        top_k: usize,
    ) -> Result<Vec<(usize, f32)>, ModelError> {
        let similar = self.model.predict_similar_items(item_idx, top_k);
        Ok(similar.into_iter().map(|(i, s)| (i, s as f32)).collect())
    }

    fn validate(&self) -> ValidationReport {
        ValidationReport {
            passed: true,
            messages: vec![],
        }
    }
}

fn regression_mappings() -> Mappings {
    let mut m = Mappings {
        user_to_idx: Default::default(),
        idx_to_user: Default::default(),
        item_to_idx: Default::default(),
        idx_to_item: Default::default(),
        user_feature_to_idx: Default::default(),
        idx_to_user_feature: Default::default(),
        item_feature_to_idx: Default::default(),
        idx_to_item_feature: Default::default(),
    };
    for (i, u) in ["u1", "u2", "u3"].iter().enumerate() {
        m.user_to_idx.insert(u.to_string(), i);
        m.idx_to_user.insert(i, u.to_string());
    }
    for (i, it) in ["i1", "i2", "i3", "i4", "i5"].iter().enumerate() {
        m.item_to_idx.insert(it.to_string(), i);
        m.idx_to_item.insert(i, it.to_string());
    }
    m
}

fn regression_model() -> RustFeaseModel<f64> {
    let n_items = 5;
    let n_user_features = 0;
    let total = n_items + n_user_features;
    let mut s = Matrix::filled_with(total, total, 0.0);
    let weights = [
        (0, 1, 0.9),
        (0, 2, 0.4),
        (0, 3, 0.7),
        (1, 2, 0.6),
        (1, 4, 0.3),
        (2, 3, 0.8),
        (2, 4, 0.5),
        (3, 4, 0.2),
    ];
    for &(a, b, w) in &weights {
        s.set(a, b, w);
        s.set(b, a, w);
    }
    RustFeaseModel {
        s_matrix: s,
        num_items: n_items,
        num_user_features: n_user_features,
        num_item_features: 0,
        alpha: 1.0,
        beta: 1.0,
        lambda_: 100.0,
        meta_weight: 0.0,
        mappings: regression_mappings(),
        weighting_config: None,
        transformation_schema: None,
    }
}

fn value(ratio: Ratio) -> f64 {
    ratio.hits as f64 / ratio.out_of as f64
}

fn gain(terms: &NdcgTerms) -> f64 {
    let last = terms.hit_ranks.iter().copied().max().unwrap_or(0);
    let gains: Vec<f64> = (0..terms.ideal_hits.max(last + 1))
        .map(|r| 1.0 / (r as f64 + 2.0).log2())
        .collect();
    ndcg(terms, &gains, 0.0)
}

fn average(terms: &PrecisionTerms) -> f64 {
    let precisions: Vec<f64> = terms.precisions.iter().map(|&p| value(p)).collect();
    average_precision(terms, &precisions, 0.0, terms.num_relevant as f64)
}

/// Precision, recall, NDCG, MAP and hit rate at one cut-off.
type Means = (usize, [f64; 5]);

fn means(report: &EvalReport, config: &EvalConfig) -> Vec<Means> {
    let users: Vec<Vec<MetricsAtK<f64>>> = report
        .users
        .iter()
        .map(|user| {
            user.at_k
                .iter()
                .map(|at| MetricsAtK {
                    k: at.k,
                    precision: value(at.precision),
                    recall: value(at.recall),
                    ndcg: gain(&at.ndcg),
                    map: average(&at.map),
                    hit_rate: if at.hit { 1.0 } else { 0.0 },
                })
                .collect()
        })
        .collect();
    mean_metrics(&users, &config.k_values, 0.0, report.num_users as f64)
        .iter()
        .map(|m| (m.k, [m.precision, m.recall, m.ndcg, m.map, m.hit_rate]))
        .collect()
}

struct Baseline {
    metrics_at_k: Vec<Means>,
    coverage: f64,
    num_users: usize,
    num_interactions: usize,
}

/// The report computed directly on the model's own scores.
fn baseline_concrete_report(
    model: &RustFeaseModel<f64>,
    test: &[(&str, &str)],
    train: &[(&str, &str, f64)],
    config: &EvalConfig,
) -> Baseline {
    let mut test_user_items: AHashMap<String, HashSet<usize>> = AHashMap::new();
    for (uid, iid) in test {
        if let Some(&item_idx) = model.mappings.item_to_idx.get(*iid) {
            test_user_items
                .entry(uid.to_string())
                .or_default()
                .insert(item_idx);
        }
    }
    let mut train_user_interactions: AHashMap<String, Vec<(usize, f64)>> = AHashMap::new();
    for (uid, iid, val) in train {
        if let Some(&item_idx) = model.mappings.item_to_idx.get(*iid) {
            train_user_interactions
                .entry(uid.to_string())
                .or_default()
                .push((item_idx, *val));
        }
    }
    let max_k = config.k_values.iter().copied().max().unwrap_or(10);
    let mut sums = vec![[0.0; 5]; config.k_values.len()];
    let mut all_recs: Vec<Vec<usize>> = Vec::new();
    let mut num_users = 0;
    let mut num_interactions = 0;
    for (uid, relevant) in &test_user_items {
        if !model.mappings.user_to_idx.contains_key(uid.as_str()) {
            continue;
        }
        let user_interactions = train_user_interactions
            .get(uid.as_str())
            .cloned()
            .unwrap_or_default();
        let scores = model.predict(&user_interactions, &[], model.beta, 0.0);
        let seen: HashSet<usize> = user_interactions.iter().map(|(idx, _)| *idx).collect();
        let mut ranked: Vec<(usize, f64)> = scores
            .into_iter()
            .enumerate()
            .filter(|(idx, _)| !seen.contains(idx))
            .collect();
        ranked.sort_by(|a, b| b.1.partial_cmp(&a.1).unwrap_or(std::cmp::Ordering::Equal));
        let recommended: Vec<usize> = ranked.iter().take(max_k).map(|(idx, _)| *idx).collect();
        for (ki, &k) in config.k_values.iter().enumerate() {
            sums[ki][0] += value(precision_at_k(&recommended, relevant, k));
            sums[ki][1] += value(recall_at_k(&recommended, relevant, k));
            sums[ki][2] += gain(&ndcg_at_k(&recommended, relevant, k));
            sums[ki][3] += average(&mean_average_precision(
                &recommended[..k.min(recommended.len())],
                relevant,
            ));
            if hit_rate_at_k(&recommended, relevant, k) {
                sums[ki][4] += 1.0;
            }
        }
        all_recs.push(recommended);
        num_users += 1;
        num_interactions += relevant.len();
    }
    let n = num_users as f64;
    Baseline {
        metrics_at_k: config
            .k_values
            .iter()
            .enumerate()
            .map(|(ki, &k)| (k, sums[ki].map(|s| s / n)))
            .collect(),
        coverage: value(coverage(&all_recs, model.num_items)),
        num_users,
        num_interactions,
    }
}

#[test]
fn test_evaluate_via_dyn_recmodel_matches_concrete_baseline() {
    let train = [
        ("u1", "i1", 1.0),
        ("u1", "i2", 1.0),
        ("u2", "i1", 1.0),
        ("u3", "i3", 1.0),
        ("u3", "i4", 1.0),
    ];
    let test = [("u1", "i3"), ("u2", "i2"), ("u2", "i4"), ("u3", "i5")];
    let config = EvalConfig {
        k_values: vec![1, 2, 3],
    };
    let model = regression_model();
    let baseline = baseline_concrete_report(&model, &test, &train, &config);

    let adapter = EaseAdapter { model };
    let train_table = LongTable {
        rows: train.iter().map(|r| Some(r.0.to_string())).collect(),
        cols: train.iter().map(|r| Some(r.1.to_string())).collect(),
        values: train.iter().map(|r| Some(r.2)).collect(),
    };
    let test_users: Vec<Option<String>> = test.iter().map(|r| Some(r.0.to_string())).collect();
    let test_items: Vec<Option<String>> = test.iter().map(|r| Some(r.1.to_string())).collect();
    let report = evaluate_model(
        &adapter,
        &test_users,
        &test_items,
        &train_table,
        None,
        &config,
    )
    .ok()
    .unwrap();

    assert_eq!(report.num_users, baseline.num_users);
    assert_eq!(report.num_interactions, baseline.num_interactions);
    assert!((value(report.coverage) - baseline.coverage).abs() < 1e-9);
    let found = means(&report, &config);
    assert_eq!(found.len(), baseline.metrics_at_k.len());
    for (t, b) in found.iter().zip(baseline.metrics_at_k.iter()) {
        assert_eq!(t.0, b.0);
        for m in 0..5 {
            assert!((t.1[m] - b.1[m]).abs() < 1e-9, "metric {m} at {}", t.0);
        }
    }
}

#[test]
fn evaluation_without_known_users_is_refused() {
    let adapter = EaseAdapter {
        model: regression_model(),
    };
    let train = LongTable {
        rows: vec![],
        cols: vec![],
        values: vec![],
    };
    let config = EvalConfig { k_values: vec![1] };
    let err = evaluate_model(
        &adapter,
        &column(&["nobody", "u1"]),
        &column(&["i1", "unknown"]),
        &train,
        None,
        &config,
    )
    .err()
    .unwrap();
    assert!(matches!(err, EvalError::NoUsers));
    assert_eq!(
        err.message(),
        "No test users could be evaluated (no overlap between test users and model mappings)"
    );
}

struct Refusing {
    mappings: Mappings,
}

impl RecModel<f64, f64> for Refusing {
    fn kind(&self) -> ModelKind {
        ModelKind::SasRec
    }

    fn num_items(&self) -> usize {
        self.mappings.idx_to_item.len()
    }

    fn item_mapping(&self) -> &Mappings {
        &self.mappings
    }

    fn predict_scores(&self, _input: ModelInput<f64, f64>) -> Result<Vec<f64>, ModelError> {
        Err(ModelError {
            message: "no scores".to_string(),
        })
    }

    fn predict_similar_items(
        &self,
        _item_idx: usize,
        _top_k: usize,
    ) -> Result<Vec<(usize, f64)>, ModelError> {
        Ok(vec![])
    }

    fn validate(&self) -> ValidationReport {
        ValidationReport {
            passed: true,
            messages: vec![],
        }
    }
}

#[test]
fn a_refusing_model_ends_the_evaluation() {
    let model = Refusing {
        mappings: regression_model().mappings,
    };
    let train = LongTable {
        rows: vec![],
        cols: vec![],
        values: vec![],
    };
    let config = EvalConfig { k_values: vec![1] };
    let err = evaluate_model(
        &model,
        &column(&["u1"]),
        &column(&["i1"]),
        &train,
        None,
        &config,
    )
    .err()
    .unwrap();
    assert!(matches!(err, EvalError::Model(_)));
    assert_eq!(err.message(), "no scores");
}

#[test]
fn test_eval_report_structure() {
    let config = EvalConfig {
        k_values: vec![5, 10, 20],
    };
    let user = || UserEvaluation {
        recommended: vec![],
        num_relevant: 5,
        at_k: vec![],
    };
    let report = EvalReport {
        users: (0..100).map(|_| user()).collect(),
        coverage: Ratio {
            hits: 75,
            out_of: 100,
        },
        num_users: 100,
        num_interactions: 500,
    };
    let at_k: Vec<MetricsAtK<f64>> = config
        .k_values
        .iter()
        .map(|&k| MetricsAtK {
            k,
            precision: 0.1,
            recall: 0.05,
            ndcg: 0.15,
            map: 0.08,
            hit_rate: 0.4,
        })
        .collect();
    let metrics_at_k = mean_metrics(&[at_k], &config.k_values, 0.0, 1.0);
    assert_eq!(metrics_at_k.len(), 3);
    assert_eq!(metrics_at_k[0].k, 5);
    assert_eq!(metrics_at_k[1].k, 10);
    assert_eq!(metrics_at_k[2].k, 20);
    assert!((metrics_at_k[0].precision - 0.1).abs() < 1e-10);
    assert!((metrics_at_k[1].recall - 0.05).abs() < 1e-10);
    assert!((metrics_at_k[1].ndcg - 0.15).abs() < 1e-10);
    assert!((metrics_at_k[2].map - 0.08).abs() < 1e-10);
    assert!((metrics_at_k[2].hit_rate - 0.4).abs() < 1e-10);
    assert!((value(report.coverage) - 0.75).abs() < 1e-10);
    assert_eq!(report.num_users, 100);
    assert_eq!(report.num_interactions, 500);
    assert_eq!(report.users.len(), report.num_users);
}

#[test]
fn one_user_is_measured_exactly() {
    let relevant: HashSet<usize> = [1, 3].into_iter().collect();
    let config = EvalConfig {
        k_values: vec![1, 3],
    };
    let found = evaluate_user(vec![0.9, 0.8, 0.7, 0.6], &[0], &relevant, &config);
    assert_eq!(found.recommended, vec![1, 2, 3]);
    assert_eq!(found.num_relevant, 2);
    assert_eq!(found.at_k[0].precision, Ratio { hits: 1, out_of: 1 });
    assert_eq!(found.at_k[1].precision, Ratio { hits: 2, out_of: 3 });
    assert_eq!(found.at_k[1].recall, Ratio { hits: 2, out_of: 2 });
    assert!(found.at_k[0].hit);
}

#[test]
fn means_are_taken_per_metric_and_list_length() {
    let at = |k: usize, base: f64| MetricsAtK {
        k,
        precision: base,
        recall: base + 1.0,
        ndcg: base + 2.0,
        map: base + 3.0,
        hit_rate: base + 4.0,
    };
    let users = [vec![at(1, 0.0), at(5, 10.0)], vec![at(1, 2.0), at(5, 14.0)]];
    let means = mean_metrics(&users, &[1, 5], 0.0, 2.0);
    assert_eq!(means.len(), 2);
    assert_eq!((means[0].k, means[1].k), (1, 5));
    assert_eq!((means[0].precision, means[0].recall), (1.0, 2.0));
    assert_eq!((means[0].ndcg, means[0].map, means[0].hit_rate), (3.0, 4.0, 5.0));
    assert_eq!((means[1].precision, means[1].hit_rate), (12.0, 16.0));
}
