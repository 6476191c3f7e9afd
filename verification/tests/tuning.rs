//! Hyper-parameter search.

use ahash::AHashSet;
use kzn_recsys::data_pipeline::{build_matrices, LongTable, Mappings, TripletMatrix};
use kzn_recsys::evaluation::means::ndcg;
use kzn_recsys::matrix::Matrix;
use kzn_recsys::metrics::NdcgTerms;
use kzn_recsys::model::{assemble_system, GramProducts, RustFeaseModel, ValidationReport};
use kzn_recsys::models::{sparse_input, ModelError, ModelInput, ModelKind, RecModel};
use kzn_recsys::tuning::folds::{generate_kfold_splits, Fold, FoldError};
use kzn_recsys::tuning::grid::{cartesian_product, sample_configs, HyperParams, ParamGrid};
use kzn_recsys::tuning::search::{
    conclude_search, plan_grid_search, plan_random_search, SearchPlan, SearchResult, TuningError,
};
use kzn_recsys::tuning::trial::{
    evaluate_fold, fold_score, ndcg_at_k, needs_weighting, score_user, trial_weighting,
};
use nalgebra::DMatrix;

fn column(names: &[&str]) -> Vec<Option<String>> {
    names.iter().map(|n| Some(n.to_string())).collect()
}

fn ones(n: usize) -> Vec<Option<f64>> {
    vec![Some(1.0); n]
}

struct Dataset {
    interactions: LongTable<f64>,
    user_features: LongTable<f64>,
    item_features: LongTable<f64>,
}

fn create_test_dataset() -> Dataset {
    Dataset {
        interactions: LongTable {
            rows: column(&[
                "u0", "u0", "u1", "u1", "u2", "u2", "u3", "u3", "u4", "u4", "u5", "u5",
            ]),
            cols: column(&[
                "i0", "i1", "i1", "i2", "i0", "i2", "i2", "i3", "i0", "i3", "i1", "i3",
            ]),
            values: ones(12),
        },
        user_features: LongTable {
            rows: column(&["u0", "u1", "u2", "u3", "u4", "u5"]),
            cols: column(&["f_a", "f_b", "f_a", "f_b", "f_a", "f_b"]),
            values: ones(6),
        },
        item_features: LongTable {
            rows: column(&["i0", "i1", "i2", "i3"]),
            cols: column(&["g_x", "g_y", "g_x", "g_y"]),
            values: ones(4),
        },
    }
}

fn pick(table: &LongTable<f64>, keep: &[bool]) -> LongTable<f64> {
    let rows: Vec<usize> = (0..keep.len()).filter(|&i| keep[i]).collect();
    LongTable {
        rows: rows.iter().map(|&i| table.rows[i].clone()).collect(),
        cols: rows.iter().map(|&i| table.cols[i].clone()).collect(),
        values: rows.iter().map(|&i| table.values[i]).collect(),
    }
}

fn dense(m: &TripletMatrix<f64>) -> DMatrix<f64> {
    let mut d = DMatrix::zeros(m.num_rows, m.num_cols);
    for (r, c, v) in &m.entries {
        d[(*r, *c)] += v;
    }
    d
}

fn to_matrix(d: &DMatrix<f64>) -> Matrix<f64> {
    Matrix {
        nrows: d.nrows(),
        ncols: d.ncols(),
        data: d.as_slice().to_vec(),
    }
}

fn train(data: &Dataset, params: &HyperParams<f64>) -> RustFeaseModel<f64> {
    let built = build_matrices(&data.interactions, &data.user_features, &data.item_features);
    let (x, u, t) = (dense(&built.x), dense(&built.u), dense(&built.t));
    let mut model = RustFeaseModel::new(
        x.ncols(),
        u.ncols(),
        t.nrows(),
        params.alpha,
        params.beta,
        params.lambda_,
        params.meta_weight,
        built.mappings,
        0.0,
    );
    let products = GramProducts {
        xtx: to_matrix(&(x.transpose() * &x)),
        ttt: to_matrix(&(t.transpose() * &t)),
        xtu: to_matrix(&(x.transpose() * &u)),
        utx: to_matrix(&(u.transpose() * &x)),
        utu: to_matrix(&(u.transpose() * &u)),
    };
    let factors = model.block_factors(0.0, 1.0);
    let system = assemble_system(
        &products,
        &factors,
        model.num_items,
        model.num_user_features,
    );
    let inverse = DMatrix::from_vec(system.nrows, system.ncols, system.data)
        .try_inverse()
        .map(|p| to_matrix(&p));
    model
        .finish_training(inverse, -1.0, 0.0, 1e-12)
        .ok()
        .unwrap();
    model
}

struct Ease(RustFeaseModel<f64>);

impl RecModel<f64, f64> for Ease {
    fn kind(&self) -> ModelKind {
        ModelKind::Ease
    }

    fn num_items(&self) -> usize {
        self.0.num_items
    }

    fn item_mapping(&self) -> &Mappings {
        &self.0.mappings
    }

    fn predict_scores(&self, input: ModelInput<f64, f64>) -> Result<Vec<f64>, ModelError> {
        let taken = sparse_input(input)?;
        Ok(self
            .0
            .predict(taken.interactions, taken.user_features, self.0.beta, 0.0))
    }

    fn predict_similar_items(
        &self,
        item_idx: usize,
        top_k: usize,
    ) -> Result<Vec<(usize, f64)>, ModelError> {
        Ok(self.0.predict_similar_items(item_idx, top_k))
    }

    fn validate(&self) -> ValidationReport {
        ValidationReport {
            passed: true,
            messages: vec![],
        }
    }
}

fn gain(terms: &NdcgTerms) -> f64 {
    let last = terms.hit_ranks.iter().copied().max().unwrap_or(0);
    let gains: Vec<f64> = (0..terms.ideal_hits.max(last + 1))
        .map(|r| 1.0 / (r as f64 + 2.0).log2())
        .collect();
    ndcg(terms, &gains, 0.0)
}

fn evaluate_trial(data: &Dataset, fold: &Fold, params: &HyperParams<f64>, eval_k: usize) -> f64 {
    let part = Dataset {
        interactions: pick(&data.interactions, &fold.train),
        user_features: pick(&data.user_features, &[true; 6]),
        item_features: pick(&data.item_features, &[true; 4]),
    };
    let model = Ease(train(&part, params));
    let test = pick(&data.interactions, &fold.test);
    let scores = evaluate_fold(
        &model,
        &part.interactions,
        &test,
        &part.user_features,
        eval_k,
    )
    .ok()
    .unwrap();
    let gains: Vec<f64> = scores.terms.iter().map(gain).collect();
    fold_score(&gains, 0.0, gains.len() as f64)
}

fn run(data: &Dataset, plan: &SearchPlan<f64>, eval_k: usize, backwards: bool) -> SearchResult<f64> {
    let mut results: Vec<(usize, usize, f64)> = plan
        .work
        .iter()
        .map(|&(t, f)| {
            let score = evaluate_trial(data, &plan.folds[f], &plan.configs[t], eval_k);
            (t, f, score)
        })
        .collect();
    if backwards {
        results.reverse();
    }
    conclude_search(
        &plan.configs,
        &results,
        plan.folds.len(),
        0.0,
        plan.folds.len() as f64,
        f64::NEG_INFINITY,
        eval_k,
    )
}

fn grid_search(
    data: &Dataset,
    grid: &ParamGrid<f64>,
    n_folds: usize,
    eval_k: usize,
    seed: u64,
) -> SearchResult<f64> {
    let plan = plan_grid_search(grid, &data.interactions.rows, n_folds, seed)
        .ok()
        .unwrap();
    run(data, &plan, eval_k, true)
}

fn defaults() -> HyperParams<f64> {
    HyperParams {
        alpha: 1.0,
        beta: 1.0,
        lambda_: 100.0,
        meta_weight: 0.0,
        decay_rate: 0.0,
        ips_alpha: 0.0,
        sparsity_threshold: 0.0,
    }
}

fn grid(alpha: Vec<f64>, beta: Vec<f64>, lambda_: Vec<f64>) -> ParamGrid<f64> {
    ParamGrid {
        alpha,
        beta,
        lambda_,
        meta_weight: vec![0.0],
        decay_rate: vec![0.0],
        ips_alpha: vec![0.0],
        sparsity_threshold: vec![0.0],
    }
}

#[test]
fn test_param_grid_cartesian_product() {
    let grid = grid(vec![0.5, 1.0], vec![0.5, 1.0], vec![10.0, 100.0]);
    let combos = cartesian_product(&grid);
    assert_eq!(combos.len(), 8);

    let alphas: AHashSet<u64> = combos.iter().map(|p| p.alpha.to_bits()).collect();
    assert!(alphas.contains(&0.5_f64.to_bits()));
    assert!(alphas.contains(&1.0_f64.to_bits()));
}

#[test]
fn test_kfold_split_coverage() {
    let data = create_test_dataset();
    let users = &data.interactions.rows;
    let folds = generate_kfold_splits(users, 3, 42).ok().unwrap();
    assert_eq!(folds.len(), 3);

    let mut all_test_users: Vec<String> = Vec::new();
    for fold in &folds {
        let held_out: AHashSet<String> = (0..12)
            .filter(|&i| fold.test[i])
            .filter_map(|i| users[i].clone())
            .collect();
        all_test_users.extend(held_out);
    }
    assert_eq!(all_test_users.len(), 6);
    all_test_users.sort();
    all_test_users.dedup();
    assert_eq!(
        all_test_users.len(),
        6,
        "All 6 users should appear in test exactly once across folds"
    );

    for fold in &folds {
        let train = fold.train.iter().filter(|t| **t).count();
        let test = fold.test.iter().filter(|t| **t).count();
        assert_eq!(
            train + test,
            12,
            "train + test should equal total interactions"
        );
    }
}

#[test]
fn test_ndcg_at_k_basic() {
    let rec = vec![0, 1, 2];
    let rel: AHashSet<usize> = [0, 1, 2].into_iter().collect();
    let score = gain(&ndcg_at_k(&rec, &rel, 3));
    assert!(
        (score - 1.0).abs() < 1e-10,
        "Perfect ranking should give NDCG=1.0, got {}",
        score
    );

    let rec2 = vec![3, 4, 5];
    let score2 = gain(&ndcg_at_k(&rec2, &rel, 3));
    assert!(
        score2.abs() < 1e-10,
        "No relevant items should give NDCG=0.0"
    );

    let empty_rel: AHashSet<usize> = AHashSet::new();
    let score3 = gain(&ndcg_at_k(&rec, &empty_rel, 3));
    assert!(score3.abs() < 1e-10, "Empty relevant should give NDCG=0.0");
}

#[test]
fn test_grid_search_finds_best() {
    let data = create_test_dataset();
    let grid = grid(vec![1.0], vec![1.0], vec![10.0, 500.0]);
    let result = grid_search(&data, &grid, 2, 10, 42);

    assert_eq!(result.all_trials.len(), 2);
    assert_eq!(result.metric_name, "ndcg@10");

    let trial_scores: Vec<f64> = result.all_trials.iter().map(|t| t.mean_score).collect();
    assert!(
        trial_scores.contains(&result.best_score),
        "Best score {} should be one of the trial scores {:?}",
        result.best_score,
        trial_scores
    );

    let max_score = trial_scores
        .iter()
        .cloned()
        .fold(f64::NEG_INFINITY, f64::max);
    assert!(
        (result.best_score - max_score).abs() < 1e-10,
        "Best score should be the maximum across trials"
    );
}

#[test]
fn test_random_search_correct_n_trials() {
    let data = create_test_dataset();
    let grid = grid(vec![0.5, 1.0, 2.0], vec![0.5, 1.0], vec![10.0, 50.0, 100.0]);
    let n_trials = 3;
    let plan = plan_random_search(&grid, defaults(), n_trials, &data.interactions.rows, 2, 42)
        .ok()
        .unwrap();
    let result = run(&data, &plan, 10, false);

    assert_eq!(result.all_trials.len(), n_trials);
    assert_eq!(result.metric_name, "ndcg@10");
    for trial in &result.all_trials {
        assert_eq!(trial.fold_scores.len(), 2);
    }
}

fn sequential_grid_baseline(
    data: &Dataset,
    grid: &ParamGrid<f64>,
    n_folds: usize,
    eval_k: usize,
    seed: u64,
) -> (HyperParams<f64>, f64, Vec<(f64, Vec<f64>)>) {
    let combos = cartesian_product(grid);
    let folds = generate_kfold_splits(&data.interactions.rows, n_folds, seed)
        .ok()
        .unwrap();
    let mut all_trials = Vec::new();
    let mut best_score = f64::NEG_INFINITY;
    let mut best_params = combos[0];
    for params in &combos {
        let fold_scores: Vec<f64> = folds
            .iter()
            .map(|fold| evaluate_trial(data, fold, params, eval_k))
            .collect();
        let mean_score = fold_scores.iter().sum::<f64>() / fold_scores.len() as f64;
        if mean_score > best_score {
            best_score = mean_score;
            best_params = *params;
        }
        all_trials.push((mean_score, fold_scores));
    }
    (best_params, best_score, all_trials)
}

#[test]
fn test_parallel_grid_search_matches_sequential() {
    let data = create_test_dataset();
    let grid = grid(vec![0.5, 1.0], vec![1.0], vec![10.0, 100.0, 500.0]);
    let n_folds = 2;
    let eval_k = 10;
    let seed = 42;

    let parallel = grid_search(&data, &grid, n_folds, eval_k, seed);
    let (best_params, best_score, trials) =
        sequential_grid_baseline(&data, &grid, n_folds, eval_k, seed);

    assert_eq!(parallel.all_trials.len(), trials.len());
    assert_eq!(parallel.metric_name, format!("ndcg@{}", eval_k));
    assert_eq!(parallel.best_params.alpha, best_params.alpha);
    assert_eq!(parallel.best_params.beta, best_params.beta);
    assert_eq!(parallel.best_params.lambda_, best_params.lambda_);

    const TOL: f64 = 1e-9;
    assert!((parallel.best_score - best_score).abs() < TOL);

    let expected_combos = cartesian_product(&grid);
    for (idx, (p_trial, s_trial)) in parallel.all_trials.iter().zip(trials.iter()).enumerate() {
        assert_eq!(p_trial.params.alpha, expected_combos[idx].alpha);
        assert_eq!(p_trial.params.lambda_, expected_combos[idx].lambda_);
        assert!((p_trial.mean_score - s_trial.0).abs() < TOL);
        assert_eq!(p_trial.fold_scores.len(), s_trial.1.len());
        for (p, s) in p_trial.fold_scores.iter().zip(s_trial.1.iter()) {
            assert!((p - s).abs() < TOL);
        }
    }
}

#[test]
fn last_axis_varies_fastest() {
    let combos = cartesian_product(&grid(vec![1.0, 2.0], vec![3.0], vec![10.0, 20.0]));
    let seen: Vec<(f64, f64)> = combos.iter().map(|p| (p.alpha, p.lambda_)).collect();
    assert_eq!(
        seen,
        vec![(1.0, 10.0), (1.0, 20.0), (2.0, 10.0), (2.0, 20.0)]
    );
}

#[test]
fn sampled_configurations_come_from_the_grid() {
    let grid = grid(vec![0.5, 1.0, 2.0], vec![], vec![10.0, 50.0]);
    let configs = sample_configs(&grid, defaults(), 20, 42);
    assert_eq!(configs.len(), 20);
    for c in &configs {
        assert!([0.5, 1.0, 2.0].contains(&c.alpha));
        assert_eq!(c.beta, 1.0);
        assert!([10.0, 50.0].contains(&c.lambda_));
    }
    assert!(configs.iter().any(|c| c.alpha != configs[0].alpha));
    let again = sample_configs(&grid, defaults(), 20, 42);
    for (a, b) in configs.iter().zip(again.iter()) {
        assert_eq!((a.alpha, a.lambda_), (b.alpha, b.lambda_));
    }
}

#[test]
fn fold_counts_are_checked() {
    let users = column(&["a", "b", "a"]);
    let err = generate_kfold_splits(&users, 1, 42).err().unwrap();
    assert_eq!(err, FoldError::TooFew { n_folds: 1 });
    assert_eq!(err.message(), "n_folds must be >= 2, got 1");
    let err = generate_kfold_splits(&users, 3, 42).err().unwrap();
    assert_eq!(
        err,
        FoldError::TooMany {
            n_folds: 3,
            n_users: 2
        }
    );
    assert_eq!(
        err.message(),
        "n_folds (3) exceeds number of unique users (2)"
    );
}

#[test]
fn searches_need_something_to_try() {
    let data = create_test_dataset();
    let users = &data.interactions.rows;
    let empty = grid(vec![], vec![1.0], vec![1.0]);
    let err = plan_grid_search(&empty, users, 2, 42).err().unwrap();
    assert_eq!(err, TuningError::EmptyGrid);
    assert_eq!(err.message(), "Parameter grid produced 0 combinations");
    let some = grid(vec![1.0], vec![1.0], vec![1.0]);
    let err = plan_random_search(&some, defaults(), 0, users, 2, 42)
        .err()
        .unwrap();
    assert_eq!(err, TuningError::NoTrials);
    assert_eq!(err.message(), "n_trials must be >= 1");
    let err = plan_grid_search(&some, users, 1, 42).err().unwrap();
    assert_eq!(err, TuningError::Folds(FoldError::TooFew { n_folds: 1 }));
    assert_eq!(err.message(), "n_folds must be >= 2, got 1");
}

#[test]
fn folds_are_balanced_and_keep_users_together() {
    let users: Vec<Option<String>> = (0..22).map(|i| Some(format!("u{}", i % 11))).collect();
    let folds = generate_kfold_splits(&users, 4, 5).ok().unwrap();
    let sizes: Vec<usize> = folds
        .iter()
        .map(|f| f.test.iter().filter(|t| **t).count() / 2)
        .collect();
    assert_eq!(sizes, vec![3, 3, 3, 2]);
    for fold in &folds {
        for i in 0..11 {
            assert_eq!(fold.test[i], fold.test[i + 11]);
            assert_ne!(fold.test[i], fold.train[i]);
        }
    }
}

#[test]
fn arrival_order_does_not_matter() {
    let configs = cartesian_product(&grid(vec![1.0, 2.0], vec![1.0], vec![1.0]));
    let results = vec![(0, 0, 0.25), (0, 1, 0.75), (1, 0, 0.5), (1, 1, 1.0)];
    let shuffled = vec![(1, 1, 1.0), (0, 1, 0.75), (1, 0, 0.5), (0, 0, 0.25)];
    for order in [results, shuffled] {
        let outcome = conclude_search(&configs, &order, 2, 0.0, 2.0, f64::NEG_INFINITY, 5);
        assert_eq!(outcome.best_score, 0.75);
        assert_eq!(outcome.best_params.alpha, 2.0);
        assert_eq!(outcome.all_trials[0].fold_scores, vec![0.25, 0.75]);
        assert_eq!(outcome.all_trials[0].mean_score, 0.5);
        assert_eq!(outcome.metric_name, "ndcg@5");
    }
}

#[test]
fn every_trial_meets_every_fold() {
    let data = create_test_dataset();
    let grid = grid(vec![1.0, 2.0], vec![1.0], vec![1.0]);
    let plan = plan_grid_search(&grid, &data.interactions.rows, 3, 42)
        .ok()
        .unwrap();
    assert_eq!(
        plan.work,
        vec![(0, 0), (0, 1), (0, 2), (1, 0), (1, 1), (1, 2)]
    );
}

#[test]
fn weighting_is_needed_for_any_positive_rate() {
    assert!(!needs_weighting(&defaults(), 0.0));
    let mut params = defaults();
    params.ips_alpha = 0.5;
    assert!(needs_weighting(&params, 0.0));
    let mut params = defaults();
    params.decay_rate = 0.1;
    assert!(needs_weighting(&params, 0.0));
}

#[test]
fn one_user_is_scored_on_unseen_items() {
    let terms = score_user(vec![0.9, 0.1, 0.8, 0.3], &[0], &[1, 2], 2);
    assert_eq!(terms.hit_ranks, vec![0]);
    assert_eq!(terms.ideal_hits, 2);
}

#[test]
fn a_trial_carries_its_weighting() {
    assert!(trial_weighting(&defaults(), 0.0).is_none());
    let mut params = defaults();
    params.decay_rate = 0.25;
    params.sparsity_threshold = 0.5;
    let config = trial_weighting(&params, 0.0).unwrap();
    assert!(config.event_weights.is_none());
    assert_eq!((config.decay_rate, config.ips_alpha), (0.25, 0.0));
    assert_eq!(config.sparsity_threshold, 0.5);
}

#[test]
fn a_fold_without_users_scores_zero() {
    assert_eq!(fold_score(&[], 0.0, 0.0), 0.0);
    assert_eq!(fold_score(&[0.25, 0.75, 0.5], 0.0, 3.0), 0.5);
}

#[test]
fn folds_test_as_many_users_as_their_size() {
    let users: Vec<Option<String>> = (0..21).map(|i| Some(format!("u{}", i % 7))).collect();
    let folds = generate_kfold_splits(&users, 3, 5).ok().unwrap();
    let sizes: Vec<usize> = folds
        .iter()
        .map(|fold| {
            let tested: std::collections::HashSet<&String> = (0..users.len())
                .filter(|&i| fold.test[i])
                .map(|i| users[i].as_ref().unwrap())
                .collect();
            tested.len()
        })
        .collect();
    assert_eq!(sizes, vec![3, 2, 2]);
}

#[test]
fn a_trial_has_no_more_hits_than_its_ideal_list() {
    let relevant: AHashSet<usize> = [4, 2].into_iter().collect();
    for k in 0..6 {
        let terms = ndcg_at_k(&[4, 0, 2, 1], &relevant, k);
        assert!(terms.hit_ranks.len() <= terms.ideal_hits);
        assert!(gain(&terms) <= 1.0);
    }
}

#[test]
fn equal_searches_have_equal_plans() {
    let users: Vec<Option<String>> = (0..12).map(|i| Some(format!("u{}", i % 6))).collect();
    let mut grid = ParamGrid {
        alpha: vec![0.5, 1.0],
        beta: vec![1.0],
        lambda_: vec![10.0, 20.0, 30.0],
        meta_weight: vec![0.0],
        decay_rate: vec![0.0],
        ips_alpha: vec![0.0],
        sparsity_threshold: vec![0.0, 0.1],
    };
    let one = plan_grid_search(&grid, &users, 3, 9).ok().unwrap();
    let two = plan_grid_search(&grid, &users, 3, 9).ok().unwrap();
    let listed = |plan: &SearchPlan<f64>| -> Vec<(f64, f64, f64)> {
        plan.configs
            .iter()
            .map(|c| (c.alpha, c.lambda_, c.sparsity_threshold))
            .collect()
    };
    assert_eq!(listed(&one), listed(&two));
    assert_eq!(listed(&one)[0..3], [(0.5, 10.0, 0.0), (0.5, 10.0, 0.1), (0.5, 20.0, 0.0)]);
    assert_eq!(one.work, two.work);
    for f in 0..3 {
        assert_eq!(one.folds[f].train, two.folds[f].train);
        assert_eq!(one.folds[f].test, two.folds[f].test);
    }
    grid.lambda_.clear();
    assert!(matches!(
        plan_grid_search(&grid, &users, 3, 9),
        Err(TuningError::EmptyGrid)
    ));
}
