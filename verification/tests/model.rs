//! The linear model: training, prediction, pruning and validation.

use ahash::AHashMap;
use kzn_recsys::data_pipeline::Mappings;
use kzn_recsys::matrix::Matrix;
use kzn_recsys::model::{
    assemble_system, judge, weights_from_inverse, BlockFactors, GramProducts, RustFeaseModel,
    SingularSystem, ValidationReport,
};
use kzn_recsys::numeric::{mean, variance};
use kzn_recsys::text::{decimal, join};
use kzn_recsys::training::{accept, axis, complete, weighting_of, OptionError, TrainOptions};
use kzn_recsys::transform::{FeatureTransformationSchema, RawValue};
use kzn_recsys::weighting::WeightingConfig;
use nalgebra::DMatrix;

fn dummy_mappings() -> Mappings {
    Mappings {
        user_to_idx: Default::default(),
        idx_to_user: Default::default(),
        item_to_idx: Default::default(),
        idx_to_item: Default::default(),
        user_feature_to_idx: Default::default(),
        idx_to_user_feature: Default::default(),
        item_feature_to_idx: Default::default(),
        idx_to_item_feature: Default::default(),
    }
}

fn zeros(n: usize) -> Matrix<f64> {
    Matrix::filled_with(n, n, 0.0)
}

fn bare_model(s_matrix: Matrix<f64>, num_items: usize, num_user_features: usize) -> RustFeaseModel<f64> {
    RustFeaseModel {
        s_matrix,
        num_items,
        num_user_features,
        num_item_features: 0,
        alpha: 1.0,
        beta: 1.0,
        lambda_: 100.0,
        meta_weight: 0.0,
        mappings: dummy_mappings(),
        weighting_config: None,
        transformation_schema: None,
    }
}

fn simple_mat(rows: usize, cols: usize, triplets: &[(usize, usize, f64)]) -> DMatrix<f64> {
    let mut mat = DMatrix::zeros(rows, cols);
    for (r, c, v) in triplets {
        mat[(*r, *c)] += *v;
    }
    mat
}

fn to_matrix(d: &DMatrix<f64>) -> Matrix<f64> {
    Matrix {
        nrows: d.nrows(),
        ncols: d.ncols(),
        data: d.as_slice().to_vec(),
    }
}

fn train(
    model: &mut RustFeaseModel<f64>,
    x: &DMatrix<f64>,
    u: &DMatrix<f64>,
    t: &DMatrix<f64>,
) -> Result<(), SingularSystem> {
    let products = GramProducts {
        xtx: to_matrix(&(x.transpose() * x)),
        ttt: to_matrix(&(t.transpose() * t)),
        xtu: to_matrix(&(x.transpose() * u)),
        utx: to_matrix(&(u.transpose() * x)),
        utu: to_matrix(&(u.transpose() * u)),
    };
    let factors = model.block_factors(0.0, 1.0);
    let system = assemble_system(
        &products,
        &factors,
        model.num_items,
        model.num_user_features,
    );
    let inverse = DMatrix::from_vec(system.nrows, system.ncols, system.data)
        .try_inverse()
        .map(|p| to_matrix(&p));
    model.finish_training(inverse, -1.0, 0.0, 1e-12)
}

fn validate(model: &RustFeaseModel<f64>) -> ValidationReport {
    let facts = model.inspect(0.0, f64::INFINITY);
    judge(
        &facts,
        1e-6,
        1e-12,
        &format!("{:.2e}", facts.max_diagonal),
        &format!("{:.4e}", facts.max_magnitude),
    )
}

fn training_data() -> (DMatrix<f64>, DMatrix<f64>, DMatrix<f64>) {
    (
        simple_mat(
            5,
            4,
            &[(0, 0, 1.0), (1, 1, 1.0), (2, 2, 1.0), (3, 3, 1.0)],
        ),
        simple_mat(
            5,
            3,
            &[(0, 0, 1.0), (1, 1, 1.0), (2, 2, 1.0), (4, 1, 1.0)],
        ),
        simple_mat(
            2,
            4,
            &[(0, 0, 1.0), (0, 1, 1.0), (1, 2, 1.0), (1, 3, 1.0)],
        ),
    )
}

fn untrained(meta_weight: f64) -> RustFeaseModel<f64> {
    RustFeaseModel::new(
        4,
        3,
        2,
        1.0,
        1.0,
        100.0,
        meta_weight,
        dummy_mappings(),
        0.0,
    )
}

#[test]
fn test_fease_model_train() {
    let (x_mat, u_mat, t_mat) = training_data();
    let mut model = untrained(0.0);
    let train_result = train(&mut model, &x_mat, &u_mat, &t_mat);
    assert!(train_result.is_ok());

    let total_dim = 7;
    assert_eq!(model.s_matrix.nrows, total_dim);
    assert_eq!(model.s_matrix.ncols, total_dim);
    for i in 0..total_dim {
        assert!(model.s_matrix.get(i, i).abs() < 1e-6);
    }
}

#[test]
fn test_fease_model_train_with_meta_weight() {
    let (x_mat, u_mat, t_mat) = training_data();
    let mut model_no_w = untrained(0.0);
    train(&mut model_no_w, &x_mat, &u_mat, &t_mat).unwrap();
    let mut model_w = untrained(2.0);
    train(&mut model_w, &x_mat, &u_mat, &t_mat).unwrap();

    let max_diff = model_w
        .s_matrix
        .data
        .iter()
        .zip(model_no_w.s_matrix.data.iter())
        .fold(0.0_f64, |acc, (a, b)| acc.max((a - b).abs()));
    assert!(max_diff > 1e-10, "Meta weight should change the S matrix");

    for i in 0..7 {
        assert!(model_w.s_matrix.get(i, i).abs() < 1e-6);
    }
}

#[test]
fn test_fease_model_predict_warm_and_cold() {
    let n_items = 4;
    let mut s_mat = zeros(7);
    s_mat.set(0, 1, 0.5);
    s_mat.set(1, 0, 0.5);
    s_mat.set(4, 5, 0.8);
    s_mat.set(5, 4, 0.8);
    s_mat.set(2, 4, 1.0);
    s_mat.set(4, 2, 1.0);
    let model = bare_model(s_mat, n_items, 3);

    let scores_warm = model.predict(&[(0, 1.0)], &[(1, 1.0)], 1.0, 0.0);
    assert_eq!(scores_warm.len(), n_items);
    assert!((scores_warm[0] - 0.0).abs() < 1e-6);
    assert!((scores_warm[1] - 0.5).abs() < 1e-6);
    assert!((scores_warm[2] - 0.0).abs() < 1e-6);
    assert!((scores_warm[3] - 0.0).abs() < 1e-6);

    let scores_cold = model.predict(&[], &[(0, 1.0)], 1.0, 0.0);
    assert_eq!(scores_cold.len(), n_items);
    assert!((scores_cold[0] - 0.0).abs() < 1e-6);
    assert!((scores_cold[1] - 0.0).abs() < 1e-6);
    assert!((scores_cold[2] - 1.0).abs() < 1e-6);
    assert!((scores_cold[3] - 0.0).abs() < 1e-6);
}

#[test]
fn test_predict_raw_routes_through_schema() {
    let n_items = 4;
    let mut s_mat = zeros(7);
    s_mat.set(2, 4, 1.0);
    s_mat.set(4, 2, 1.0);

    let mut model = bare_model(s_mat, n_items, 3);
    model.mappings.item_to_idx = (0..n_items).map(|i| (format!("item_{i}"), i)).collect();
    model.mappings.user_feature_to_idx = [("plan_Premium".to_string(), 0)].into_iter().collect();
    let mut schema = FeatureTransformationSchema::new();
    schema.add_categorical("plan".to_string(), "plan".to_string());
    model.transformation_schema = Some(schema);

    let raw = vec![(
        "plan".to_string(),
        RawValue::Text {
            text: "Premium".to_string(),
            number: None,
        },
    )];
    let interactions = vec![("item_nope".to_string(), 1.0)];
    let scores = model.predict_raw(&interactions, &raw, 1.0, 0.0, 1.0);
    assert_eq!(scores.len(), n_items);
    assert!((scores[2] - 1.0).abs() < 1e-6);

    model.transformation_schema = None;
    let engineered = vec![(
        "plan_Premium".to_string(),
        RawValue::Number {
            text: "1.0".to_string(),
            value: Some(1.0),
        },
    )];
    let scores = model.predict_raw(&[], &engineered, 1.0, 0.0, 1.0);
    assert!((scores[2] - 1.0).abs() < 1e-6);
}

#[test]
fn test_predict_similar_items() {
    let mut s_mat = zeros(6);
    s_mat.set(0, 1, 0.9);
    s_mat.set(1, 0, 0.9);
    s_mat.set(0, 2, 0.3);
    s_mat.set(2, 0, 0.3);
    s_mat.set(1, 3, 0.4);
    s_mat.set(3, 1, 0.4);
    let model = bare_model(s_mat, 4, 2);

    let similar = model.predict_similar_items(0, 3);
    assert_eq!(similar.len(), 3);
    assert_eq!(similar[0].0, 1);
    assert!((similar[0].1 - 0.9).abs() < 1e-6);
    assert_eq!(similar[1].0, 2);
    assert!((similar[1].1 - 0.3).abs() < 1e-6);

    let similar_1 = model.predict_similar_items(0, 1);
    assert_eq!(similar_1.len(), 1);
    assert_eq!(similar_1[0].0, 1);

    let similar_oob = model.predict_similar_items(100, 5);
    assert!(similar_oob.is_empty());
}

#[test]
fn test_validate_passing_model() {
    let (x_mat, _, t_mat) = training_data();
    let u_mat = simple_mat(5, 3, &[(0, 0, 1.0), (1, 1, 1.0), (2, 2, 1.0)]);
    let mut model = untrained(0.0);
    train(&mut model, &x_mat, &u_mat, &t_mat).unwrap();

    let report = validate(&model);
    assert!(
        report.passed,
        "Validation should pass: {:?}",
        report.messages
    );
}

#[test]
fn test_validate_catches_nan() {
    let mut s = zeros(3);
    s.set(0, 1, f64::NAN);
    let report = validate(&bare_model(s, 2, 1));
    assert!(!report.passed);
    assert!(report.messages.iter().any(|m| m.contains("NaN")));
}

#[test]
fn test_validate_catches_all_zeros() {
    let report = validate(&bare_model(zeros(3), 2, 1));
    assert!(!report.passed);
    assert!(report.messages.iter().any(|m| m.contains("all zeros")));
}

#[test]
fn validation_messages_are_exact() {
    let mut s = zeros(3);
    s.set(0, 0, 0.5);
    s.set(0, 1, f64::INFINITY);
    s.set(1, 0, f64::NEG_INFINITY);
    let report = validate(&bare_model(s, 2, 2));
    assert!(!report.passed);
    assert_eq!(
        report.messages,
        vec![
            "FAIL: S matrix dimensions 3x3 don't match expected 4x4".to_string(),
            "FAIL: Diagonal not near-zero (max |diag| = 5.00e-1)".to_string(),
            "FAIL: S matrix contains 0 NaN and 2 Inf values".to_string(),
            "OK: S matrix max |value| = inf".to_string(),
        ]
    );
    let mut s = zeros(2);
    s.set(0, 1, -0.25);
    let report = validate(&bare_model(s, 1, 1));
    assert!(report.passed);
    assert_eq!(
        report.messages,
        vec![
            "OK: S matrix dimensions 2x2".to_string(),
            "OK: Diagonal near-zero (max |diag| = 0.00e0)".to_string(),
            "OK: No NaN or Inf values in S matrix".to_string(),
            "OK: S matrix max |value| = 2.5000e-1".to_string(),
        ]
    );
}

#[test]
fn system_blocks_are_exact() {
    let one = |v: f64| Matrix {
        nrows: 1,
        ncols: 1,
        data: vec![v],
    };
    let products = GramProducts {
        xtx: one(2.0),
        ttt: one(3.0),
        xtu: one(5.0),
        utx: one(7.0),
        utu: one(11.0),
    };
    let factors = BlockFactors {
        items: 10.0,
        mixed: 0.5,
        features: 0.25,
        ridge: 100.0,
    };
    let system = assemble_system(&products, &factors, 1, 1);
    assert_eq!(system.get(0, 0), 2.0 + 30.0 + 100.0);
    assert_eq!(system.get(0, 1), 2.5);
    assert_eq!(system.get(1, 0), 3.5);
    assert_eq!(system.get(1, 1), 2.75 + 100.0);
}

#[test]
fn block_factors_follow_the_weights() {
    let mut model = bare_model(zeros(2), 1, 1);
    model.alpha = 3.0;
    model.beta = 0.5;
    let plain = model.block_factors(0.0, 1.0);
    assert_eq!(
        (plain.items, plain.mixed, plain.features, plain.ridge),
        (9.0, 0.5, 0.25, 100.0)
    );
    model.meta_weight = 2.0;
    assert_eq!(model.block_factors(0.0, 1.0).items, 18.0);
}

#[test]
fn weights_divide_by_the_diagonal() {
    let inverse = Matrix {
        nrows: 2,
        ncols: 2,
        data: vec![2.0, 1.0, 3.0, 4.0],
    };
    let weights = weights_from_inverse(&inverse, -1.0, 0.0, 1e-12);
    assert_eq!(weights.data, vec![0.0, -0.5, -0.75, 0.0]);
    let flat = Matrix {
        nrows: 2,
        ncols: 2,
        data: vec![0.0, 1.0, 3.0, 4.0],
    };
    assert_eq!(
        weights_from_inverse(&flat, -1.0, 0.0, 1e-12).data,
        vec![0.0, 0.0, -0.75, 0.0]
    );
}

#[test]
fn singular_systems_are_refused() {
    let mut model = untrained(0.0);
    let err = model
        .finish_training(None, -1.0, 0.0, 1e-12)
        .err()
        .unwrap();
    assert_eq!(
        err.message(),
        "Failed to invert Gram matrix G. It may be singular."
    );
}

#[test]
fn pruning_zeroes_small_weights() {
    let mut s = zeros(2);
    s.set(0, 1, 0.05);
    s.set(1, 0, -0.5);
    let mut model = bare_model(s, 1, 1);
    assert_eq!(model.prune_sparse(0.1, 0.0), 3);
    assert_eq!(model.s_matrix.data, vec![0.0, -0.5, 0.0, 0.0]);
    assert_eq!(model.prune_sparse(0.0, 0.0), 0);
}

#[test]
fn recommendations_carry_names() {
    let mut s = zeros(3);
    s.set(0, 1, 0.5);
    s.set(1, 0, 0.5);
    s.set(0, 2, 0.75);
    s.set(2, 0, 0.75);
    let mut model = bare_model(s, 3, 0);
    model.mappings.idx_to_item = vec!["a".to_string(), "b".to_string(), "c".to_string()];
    model.mappings.item_to_idx = (0..3)
        .map(|i| (model.mappings.idx_to_item[i].clone(), i))
        .collect::<AHashMap<String, usize>>();
    let named = model.recommend(&[("a".to_string(), 1.0)], &[], 5, 0.0);
    assert_eq!(named, vec![("c".to_string(), 0.75), ("b".to_string(), 0.5)]);
    assert_eq!(
        model.recommend_similar("a", 1),
        vec![("c".to_string(), 0.75)]
    );
    assert!(model.recommend_similar("nope", 1).is_empty());
}

fn options(decay_rate: f64, ips_alpha: f64, sparsity_threshold: f64) -> TrainOptions<f64> {
    TrainOptions {
        decay_rate,
        ips_alpha,
        sparsity_threshold,
        event_weights: None,
    }
}

#[test]
fn training_options_are_checked() {
    for (given, expected, text) in [
        (
            options(-1.0, 0.0, 0.0),
            OptionError::DecayRate,
            "decay_rate must be >= 0.0",
        ),
        (
            options(0.0, -1.0, 0.0),
            OptionError::IpsAlpha,
            "ips_alpha must be >= 0.0",
        ),
        (
            options(0.0, 0.0, -1.0),
            OptionError::SparsityThreshold,
            "sparsity_threshold must be >= 0.0",
        ),
    ] {
        let err = weighting_of(given, 0.0).err().unwrap();
        assert_eq!(err, expected);
        assert_eq!(err.message(), text);
    }
    assert!(weighting_of(options(0.0, 0.0, 0.0), 0.0).ok().unwrap().is_none());
    let config = weighting_of(options(0.5, 0.0, 0.0), 0.0).ok().unwrap().unwrap();
    assert_eq!(config.decay_rate, 0.5);
    let mut weighted = options(0.0, 0.0, 0.0);
    weighted.event_weights = Some(vec![("click".to_string(), 2.0)]);
    assert!(weighting_of(weighted, 0.0).ok().unwrap().is_some());
}

#[test]
fn completion_prunes_and_records() {
    let mut s = zeros(2);
    s.set(0, 1, 0.05);
    s.set(1, 0, 0.5);
    let config = WeightingConfig::neutral(0.0);
    let done = complete(bare_model(s.clone(), 1, 1), Some(config), 0.1, 0.0);
    assert!(done.weighting_config.is_some());
    assert_eq!(done.s_matrix.data, vec![0.0, 0.5, 0.0, 0.0]);
    let kept = complete(bare_model(s, 1, 1), None, 0.0, 0.0);
    assert_eq!(kept.s_matrix.data, vec![0.0, 0.5, 0.05, 0.0]);
}

#[test]
fn failed_reports_are_refused() {
    let report = ValidationReport {
        passed: false,
        messages: vec!["one".to_string(), "two".to_string()],
    };
    assert_eq!(
        accept(&report, "Validation failed:").err().unwrap(),
        "Validation failed:\none\ntwo"
    );
    let fine = ValidationReport {
        passed: true,
        messages: vec![],
    };
    assert!(accept(&fine, "unused").is_ok());
}

#[test]
fn missing_axes_have_one_value() {
    assert_eq!(axis(None, 1.5), vec![1.5]);
    assert_eq!(axis(Some(vec![1.0, 2.0]), 1.5), vec![1.0, 2.0]);
}

#[test]
fn moments_are_exact() {
    assert_eq!(mean(&[1.0, 2.0, 6.0], 0.0, 3.0), 3.0);
    assert_eq!(variance(&[1.0, 2.0, 6.0], 3.0, 0.0, 2.0), 7.0);
}

#[test]
fn numbers_have_their_digits() {
    assert_eq!(decimal(0), "0");
    assert_eq!(decimal(1205), "1205");
    assert_eq!(decimal(u64::MAX), "18446744073709551615");
    assert_eq!(join(&["a", "", "bc"]), "abc");
}

/// The transpose of `a` times `b`.
fn integer_product(a: &[Vec<i64>], b: &[Vec<i64>]) -> Matrix<i64> {
    let (nrows, ncols) = (a[0].len(), b[0].len());
    let mut product = Matrix::filled_with(nrows, ncols, 0i64);
    for r in 0..nrows {
        for c in 0..ncols {
            product.set(r, c, a.iter().zip(b).map(|(p, q)| p[r] * q[c]).sum());
        }
    }
    product
}

#[test]
fn system_is_the_weighted_gram_matrix() {
    let x = vec![vec![1, 2], vec![0, 3], vec![4, 1]];
    let u = vec![vec![1], vec![2], vec![-1]];
    let t = vec![vec![5, 1], vec![2, 2]];
    let (alpha, beta, weight, ridge) = (3, 2, 7, 100);
    let products = GramProducts {
        xtx: integer_product(&x, &x),
        ttt: integer_product(&t, &t),
        xtu: integer_product(&x, &u),
        utx: integer_product(&u, &x),
        utu: integer_product(&u, &u),
    };
    let factors = BlockFactors {
        items: weight * alpha * alpha,
        mixed: beta,
        features: beta * beta,
        ridge,
    };
    let system = assemble_system(&products, &factors, 2, 1);
    let mut z: Vec<(i64, Vec<i64>)> = Vec::new();
    for (row, features) in x.iter().zip(&u) {
        z.push((1, vec![row[0], row[1], beta * features[0]]));
    }
    for row in &t {
        z.push((weight, vec![alpha * row[0], alpha * row[1], 0]));
    }
    for r in 0..3 {
        for c in 0..3 {
            let gram: i64 = z.iter().map(|(w, row)| row[r] * w * row[c]).sum();
            let expected = gram + if r == c { ridge } else { 0 };
            assert_eq!(system.get(r, c), expected);
        }
    }
}

#[test]
fn similar_items_are_scored_for_one_unit() {
    let mut s = zeros(5);
    for r in 0..5 {
        for c in 0..5 {
            if r != c {
                s.set(r, c, (r as f64 * 7.0 + c as f64 * 3.0) % 5.0 - 1.5);
            }
        }
    }
    let model = bare_model(s, 4, 1);
    for item in 0..4 {
        let scores = model.predict(&[(item, 1.0)], &[], 0.7, 0.0);
        let mut wanted: Vec<(usize, f64)> = (0..4)
            .filter(|&i| i != item)
            .map(|i| (i, scores[i]))
            .collect();
        wanted.sort_by(|a, b| b.1.partial_cmp(&a.1).unwrap());
        assert_eq!(model.predict_similar_items(item, 10), wanted);
        wanted.truncate(2);
        assert_eq!(model.predict_similar_items(item, 2), wanted);
    }
}
