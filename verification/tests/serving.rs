//! Serving: the registry of models, batches and top-k lists.

use kzn_recsys::data::triples::{FeatureTable, Triple, TripleData, COLD_START_USER_ID};
use kzn_recsys::data_pipeline::Mappings;
use kzn_recsys::ids::collect_entries;
use kzn_recsys::matrix::Matrix;
use kzn_recsys::model::{RustFeaseModel, ValidationReport};
use kzn_recsys::models::two_tower::features::{
    build_mappings, fit_dense, mappings_from_names, rank_similar, resolve_user_features, user_row,
    validate, NamedFeature,
};
use kzn_recsys::models::{
    sparse_input, tower_input, ModelError, ModelInput, ModelKind, RecModel,
};
use kzn_recsys::models::two_tower::batches::{
    drop_ids, false_negatives, flatten_dense, item_frequencies, make_batches, pad_cat,
};
use kzn_recsys::models::two_tower::meta::describe;
use kzn_recsys::serving::{
    filter_sort_top_k, idx_scores_to_str, predict_batch, predict_batch_top_k, predict_user,
    predict_user_top_k, rank_history, rank_sparse, rank_tower_user, resolve_names, resolve_pairs,
    ModelRegistry, ServingError, UserInput,
};
use kzn_recsys::top_k::{index_set, select_top_k};

fn dummy_mappings() -> Mappings {
    Mappings {
        user_to_idx: Default::default(),
        idx_to_user: Default::default(),
        item_to_idx: Default::default(),
        idx_to_item: Default::default(),
        user_feature_to_idx: Default::default(),
        idx_to_user_feature: Default::default(),
        item_feature_to_idx: Default::default(),
        idx_to_item_feature: Default::default(),
    }
}

fn named_mappings(names: &[&str]) -> Mappings {
    let mut mappings = dummy_mappings();
    for (i, id) in names.iter().enumerate() {
        mappings.idx_to_item.push(id.to_string());
        mappings.item_to_idx.insert(id.to_string(), i);
    }
    mappings
}

fn make_test_model(scale: f64) -> RustFeaseModel<f64> {
    let n_items = 4;
    let n_user_features = 2;
    let total_dim = n_items + n_user_features;

    let mut s = Matrix::filled_with(total_dim, total_dim, 0.0);
    s.set(0, 1, 0.5 * scale);
    s.set(1, 0, 0.5 * scale);
    s.set(0, 2, 0.3 * scale);
    s.set(2, 0, 0.3 * scale);

    RustFeaseModel {
        s_matrix: s,
        num_items: n_items,
        num_user_features: n_user_features,
        num_item_features: 0,
        alpha: 1.0,
        beta: 1.0,
        lambda_: 100.0,
        meta_weight: 0.0,
        mappings: dummy_mappings(),
        weighting_config: None,
        transformation_schema: None,
    }
}

struct EaseAdapter {
    inner: RustFeaseModel<f64>,
}

impl EaseAdapter {
    fn new(inner: RustFeaseModel<f64>) -> Self {
        Self { inner }
    }
}

impl RecModel<f64, f32> for EaseAdapter {
    fn kind(&self) -> ModelKind {
        ModelKind::Ease
    }

    fn num_items(&self) -> usize {
        self.inner.num_items
    }

    fn item_mapping(&self) -> &Mappings {
        &self.inner.mappings
    }

    fn predict_scores(&self, input: ModelInput<f64, f32>) -> Result<Vec<f32>, ModelError> {
        let taken = sparse_input(input)?;
        let scores =
            self.inner
                .predict(taken.interactions, taken.user_features, self.inner.beta, 0.0);
        Ok(scores.into_iter().map(|s| s as f32).collect())
    }

    fn predict_similar_items(
        &self,
        item_idx: usize,
        top_k: usize,
    ) -> Result<Vec<(usize, f32)>, ModelError> {
        let similar = self.inner.predict_similar_items(item_idx, top_k);
        Ok(similar.into_iter().map(|(i, s)| (i, s as f32)).collect())
    }

    fn validate(&self) -> ValidationReport {
        ValidationReport {
            passed: true,
            messages: vec![],
        }
    }
}

fn register(registry: &mut ModelRegistry<EaseAdapter>, territory: &str, model: RustFeaseModel<f64>) {
    registry.register_model(territory.to_string(), EaseAdapter::new(model));
}

fn predict(
    registry: &ModelRegistry<EaseAdapter>,
    territory: &str,
    interactions: &[(usize, f64)],
) -> Result<Vec<f32>, ServingError> {
    registry.predict(territory, interactions, &[])
}

#[test]
fn test_registry_basic() {
    let mut registry = ModelRegistry::new();
    assert!(registry.is_empty());

    register(&mut registry, "US", make_test_model(1.0));
    register(&mut registry, "BR", make_test_model(2.0));

    assert_eq!(registry.len(), 2);
    assert!(registry.get_model("US").is_some());
    assert!(registry.get_model("BR").is_some());
    assert!(registry.get_model("JP").is_none());
    let mut territories = registry.territories();
    territories.sort();
    assert_eq!(territories, vec!["BR".to_string(), "US".to_string()]);
}

#[test]
fn test_registry_fallback() {
    let mut registry = ModelRegistry::with_fallback("US".to_string());
    register(&mut registry, "US", make_test_model(1.0));
    register(&mut registry, "BR", make_test_model(2.0));

    let model = registry.get_model("JP").unwrap();
    assert_eq!(model.num_items(), 4);
}

#[test]
fn test_registry_predict() {
    let mut registry = ModelRegistry::new();
    register(&mut registry, "US", make_test_model(1.0));

    let scores = predict(&registry, "US", &[(0, 1.0)])
        .ok()
        .expect("Prediction should work");
    assert_eq!(scores.len(), 4);

    let result = predict(&registry, "JP", &[(0, 1.0)]);
    assert!(result.is_err());
}

#[test]
fn test_registry_territory_isolation() {
    let mut registry = ModelRegistry::new();
    register(&mut registry, "US", make_test_model(1.0));
    register(&mut registry, "BR", make_test_model(2.0));

    let scores_us = predict(&registry, "US", &[(0, 1.0)]).ok().unwrap();
    let scores_br = predict(&registry, "BR", &[(0, 1.0)]).ok().unwrap();

    let us_sum: f32 = scores_us.iter().sum();
    let br_sum: f32 = scores_br.iter().sum();
    assert!(
        (br_sum - 2.0 * us_sum).abs() < 1e-5,
        "BR scores should be 2x US scores"
    );
    assert!(us_sum > 0.0);
}

#[test]
fn test_batch_predict() {
    let adapter = EaseAdapter::new(make_test_model(1.0));
    let users = vec![
        UserInput {
            interactions: vec![(0, 1.0)],
            features: vec![],
        },
        UserInput {
            interactions: vec![(1, 1.0)],
            features: vec![],
        },
        UserInput {
            interactions: vec![],
            features: vec![(0, 1.0)],
        },
    ];

    let results = predict_batch(&adapter, &users).ok().unwrap();
    assert_eq!(results.len(), 3);
    assert_eq!(results[0].len(), 4);
    assert_eq!(results[1].len(), 4);
    assert_eq!(results[2].len(), 4);
}

#[test]
fn test_batch_matches_sequential() {
    let users = vec![
        UserInput {
            interactions: vec![(0, 1.0)],
            features: vec![(1, 0.5)],
        },
        UserInput {
            interactions: vec![(1, 1.0), (2, 0.5)],
            features: vec![],
        },
    ];

    let adapter = EaseAdapter::new(make_test_model(1.0));
    let batch_results = predict_batch(&adapter, &users).ok().unwrap();

    let model = make_test_model(1.0);
    for (i, user) in users.iter().enumerate() {
        let sequential = model.predict(&user.interactions, &user.features, model.beta, 0.0);
        assert_eq!(batch_results[i].len(), sequential.len());
        for (a, b) in batch_results[i].iter().zip(sequential.iter()) {
            assert!(
                ((*a as f64) - b).abs() < 1e-6,
                "Batch vs sequential mismatch for user {}: {} vs {}",
                i,
                a,
                b
            );
        }
        assert_eq!(predict_user(&adapter, user).ok().unwrap(), batch_results[i]);
    }
}

#[test]
fn test_batch_top_k() {
    let adapter = EaseAdapter::new(make_test_model(1.0));
    let users = vec![UserInput {
        interactions: vec![(0, 1.0)],
        features: vec![],
    }];

    let results = predict_batch_top_k(&adapter, &users, 2).ok().unwrap();
    assert_eq!(results.len(), 1);
    assert!(results[0].len() <= 2);

    for (idx, _) in &results[0] {
        assert_ne!(*idx, 0, "Should not recommend interacted item");
    }
    if results[0].len() >= 2 {
        assert!(results[0][0].1 >= results[0][1].1);
    }
    assert_eq!(
        predict_user_top_k(&adapter, &users[0], 2).ok().unwrap(),
        results[0]
    );
}

#[test]
fn test_batch_empty() {
    let adapter = EaseAdapter::new(make_test_model(1.0));
    let results = predict_batch(&adapter, &[]).ok().unwrap();
    assert!(results.is_empty());
}

#[test]
fn test_registry_unregister() {
    let mut registry = ModelRegistry::new();
    register(&mut registry, "US", make_test_model(1.0));
    assert_eq!(registry.len(), 1);

    let removed = registry.unregister("US");
    assert!(removed.is_some());
    assert!(registry.is_empty());
}

#[test]
fn test_predict_top_k_ease_string_ids_route_through_mappings() {
    let mut model = make_test_model(1.0);
    model.mappings = named_mappings(&["a", "b", "c", "d"]);

    let mut registry = ModelRegistry::new();
    register(&mut registry, "US", model);

    let interactions = vec![("a".to_string(), 1.0)];
    let ranked: Vec<(String, f32)> = registry
        .predict_top_k_ease("US", &interactions, &[], 3)
        .ok()
        .expect("predict_top_k_ease should succeed");
    assert!(!ranked.is_empty());
    for (item_id, _) in &ranked {
        assert!(["a", "b", "c", "d"].contains(&item_id.as_str()));
        assert_ne!(item_id, "a");
    }
}

#[test]
fn test_predict_top_k_sasrec_rejects_ease_territory() {
    let mut registry = ModelRegistry::new();
    register(&mut registry, "US", make_test_model(1.0));
    let err = registry
        .predict_top_k_sasrec::<f64, f32>("US", &["a".to_string()], 3)
        .err()
        .expect("should reject mismatched model kind");
    let msg = err.message();
    assert!(msg.contains("predict_top_k_sasrec"));
    assert!(msg.contains("predict_top_k_ease"));
}

#[test]
fn test_predict_top_k_two_tower_rejects_ease_territory() {
    let mut registry = ModelRegistry::new();
    register(&mut registry, "US", make_test_model(1.0));
    let features: Vec<(String, f64)> = vec![];
    let err = registry
        .predict_top_k_two_tower::<f64, f32>("US", "user0", &features, 3)
        .err()
        .expect("should reject mismatched model kind");
    let msg = err.message();
    assert!(msg.contains("predict_top_k_two_tower"));
    assert!(msg.contains("predict_top_k_ease"));
}

#[test]
fn test_filter_sort_top_k() {
    let scores: Vec<f64> = vec![0.1, 0.9, 0.5, 0.3];
    let interacted = vec![0];
    let result = filter_sort_top_k(scores, &interacted, 2);

    assert_eq!(result.len(), 2);
    for (idx, _) in &result {
        assert_ne!(*idx, 0);
    }
    assert_eq!(result[0].0, 1);
    assert!((result[0].1 - 0.9).abs() < 1e-12);
    assert_eq!(result[1].0, 2);
    assert!((result[1].1 - 0.5).abs() < 1e-12);
}

#[test]
fn test_filter_sort_top_k_empty_interacted() {
    let scores: Vec<f64> = vec![0.3, 0.1, 0.9];
    let interacted: Vec<usize> = vec![];
    let result = filter_sort_top_k(scores, &interacted, 2);

    assert_eq!(result.len(), 2);
    assert_eq!(result[0].0, 2);
    assert_eq!(result[1].0, 0);
}

#[test]
fn test_filter_sort_top_k_breaks_ties_by_index() {
    let scores: Vec<f64> = vec![0.1, 0.5, 0.9, 0.5, 0.5];
    let result = filter_sort_top_k(scores, &[], 3);

    assert_eq!(result.len(), 3);
    assert_eq!(result[0].0, 2);
    assert_eq!(result[1].0, 1);
    assert_eq!(result[2].0, 3);
}

#[test]
fn test_filter_sort_top_k_k_exceeds_len() {
    let scores: Vec<f64> = vec![0.3, 0.9, 0.1];
    let result = filter_sort_top_k(scores, &[], 10);

    assert_eq!(result.len(), 3);
    assert_eq!(result[0].0, 1);
    assert_eq!(result[1].0, 0);
    assert_eq!(result[2].0, 2);
}

#[test]
fn test_filter_sort_top_k_zero_k() {
    let scores: Vec<f64> = vec![0.3, 0.9, 0.1];
    let result = filter_sort_top_k(scores, &[], 0);
    assert!(result.is_empty());
}

fn tiny_warm_model() -> RustFeaseModel<f64> {
    let n_items = 4;
    let n_user_features = 2;
    let total_dim = n_items + n_user_features;

    let mut s_mat = Matrix::filled_with(total_dim, total_dim, 0.0);
    s_mat.set(0, 1, 0.5);
    s_mat.set(1, 0, 0.5);
    s_mat.set(4, 5, 0.8);
    s_mat.set(5, 4, 0.8);
    s_mat.set(2, 4, 1.0);
    s_mat.set(4, 2, 1.0);
    let mut model = make_test_model(1.0);
    model.s_matrix = s_mat;
    model
}

#[test]
fn adapter_predict_scores_matches_concrete() {
    let model = tiny_warm_model();
    let interactions = vec![(0_usize, 1.0_f64)];
    let user_features = vec![(1_usize, 1.0_f64)];
    let baseline = model.predict(&interactions, &user_features, model.beta, 0.0);

    let adapter = EaseAdapter::new(model);
    let via_trait = adapter
        .predict_scores(ModelInput::Sparse {
            interactions: &interactions,
            user_features: &user_features,
        })
        .ok()
        .expect("Sparse input must be supported by EASE");

    assert_eq!(via_trait.len(), baseline.len());
    for (i, (a, b)) in via_trait.iter().zip(baseline.iter()).enumerate() {
        assert!(
            ((*a as f64) - *b).abs() < 1e-6,
            "score mismatch at item {i}: adapter={a} baseline={b}",
        );
    }
}

#[test]
fn adapter_rejects_unsupported_input() {
    let adapter = EaseAdapter::new(tiny_warm_model());
    let history: [usize; 0] = [];
    let result = adapter.predict_scores(ModelInput::Sequence { history: &history });
    assert!(result.is_err(), "EASE must reject Sequence input");
    assert_eq!(
        result.err().unwrap().message,
        "EASE does not support ModelInput::Sequence; expected ModelInput::Sparse"
    );
}

#[test]
fn adapter_similar_items_roundtrip() {
    let model = tiny_warm_model();
    let baseline = model.predict_similar_items(0, 5);

    let adapter = EaseAdapter::new(model);
    let via_trait = adapter
        .predict_similar_items(0, 5)
        .ok()
        .expect("similar items query must succeed");

    assert_eq!(via_trait.len(), baseline.len());
    for ((idx_a, score_a), (idx_b, score_b)) in via_trait.iter().zip(baseline.iter()) {
        assert_eq!(*idx_a, *idx_b, "item index order must match");
        assert!(
            ((*score_a as f64) - *score_b).abs() < 1e-6,
            "similarity mismatch: adapter={score_a} baseline={score_b}",
        );
    }
}

/// A tower model over fixed embeddings: one vector per user row and per item.
struct Towers {
    users: Vec<Vec<f32>>,
    items: Vec<Vec<f32>>,
    features: FeatureTable<f32>,
    mappings: Mappings,
}

fn dot(a: &[f32], b: &[f32]) -> f32 {
    a.iter().zip(b.iter()).map(|(x, y)| x * y).sum()
}

impl RecModel<f64, f32> for Towers {
    fn kind(&self) -> ModelKind {
        ModelKind::TwoTower
    }

    fn num_items(&self) -> usize {
        self.items.len()
    }

    fn item_mapping(&self) -> &Mappings {
        &self.mappings
    }

    fn predict_scores(&self, input: ModelInput<f64, f32>) -> Result<Vec<f32>, ModelError> {
        let taken = tower_input(input)?;
        let user = &self.users[user_row(taken.user_idx)];
        Ok(self.items.iter().map(|item| dot(user, item)).collect())
    }

    fn predict_similar_items(
        &self,
        item_idx: usize,
        top_k: usize,
    ) -> Result<Vec<(usize, f32)>, ModelError> {
        let scores = match self.items.get(item_idx) {
            Some(query) => self.items.iter().map(|item| dot(query, item)).collect(),
            None => vec![],
        };
        rank_similar(scores, item_idx, self.items.len(), top_k)
    }

    fn validate(&self) -> ValidationReport {
        validate(self.items.len(), self.mappings.idx_to_item.len())
    }

    fn resolve_user_features(&self, features: &[(String, f64)]) -> (Vec<usize>, Vec<f32>) {
        let named: Vec<NamedFeature<f32>> = features
            .iter()
            .map(|(name, value)| NamedFeature {
                name: name.clone(),
                value: *value as f32,
                is_zero: *value == 0.0,
            })
            .collect();
        let resolved = resolve_user_features(
            &named,
            &self.features.cat_feature_to_idx,
            &self.features.dense_feature_to_idx,
            self.features.dense_dim,
            0.0,
        );
        (resolved.cat, resolved.dense)
    }
}

fn tiny_data() -> TripleData {
    let triples = [(1, 0), (1, 0), (2, 1), (2, 1), (3, 2), (3, 2)]
        .iter()
        .map(|&(user_idx, item_idx)| Triple { user_idx, item_idx })
        .collect();
    let mut user_to_idx = ahash::AHashMap::new();
    let mut item_to_idx = ahash::AHashMap::new();
    for i in 0..3 {
        user_to_idx.insert(format!("u{i}"), i + 1);
        item_to_idx.insert(format!("i{i}"), i);
    }
    TripleData {
        triples,
        user_to_idx,
        idx_to_user: vec![
            COLD_START_USER_ID.into(),
            "u0".into(),
            "u1".into(),
            "u2".into(),
        ],
        item_to_idx,
        idx_to_item: vec!["i0".into(), "i1".into(), "i2".into()],
    }
}

fn towers() -> Towers {
    let mut features = FeatureTable::empty(4);
    features.num_categories = 1;
    features.dense_dim = 1;
    features.cat_feature_to_idx.insert("plan_free".into(), 0);
    features
        .dense_feature_to_idx
        .insert("tenure_days".into(), 0);
    Towers {
        users: vec![
            vec![0.5, 0.5],
            vec![1.0, 0.0],
            vec![0.0, 1.0],
            vec![0.7, 0.7],
        ],
        items: vec![vec![1.0, 0.0], vec![0.0, 1.0], vec![0.9, 0.2]],
        features,
        mappings: build_mappings(tiny_data()),
    }
}

#[test]
fn rejects_unsupported_input() {
    let model = towers();
    let r = model.predict_scores(ModelInput::Sequence { history: &[] });
    assert!(r.is_err(), "Two-Tower must reject Sequence input");
    assert_eq!(
        r.err().unwrap().message,
        "Two-Tower does not support ModelInput::Sequence; expected ModelInput::TowerUser"
    );
}

#[test]
fn similar_items_excludes_query_and_respects_k() {
    let model = towers();
    let sim = model.predict_similar_items(0, 2).ok().expect("similar");
    assert!(sim.len() <= 2);
    assert!(sim.iter().all(|(i, _)| *i != 0));
    assert_eq!(sim[0].0, 2);
    let err = model.predict_similar_items(7, 2).err().unwrap();
    assert_eq!(err.message, "item_idx 7 out of range (num_items = 3)");
}

#[test]
fn resolve_user_features_routes_cat_dense_and_skips_unknown() {
    let trained = towers();
    let resolve = |name: &str, value: f64| {
        RecModel::resolve_user_features(&trained, &[(name.to_string(), value)])
    };
    let (cat, dense) = resolve("plan_free", 1.0);
    assert_eq!(cat, vec![0]);
    assert_eq!(dense, vec![0.0]);

    let (cat, _dense) = resolve("plan_free", 0.0);
    assert!(cat.is_empty(), "zero-valued cat should be skipped");

    let (cat, dense) = resolve("tenure_days", 42.0);
    assert!(cat.is_empty());
    assert_eq!(dense, vec![42.0]);

    let (cat, dense) = resolve("never_seen", 99.0);
    assert!(cat.is_empty());
    assert_eq!(dense, vec![0.0]);
}

#[test]
fn unknown_users_get_the_reserved_row() {
    let mut registry = ModelRegistry::new();
    registry.register_model("US".to_string(), towers());
    let none: Vec<(String, f64)> = vec![];
    let warm: Vec<(String, f32)> = registry
        .predict_top_k_two_tower("US", "u1", &none, 1)
        .ok()
        .unwrap();
    assert_eq!(warm, vec![("i1".to_string(), 1.0)]);
    let cold: Vec<(String, f32)> = registry
        .predict_top_k_two_tower("US", "stranger", &none, 1)
        .ok()
        .unwrap();
    assert_eq!(cold[0].0, "i2");
    assert_eq!(user_row(None), 0);
    assert_eq!(user_row(Some(3)), 3);
    let again: Vec<(String, f32)> = rank_tower_user(&towers(), "stranger", &none, 1).ok().unwrap();
    assert_eq!(again, cold);
}

#[test]
fn loaded_numbering_is_the_trained_numbering() {
    let trained = build_mappings(tiny_data());
    let loaded = mappings_from_names(trained.idx_to_user.clone(), trained.idx_to_item.clone());
    assert_eq!(loaded.item_to_idx, trained.item_to_idx);
    assert_eq!(loaded.user_to_idx, trained.user_to_idx);
    assert!(!loaded.user_to_idx.contains_key(COLD_START_USER_ID));
}

#[test]
fn descriptions_keep_what_was_trained() {
    let data = tiny_data();
    let towers = towers();
    let mut items: FeatureTable<f32> = FeatureTable::empty(3);
    items.cat[2] = vec![4, 5];
    items.dense[1] = vec![0.5];
    items.dense_dim = 1;
    items.num_categories = 6;
    let meta = describe(&data, &towers.features, &items, 16, 0.05);
    assert_eq!((meta.num_users, meta.num_items), (4, 3));
    assert_eq!((meta.num_user_categories, meta.num_item_categories), (1, 6));
    assert_eq!((meta.user_dense_dim, meta.item_dense_dim), (1, 1));
    assert_eq!((meta.embedding_dim, meta.temperature), (16, 0.05));
    assert_eq!(meta.idx_to_user, data.idx_to_user);
    assert_eq!(meta.idx_to_item, data.idx_to_item);
    assert_eq!(meta.item_cat, items.cat);
    assert_eq!(meta.item_dense, items.dense);
    assert_eq!(
        collect_entries(&meta.user_cat_feature_to_idx),
        towers.features.cat_feature_to_idx
    );
    assert_eq!(
        collect_entries(&meta.user_dense_feature_to_idx),
        towers.features.dense_feature_to_idx
    );
}

#[test]
fn tower_reports_are_exact() {
    assert!(validate(3, 3).passed);
    let empty = validate(0, 0);
    assert!(!empty.passed);
    assert_eq!(
        empty.messages,
        vec!["Two-Tower model has zero items".to_string()]
    );
    let uneven = validate(2, 3);
    assert!(!uneven.passed);
    assert_eq!(
        uneven.messages,
        vec!["catalog matrix rows 2 != num_items 3".to_string()]
    );
}

#[test]
fn dense_vectors_are_fitted() {
    assert_eq!(fit_dense(&[1.0, 2.0], 3, 0.0), vec![1.0, 2.0, 0.0]);
    assert_eq!(fit_dense(&[1.0, 2.0], 1, 0.0), vec![1.0]);
}

#[test]
fn batches_cover_the_examples() {
    let data = tiny_data();
    let mut users: FeatureTable<f32> = FeatureTable::empty(4);
    users.dense_dim = 1;
    for (i, row) in users.dense.iter_mut().enumerate() {
        *row = vec![i as f32];
    }
    users.cat[3] = vec![7, 8];
    let items = FeatureTable::empty(3);
    let batches = make_batches(&data.triples, &users, &items, 4, 0.0);
    assert_eq!(batches.len(), 2);
    assert_eq!(batches[0].user_idx, vec![1, 1, 2, 2]);
    assert_eq!(batches[0].item_idx, vec![0, 0, 1, 1]);
    assert_eq!(batches[1].user_idx, vec![3, 3]);
    assert_eq!(batches[1].user_dense, vec![3.0, 3.0]);
    assert_eq!(batches[1].user_cat.width, 2);
    assert_eq!(batches[1].user_cat.ids, vec![7, 8, 7, 8]);
}

#[test]
fn category_lists_are_padded() {
    let padded = pad_cat(&[vec![4], vec![], vec![5, 6]]);
    assert_eq!(padded.width, 2);
    assert_eq!(padded.ids, vec![4, 0, 0, 0, 5, 6]);
    assert_eq!(padded.mask, vec![true, false, false, false, true, true]);
    assert_eq!(
        flatten_dense(&[vec![1.0], vec![]], 2, 0.0),
        vec![1.0, 0.0, 0.0, 0.0]
    );
}

#[test]
fn repeated_items_are_false_negatives() {
    let items = [5, 6, 5];
    let mask = false_negatives(&items);
    let expected = vec![
        false, false, true, false, false, false, true, false, false,
    ];
    assert_eq!(mask, expected);
    assert_eq!(item_frequencies(&items), vec![2, 1, 2]);
    assert_eq!(drop_ids(&[3, 4], &[true, false]), vec![0, 4]);
}

/// A sequence model that scores every item by its distance from the last one.
struct Nearest {
    mappings: Mappings,
}

impl RecModel<f64, f64> for Nearest {
    fn kind(&self) -> ModelKind {
        ModelKind::SasRec
    }

    fn num_items(&self) -> usize {
        self.mappings.idx_to_item.len()
    }

    fn item_mapping(&self) -> &Mappings {
        &self.mappings
    }

    fn predict_scores(&self, input: ModelInput<f64, f64>) -> Result<Vec<f64>, ModelError> {
        match input {
            ModelInput::Sequence { history } => {
                let last = history.last().copied().unwrap_or(0) as f64;
                Ok((0..self.num_items())
                    .map(|i| -(i as f64 - last).abs())
                    .collect())
            }
            _ => Err(ModelError {
                message: "sequences only".to_string(),
            }),
        }
    }

    fn predict_similar_items(
        &self,
        _item_idx: usize,
        _top_k: usize,
    ) -> Result<Vec<(usize, f64)>, ModelError> {
        Err(ModelError {
            message: "no similar items".to_string(),
        })
    }

    fn validate(&self) -> ValidationReport {
        ValidationReport {
            passed: true,
            messages: vec![],
        }
    }
}

#[test]
fn histories_are_ranked_in_their_order() {
    let model = Nearest {
        mappings: named_mappings(&["a", "b", "c", "d"]),
    };
    let history = vec!["c".to_string(), "nope".to_string(), "b".to_string()];
    let ranked: Vec<(String, f64)> = rank_history(&model, &history, 2).ok().unwrap();
    assert_eq!(ranked, vec![("a".to_string(), -1.0), ("d".to_string(), -2.0)]);
    let refused: Result<Vec<(String, f64)>, ServingError> =
        rank_sparse(&model, &[("a".to_string(), 1.0)], &[], 2);
    assert_eq!(refused.err().unwrap().message(), "sequences only");
    let mut registry = ModelRegistry::new();
    registry.register_model("US".to_string(), model);
    let err: ServingError = registry
        .predict_similar_items::<f64, f64>("US", 0, 1)
        .err()
        .unwrap();
    assert!(matches!(err, ServingError::Model(_)));
    assert_eq!(err.message(), "no similar items");
    let err = registry
        .predict_top_k_ease::<f64, f64>("US", &[], &[], 1)
        .err()
        .unwrap();
    assert!(matches!(err, ServingError::WrongKind { .. }));
    assert_eq!(
        err.message(),
        "predict_top_k_ease called on territory 'US', but the registered model is SasRec. Use predict_top_k_sasrec instead."
    );
    let err = registry
        .predict_top_k_sasrec::<f64, f64>("BR", &[], 1)
        .err()
        .unwrap();
    assert!(matches!(err, ServingError::UnknownTerritory { .. }));
    assert_eq!(
        err.message(),
        "No model registered for territory 'BR' (and no fallback available)"
    );
}

#[test]
fn registering_again_replaces_the_model() {
    let mut registry = ModelRegistry::with_fallback("US".to_string());
    register(&mut registry, "US", make_test_model(1.0));
    register(&mut registry, "BR", make_test_model(2.0));
    register(&mut registry, "US", make_test_model(4.0));
    assert_eq!(registry.len(), 2);
    let us = predict(&registry, "US", &[(0, 1.0)]).ok().unwrap();
    let br = predict(&registry, "BR", &[(0, 1.0)]).ok().unwrap();
    let unknown = predict(&registry, "JP", &[(0, 1.0)]).ok().unwrap();
    assert_eq!(us[1], 2.0);
    assert_eq!(br[1], 1.0);
    assert_eq!(unknown, us);
    let top: Vec<(usize, f32)> = registry
        .predict_top_k::<f64, f32>("BR", &[(0, 1.0)], &[], 1)
        .ok()
        .unwrap();
    assert_eq!(top, vec![(1, 1.0)]);
    registry.unregister("BR");
    let gone = predict(&registry, "BR", &[(0, 1.0)]).ok().unwrap();
    assert_eq!(gone, us);
    assert!(registry.unregister("BR").is_none());
}

#[test]
fn names_are_resolved_in_order() {
    let mappings = named_mappings(&["a", "b", "c"]);
    let pairs = vec![("c".to_string(), 0.5), ("x".to_string(), 1.0)];
    assert_eq!(resolve_pairs(&mappings.item_to_idx, &pairs), vec![(2, 0.5)]);
    let names = vec!["b".to_string(), "x".to_string(), "a".to_string()];
    assert_eq!(resolve_names(&mappings.item_to_idx, &names), vec![1, 0]);
    assert_eq!(
        idx_scores_to_str(&[(1, 0.5), (9, 0.25)], &mappings),
        vec![("b".to_string(), 0.5)]
    );
}

#[test]
fn top_k_leaves_out_the_excluded() {
    let excluded = index_set(&[1, 3]);
    let ranked = select_top_k(&[0.5, 0.9, 0.7, 0.8], &excluded, 5);
    assert_eq!(ranked, vec![(2, 0.7), (0, 0.5)]);
}
