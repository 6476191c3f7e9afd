//! Stored models: framing, versions and the exported matrix.

use ahash::AHashMap;
use kzn_recsys::data_pipeline::Mappings;
use kzn_recsys::matrix::Matrix;
use kzn_recsys::model::RustFeaseModel;
use kzn_recsys::models::two_tower::frame::{
    frame, read_meta, read_weights, FrameError, FORMAT_VERSION,
};
use kzn_recsys::onnx_export::s_items_row_major_le_bytes;
use kzn_recsys::serialization::{
    add_magic, choose_form, strip_magic, FormatError, HeaderError, SerializedModel, SerializedModelV1,
};
use kzn_recsys::weighting::WeightingConfig;

fn make_test_model() -> RustFeaseModel<f64> {
    let n_items = 3;
    let n_user_features = 2;
    let total_dim = n_items + n_user_features;

    let mut s = Matrix::filled_with(total_dim, total_dim, 0.0);
    s.set(0, 1, 0.5);
    s.set(1, 0, 0.5);
    s.set(0, 2, 0.3);
    s.set(2, 0, 0.3);

    let mut item_to_idx = AHashMap::new();
    item_to_idx.insert("item_a".to_string(), 0);
    item_to_idx.insert("item_b".to_string(), 1);
    item_to_idx.insert("item_c".to_string(), 2);

    let mut user_feature_to_idx = AHashMap::new();
    user_feature_to_idx.insert("feat_x".to_string(), 0);
    user_feature_to_idx.insert("feat_y".to_string(), 1);

    RustFeaseModel {
        s_matrix: s,
        num_items: n_items,
        num_user_features: n_user_features,
        num_item_features: 0,
        alpha: 1.0,
        beta: 0.5,
        lambda_: 100.0,
        meta_weight: 0.0,
        mappings: Mappings {
            user_to_idx: AHashMap::new(),
            idx_to_user: vec![],
            item_to_idx,
            idx_to_item: vec![
                "item_a".to_string(),
                "item_b".to_string(),
                "item_c".to_string(),
            ],
            user_feature_to_idx,
            idx_to_user_feature: vec!["feat_x".to_string(), "feat_y".to_string()],
            item_feature_to_idx: AHashMap::new(),
            idx_to_item_feature: vec![],
        },
        weighting_config: None,
        transformation_schema: None,
    }
}

type Ids = Vec<(String, usize)>;

/// The stored fields in their order in the file.
type Fields = (
    (u32, usize, usize, Vec<f64>),
    (usize, usize, usize, f64, f64, f64, f64),
    (Ids, Vec<String>, Ids, Vec<String>),
    (Ids, Vec<String>, Ids, Vec<String>),
);

/// The weighting configuration as it stands in the file.
type Weighting = Option<(Option<Vec<(String, f64)>>, f64, f64, f64)>;

fn fields(m: &SerializedModel<f64>) -> Fields {
    (
        (m.version, m.s_nrows, m.s_ncols, m.s_data.clone()),
        (
            m.num_items,
            m.num_user_features,
            m.num_item_features,
            m.alpha,
            m.beta,
            m.lambda_,
            m.meta_weight,
        ),
        (
            m.user_to_idx.clone(),
            m.idx_to_user.clone(),
            m.item_to_idx.clone(),
            m.idx_to_item.clone(),
        ),
        (
            m.user_feature_to_idx.clone(),
            m.idx_to_user_feature.clone(),
            m.item_feature_to_idx.clone(),
            m.idx_to_item_feature.clone(),
        ),
    )
}

fn first_version(f: Fields) -> SerializedModelV1<f64> {
    let ((version, s_nrows, s_ncols, s_data), numbers, items, features) = f;
    let (num_items, num_user_features, num_item_features, alpha, beta, lambda_, meta_weight) =
        numbers;
    let (user_to_idx, idx_to_user, item_to_idx, idx_to_item) = items;
    let (user_feature_to_idx, idx_to_user_feature, item_feature_to_idx, idx_to_item_feature) =
        features;
    SerializedModelV1 {
        version,
        s_nrows,
        s_ncols,
        s_data,
        num_items,
        num_user_features,
        num_item_features,
        alpha,
        beta,
        lambda_,
        meta_weight,
        user_to_idx,
        idx_to_user,
        item_to_idx,
        idx_to_item,
        user_feature_to_idx,
        idx_to_user_feature,
        item_feature_to_idx,
        idx_to_item_feature,
    }
}

fn current_version(f: Fields, w: Weighting) -> SerializedModel<f64> {
    let version = f.0 .0;
    let mut stored = first_version(f).into_v2();
    stored.version = version;
    stored.weighting_config = w.map(
        |(event_weights, decay_rate, ips_alpha, sparsity_threshold)| WeightingConfig {
            event_weights,
            decay_rate,
            ips_alpha,
            sparsity_threshold,
        },
    );
    stored
}

fn save_model(model: &RustFeaseModel<f64>) -> Vec<u8> {
    let stored = SerializedModel::from_model(model);
    let weighting: Weighting = stored.weighting_config.as_ref().map(|w| {
        (
            w.event_weights.clone(),
            w.decay_rate,
            w.ips_alpha,
            w.sparsity_threshold,
        )
    });
    add_magic(&bincode::serialize(&(fields(&stored), weighting)).unwrap())
}

fn load_model(data: &[u8]) -> Result<RustFeaseModel<f64>, String> {
    let payload = strip_magic(data).map_err(|e| e.message("model.fease"))?;
    let current = bincode::deserialize::<(Fields, Weighting)>(payload)
        .ok()
        .map(|(f, w)| current_version(f, w));
    let first = bincode::deserialize::<Fields>(payload)
        .ok()
        .map(first_version);
    let stored = choose_form(current, first).map_err(|e| e.message())?;
    stored.into_model().map_err(|e| e.message())
}

#[test]
fn test_save_load_roundtrip() {
    let model = make_test_model();
    let loaded = load_model(&save_model(&model)).expect("Failed to load model");

    assert_eq!(loaded.s_matrix.nrows, model.s_matrix.nrows);
    assert_eq!(loaded.s_matrix.ncols, model.s_matrix.ncols);
    for i in 0..model.s_matrix.nrows {
        for j in 0..model.s_matrix.ncols {
            assert!(
                (loaded.s_matrix.get(i, j) - model.s_matrix.get(i, j)).abs() < 1e-12,
                "S[{},{}] mismatch",
                i,
                j
            );
        }
    }

    assert_eq!(loaded.num_items, model.num_items);
    assert_eq!(loaded.num_user_features, model.num_user_features);
    assert_eq!(loaded.num_item_features, model.num_item_features);
    assert!((loaded.alpha - model.alpha).abs() < 1e-12);
    assert!((loaded.beta - model.beta).abs() < 1e-12);
    assert!((loaded.lambda_ - model.lambda_).abs() < 1e-12);
    assert!((loaded.meta_weight - model.meta_weight).abs() < 1e-12);

    assert_eq!(
        loaded.mappings.item_to_idx.get("item_a"),
        model.mappings.item_to_idx.get("item_a")
    );
    assert_eq!(
        loaded.mappings.item_to_idx.get("item_b"),
        model.mappings.item_to_idx.get("item_b")
    );
    assert_eq!(loaded.mappings.idx_to_item, model.mappings.idx_to_item);
    assert_eq!(
        loaded.mappings.idx_to_user_feature,
        model.mappings.idx_to_user_feature
    );
}

#[test]
fn test_load_invalid_magic() {
    let result = load_model(b"BADDATA");
    assert!(result.is_err());
    assert!(result.err().unwrap().contains("Invalid magic bytes"));
}

#[test]
fn test_load_too_small() {
    let result = load_model(b"FE");
    assert!(result.is_err());
    assert!(result.err().unwrap().contains("too small"));
}

#[test]
fn test_predictions_after_roundtrip() {
    let model = make_test_model();
    let loaded = load_model(&save_model(&model)).expect("Failed to load");

    let interactions = vec![(0, 1.0)];
    let features = vec![(0, 1.0)];
    let scores_original = model.predict(&interactions, &features, model.beta, 0.0);
    let scores_loaded = loaded.predict(&interactions, &features, loaded.beta, 0.0);

    assert_eq!(scores_original.len(), scores_loaded.len());
    for (a, b) in scores_original.iter().zip(scores_loaded.iter()) {
        assert!(
            (a - b).abs() < 1e-12,
            "Prediction mismatch after roundtrip: {} vs {}",
            a,
            b
        );
    }
}

#[test]
fn test_load_corrupted_dimensions() {
    let mut data = save_model(&make_test_model());
    data.truncate(data.len() - 50);
    let result = load_model(&data);
    assert!(result.is_err(), "Should fail on corrupted model file");
    assert_eq!(
        result.err().unwrap(),
        "Failed to deserialize model data (tried v2 and v1 formats)"
    );
}

#[test]
fn test_weighting_config_roundtrip() {
    let mut model = make_test_model();
    model.weighting_config = Some(WeightingConfig {
        event_weights: Some(vec![
            ("click".to_string(), 1.0),
            ("purchase".to_string(), 5.0),
        ]),
        decay_rate: 0.01,
        ips_alpha: 0.5,
        sparsity_threshold: 1e-4,
    });
    let loaded = load_model(&save_model(&model)).expect("Failed to load model");

    let wc = loaded
        .weighting_config
        .expect("weighting_config should be Some");
    assert!((wc.decay_rate - 0.01).abs() < 1e-12);
    assert!((wc.ips_alpha - 0.5).abs() < 1e-12);
    assert!((wc.sparsity_threshold - 1e-4).abs() < 1e-12);
    let ew = wc.event_weights.expect("event_weights should be Some");
    assert!(ew.contains(&("click".to_string(), 1.0)));
    assert!(ew.contains(&("purchase".to_string(), 5.0)));
    assert_eq!(ew.len(), 2);
}

#[test]
fn test_v1_migration_loads_with_none_weighting() {
    let model = make_test_model();
    let mut f = fields(&SerializedModel::from_model(&model));
    f.0 .0 = 1;
    let data = add_magic(&bincode::serialize(&f).expect("Failed to serialize v1"));

    let loaded = load_model(&data).expect("Failed to load v1 model");
    assert!(loaded.weighting_config.is_none());
    assert_eq!(loaded.num_items, model.num_items);
    assert_eq!(loaded.num_user_features, model.num_user_features);
}

#[test]
fn header_errors_name_the_file() {
    assert_eq!(strip_magic(b"FEA").unwrap_err(), HeaderError::TooSmall);
    assert_eq!(strip_magic(b"XEASrest").unwrap_err(), HeaderError::BadMagic);
    assert_eq!(
        HeaderError::TooSmall.message("m"),
        "File too small to be a valid FEASE model: m"
    );
    assert_eq!(
        HeaderError::BadMagic.message("m"),
        "Invalid magic bytes in m. Expected FEAS header."
    );
    let file = add_magic(&[1, 2, 3]);
    assert_eq!(file, b"FEAS\x01\x02\x03".to_vec());
    assert_eq!(strip_magic(&file).unwrap(), &[1, 2, 3]);
}

#[test]
fn stored_shapes_are_checked() {
    let mut stored = SerializedModel::from_model(&make_test_model());
    stored.version = 3;
    let err = stored.into_model().err().unwrap();
    assert_eq!(err, FormatError::UnsupportedVersion { version: 3 });
    assert_eq!(
        err.message(),
        "Unsupported model format version: 3 (expected 2 or 1)"
    );

    let mut stored = SerializedModel::from_model(&make_test_model());
    stored.s_data.pop();
    let err = stored.into_model().err().unwrap();
    assert_eq!(
        err,
        FormatError::DataLength {
            len: 24,
            nrows: 5,
            ncols: 5,
            expected: 25
        }
    );
    assert_eq!(
        err.message(),
        "S matrix data length 24 doesn't match dimensions 5x5 (expected 25)"
    );

    let mut stored = SerializedModel::from_model(&make_test_model());
    stored.num_items = 4;
    let err = stored.into_model().err().unwrap();
    assert!(matches!(err, FormatError::Dimensions { expected: 6, .. }));
    assert!(err.message().starts_with(
        "S matrix dimensions 5x5 don't match num_items (4) + num_user_features (2) = "
    ));
}

#[test]
fn rejects_old_format_with_retrain_error() {
    let mut bytes = Vec::new();
    bytes.extend_from_slice(b"FTWO");
    bytes.extend_from_slice(&3u32.to_le_bytes());
    bytes.extend_from_slice(&0u64.to_le_bytes());
    bytes.extend_from_slice(&0u64.to_le_bytes());

    let err = match read_meta(&bytes) {
        Ok(_) => panic!("old-format file must not load"),
        Err(e) => e,
    };
    let msg = err.message("old.fease");
    assert!(
        msg.contains("Retrain") || msg.contains("retrain"),
        "expected a retrain-required error, got: {msg}"
    );
    assert!(
        msg.contains("v3") && msg.contains(&format!("v{FORMAT_VERSION}")),
        "got: {msg}"
    );
}

#[test]
fn frames_round_trip() {
    let file = frame(b"meta", b"weights");
    let meta = read_meta(&file).ok().unwrap();
    assert_eq!(meta.bytes, b"meta");
    let weights = read_weights(&file, meta.next).ok().unwrap();
    assert_eq!(weights.bytes, b"weights");
    assert_eq!(weights.next, file.len());
    assert_eq!(file[..4], *b"FTWO");
    assert_eq!(file[4..8], 5u32.to_le_bytes());
}

#[test]
fn broken_frames_are_refused() {
    let file = frame(b"meta", b"weights");
    assert_eq!(read_meta(b"FTW").err().unwrap(), FrameError::TooSmall);
    let mut bad = file.clone();
    bad[0] = b'X';
    assert_eq!(read_meta(&bad).err().unwrap(), FrameError::BadMagic);
    let mut newer = file.clone();
    newer[4] = 6;
    assert_eq!(
        read_meta(&newer).err().unwrap(),
        FrameError::UnsupportedVersion { version: 6 }
    );
    assert_eq!(
        FrameError::UnsupportedVersion { version: 6 }.message("p"),
        "unsupported Two-Tower format version 6 (expected 5)"
    );
    let mut long = file.clone();
    long[8] = 200;
    assert_eq!(read_meta(&long).err().unwrap(), FrameError::Truncated);
    let next = read_meta(&file).ok().unwrap().next;
    assert_eq!(
        read_weights(&file[..file.len() - 1], next).err().unwrap(),
        FrameError::Truncated
    );
    assert_eq!(
        FrameError::Truncated.message("p"),
        "truncated or corrupt Two-Tower model file: p"
    );
    assert_eq!(
        FrameError::TooSmall.message("p"),
        "file too small to be a Two-Tower model: p"
    );
    assert_eq!(
        FrameError::BadMagic.message("p"),
        "invalid magic in p (expected FTWO header)"
    );
}

#[test]
fn s_items_bytes_are_row_major_le_and_subset() {
    let m = 2;
    let k = 1;
    let total = m + k;
    let mut bits = Matrix::filled_with(total, total, 0u64);
    for r in 0..total {
        for c in 0..total {
            bits.set(r, c, ((r * 10 + c) as f64).to_bits());
        }
    }
    let block = s_items_row_major_le_bytes(&bits, m, k);
    assert_eq!((block.rows, block.cols), (2, 3));
    assert_eq!(block.bytes.len(), 2 * 3 * 8);

    let decoded: Vec<f64> = block
        .bytes
        .chunks_exact(8)
        .map(|c| f64::from_le_bytes(c.try_into().unwrap()))
        .collect();
    assert_eq!(decoded, vec![0.0, 1.0, 2.0, 10.0, 11.0, 12.0]);
}
