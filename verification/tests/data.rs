//! Reading tables: numbering, feature tables, matrices and sequences.

use ahash::AHashMap;
use kzn_recsys::data::sequences::{build_sequences, item_to_token, SequenceError, PAD_TOKEN};
use kzn_recsys::data::triples::{
    load_features, load_triples, FeatureTable, FeatureValue, LoadError,
};
use kzn_recsys::data_pipeline::{
    build_mapping_from_columns, build_matrices, build_triplets, kept_rows, table_format, LongTable,
    Mappings, TableFormat,
};
use kzn_recsys::groups::group_rows;
use kzn_recsys::ids::{collect_entries, intern, list_entries};

fn column(names: &[&str]) -> Vec<Option<String>> {
    names.iter().map(|n| Some(n.to_string())).collect()
}

fn names(list: &[&str]) -> Vec<String> {
    list.iter().map(|n| n.to_string()).collect()
}

fn numbers(list: &[f64]) -> Vec<Option<f64>> {
    list.iter().map(|v| Some(*v)).collect()
}

fn mappings_with_items(items: &[&str]) -> Mappings {
    let mut item_to_idx = AHashMap::new();
    let mut idx_to_item = Vec::new();
    for (i, it) in items.iter().enumerate() {
        item_to_idx.insert(it.to_string(), i);
        idx_to_item.push(it.to_string());
    }
    Mappings {
        user_to_idx: Default::default(),
        idx_to_user: Default::default(),
        item_to_idx,
        idx_to_item,
        user_feature_to_idx: Default::default(),
        idx_to_user_feature: Default::default(),
        item_feature_to_idx: Default::default(),
        idx_to_item_feature: Default::default(),
    }
}

#[test]
fn missing_days_ago_fails_loudly() {
    let m = mappings_with_items(&["a", "b"]);
    let err = build_sequences::<f64>(&column(&["u1", "u1"]), &column(&["a", "b"]), None, &m, 4)
        .unwrap_err();
    assert_eq!(err, SequenceError::MissingDaysAgo);
    assert!(
        err.message().contains("days_ago"),
        "error must mention days_ago, got: {}",
        err.message()
    );
}

#[test]
fn sequences_are_chronological_and_left_padded() {
    let m = mappings_with_items(&["a", "b", "c"]);
    let ds = build_sequences(
        &column(&["u1", "u1", "u1"]),
        &column(&["c", "a", "b"]),
        Some(&numbers(&[1.0, 3.0, 2.0])),
        &m,
        4,
    )
    .unwrap();
    assert_eq!(ds.len(), 1);
    assert_eq!(ds.vocab_size, 4);
    assert_eq!(ds.input_row(0), &[0, 0, 1, 2]);
    assert_eq!(ds.target_row(0), &[0, 0, 2, 3]);
}

#[test]
fn single_interaction_user_dropped() {
    let m = mappings_with_items(&["a", "b"]);
    let ds = build_sequences(
        &column(&["u1"]),
        &column(&["a"]),
        Some(&numbers(&[1.0])),
        &m,
        4,
    )
    .unwrap();
    assert!(ds.is_empty());
}

#[test]
fn long_history_truncates_to_most_recent() {
    let m = mappings_with_items(&["a", "b", "c", "d", "e"]);
    let ds = build_sequences(
        &column(&["u1", "u1", "u1", "u1", "u1"]),
        &column(&["a", "b", "c", "d", "e"]),
        Some(&numbers(&[5.0, 4.0, 3.0, 2.0, 1.0])),
        &m,
        2,
    )
    .unwrap();
    assert_eq!(ds.input_row(0), &[3, 4]);
    assert_eq!(ds.target_row(0), &[4, 5]);
}

#[test]
fn a_sequence_has_room_for_an_item() {
    let m = mappings_with_items(&["a"]);
    let err = build_sequences::<f64>(&column(&["u1"]), &column(&["a"]), None, &m, 0).unwrap_err();
    assert_eq!(err, SequenceError::ZeroLength);
    assert_eq!(err.message(), "build_sequences: seq_len must be >= 1");
    assert_eq!(item_to_token(0), 1);
    assert_eq!(PAD_TOKEN, 0);
}

#[test]
fn targets_follow_their_inputs() {
    let m = mappings_with_items(&["a", "b", "c"]);
    let users = column(&["v", "u", "v", "u", "u", "v"]);
    let items = column(&["a", "b", "b", "c", "a", "zzz"]);
    let ages = numbers(&[2.0, 9.0, 1.0, 4.0, 4.0, 0.0]);
    let ds = build_sequences(&users, &items, Some(&ages), &m, 3).unwrap();
    assert_eq!(ds.len(), 2);
    assert_eq!(ds.input_row(0), &[0, 2, 3]);
    assert_eq!(ds.target_row(0), &[0, 3, 1]);
    assert_eq!(ds.input_row(1), &[0, 0, 1]);
    assert_eq!(ds.target_row(1), &[0, 0, 2]);
    for r in 0..ds.len() {
        for j in 0..2 {
            if ds.input_row(r)[j] != 0 {
                assert_eq!(ds.target_row(r)[j], ds.input_row(r)[j + 1]);
            }
        }
    }
}

#[test]
fn load_triples_assigns_contiguous_indices_and_drops_nonpositive() {
    let data = load_triples(
        &column(&["u1", "u1", "u2", "u2"]),
        &column(&["i1", "i2", "i1", "i3"]),
        Some(&numbers(&[1.0, 1.0, 1.0, 0.0])),
        0.0,
    )
    .ok()
    .unwrap();
    assert_eq!(data.num_users(), 2);
    assert_eq!(data.num_items(), 2);
    assert_eq!(data.triples.len(), 3);
    assert_eq!(data.user_to_idx["u1"], 0);
    assert_eq!(data.item_to_idx["i1"], 0);
    assert_eq!(data.item_to_idx["i2"], 1);
}

#[test]
fn load_triples_value_column_optional() {
    let data = load_triples::<f64>(&column(&["u1", "u1"]), &column(&["i1", "i2"]), None, 0.0)
        .ok()
        .unwrap();
    assert_eq!(data.triples.len(), 2);
}

fn feature(value: f64) -> FeatureValue<f32> {
    FeatureValue {
        value: value as f32,
        is_one: (value - 1.0).abs() <= f64::EPSILON,
    }
}

#[test]
fn load_features_splits_categorical_and_dense() {
    let mut entity_to_idx = AHashMap::new();
    entity_to_idx.insert("u1".to_string(), 0_usize);
    entity_to_idx.insert("u2".to_string(), 1_usize);
    let values: Vec<FeatureValue<f32>> = [1.0_f64, 365.0, 1.0, 30.0]
        .iter()
        .map(|v| feature(*v))
        .collect();
    let ft = load_features(
        &names(&["u1", "u1", "u2", "u2"]),
        &names(&["age_20s", "tenure_days", "age_30s", "tenure_days"]),
        &values,
        0.0,
        &entity_to_idx,
        2,
    )
    .ok()
    .unwrap();

    assert_eq!(ft.num_categories, 2);
    assert_eq!(ft.dense_dim, 1);

    let age20s = ft.cat_feature_to_idx["age_20s"];
    let age30s = ft.cat_feature_to_idx["age_30s"];
    assert_eq!(ft.cat[0], vec![age20s]);
    assert_eq!(ft.cat[1], vec![age30s]);

    let tenure = ft.dense_feature_to_idx["tenure_days"];
    assert!((ft.dense[0][tenure] - 365.0).abs() < 1e-6);
    assert!((ft.dense[1][tenure] - 30.0).abs() < 1e-6);
}

#[test]
fn load_features_skips_unknown_ids_and_handles_missing_rows() {
    let mut entity_to_idx = AHashMap::new();
    entity_to_idx.insert("i1".to_string(), 0_usize);
    entity_to_idx.insert("i2".to_string(), 1_usize);
    let ft = load_features(
        &names(&["i1", "UNKNOWN"]),
        &names(&["genre_rock", "genre_pop"]),
        &[feature(1.0), feature(1.0)],
        0.0,
        &entity_to_idx,
        2,
    )
    .ok()
    .unwrap();
    assert!(!ft.cat[0].is_empty());
    assert!(ft.cat[1].is_empty());
    assert_eq!(ft.num_categories, 2);
}

#[test]
fn empty_feature_table_is_well_formed() {
    let ft: FeatureTable<f32> = FeatureTable::empty(3);
    assert_eq!(ft.cat.len(), 3);
    assert_eq!(ft.dense.len(), 3);
    assert_eq!(ft.num_categories, 0);
    assert_eq!(ft.dense_dim, 0);
}

#[test]
fn loading_refuses_uneven_columns() {
    let err = load_triples::<f64>(&column(&["u1", "u1"]), &column(&["i1"]), None, 0.0)
        .err()
        .unwrap();
    assert_eq!(err, LoadError::MismatchedInteractions);
    assert_eq!(
        err.message("i.csv"),
        "interactions columns have mismatched lengths"
    );
    let err = load_triples(
        &column(&["u1"]),
        &column(&["i1"]),
        Some(&numbers(&[0.0])),
        0.0,
    )
    .err()
    .unwrap();
    assert_eq!(err, LoadError::NoPositives);
    assert_eq!(
        err.message("i.csv"),
        "no positive interactions found in i.csv"
    );
    let err = load_features(
        &names(&["i1"]),
        &names(&["a", "b"]),
        &[feature(1.0)],
        0.0,
        &AHashMap::new(),
        0,
    )
    .err()
    .unwrap();
    assert_eq!(err, LoadError::MismatchedFeatures);
    assert_eq!(
        err.message("f.csv"),
        "feature columns have mismatched lengths"
    );
}

#[test]
fn categorical_and_dense_names_are_disjoint() {
    let values: Vec<FeatureValue<f32>> =
        [1.0, 2.0, 1.0, 1.0].iter().map(|v| feature(*v)).collect();
    let mut entity_to_idx = AHashMap::new();
    entity_to_idx.insert("e".to_string(), 0_usize);
    let ft = load_features(
        &names(&["e", "e", "e", "x"]),
        &names(&["a", "b", "b", "c"]),
        &values,
        0.0,
        &entity_to_idx,
        1,
    )
    .ok()
    .unwrap();
    for name in ["a", "b", "c"] {
        assert!(
            ft.cat_feature_to_idx.contains_key(name) != ft.dense_feature_to_idx.contains_key(name)
        );
    }
    assert!(ft.dense_feature_to_idx.contains_key("b"));
}

#[test]
fn test_build_matrices_flexible() {
    let interactions = LongTable {
        rows: column(&["u1", "u1", "u2", "u3"]),
        cols: column(&["i1", "i2", "i2", "i3"]),
        values: numbers(&[1.0, 1.0, 1.0, 1.0]),
    };
    let user_features = LongTable {
        rows: column(&["u1", "u2", "u3", "u4"]),
        cols: column(&["age_20s", "age_30s", "age_20s", "age_40s"]),
        values: numbers(&[1.0, 1.0, 1.0, 1.0]),
    };
    let item_features = LongTable {
        rows: column(&["i1", "i2", "i3", "i4"]),
        cols: column(&[
            "genre_action",
            "genre_comedy",
            "genre_action",
            "genre_drama",
        ]),
        values: numbers(&[1.0, 1.0, 1.0, 1.0]),
    };
    let built = build_matrices(&interactions, &user_features, &item_features);
    let mappings = &built.mappings;

    assert_eq!(mappings.user_to_idx.len(), 4);
    assert_eq!(mappings.item_to_idx.len(), 4);
    assert_eq!(mappings.user_feature_to_idx.len(), 3);
    assert_eq!(mappings.item_feature_to_idx.len(), 3);

    assert_eq!(mappings.idx_to_user.len(), 4);
    assert_eq!(mappings.idx_to_item.len(), 4);

    assert_eq!(built.x.num_rows, 4);
    assert_eq!(built.x.num_cols, 4);
    assert_eq!(built.x.entries.len(), 4);

    assert_eq!(built.u.num_rows, 4);
    assert_eq!(built.u.num_cols, 3);
    assert_eq!(built.u.entries.len(), 4);

    assert_eq!(built.t.num_rows, 3);
    assert_eq!(built.t.num_cols, 4);
    assert_eq!(built.t.entries.len(), 4);

    let i1_idx = *mappings.item_to_idx.get("i1").unwrap();
    let action_idx = *mappings.item_feature_to_idx.get("genre_action").unwrap();
    let found: Vec<f64> = built
        .t
        .entries
        .iter()
        .filter(|(r, c, _)| *r == action_idx && *c == i1_idx)
        .map(|(_, _, v)| *v)
        .collect();
    assert_eq!(found, vec![1.0]);
}

#[test]
fn rows_with_gaps_are_left_out() {
    let mut table = LongTable {
        rows: column(&["u1", "u2", "u3", "u4"]),
        cols: column(&["i1", "i2", "i3", "i4"]),
        values: numbers(&[1.0, 2.0, 3.0, 4.0]),
    };
    table.rows[1] = None;
    table.cols[2] = None;
    table.values[3] = None;
    let (rows, _) = build_mapping_from_columns(&[&table.rows]);
    let (cols, _) = build_mapping_from_columns(&[&table.cols]);
    assert_eq!(build_triplets(&table, &rows, &cols), vec![(0, 0, 1.0)]);
    assert_eq!(kept_rows(&table, &rows, &cols), vec![0]);
    table.rows[1] = Some("u4".to_string());
    assert_eq!(
        build_triplets(&table, &rows, &cols),
        vec![(0, 0, 1.0), (2, 1, 2.0)]
    );
    assert_eq!(kept_rows(&table, &rows, &cols), vec![0, 1]);
}

#[test]
fn joint_numbering_is_inverse_and_covers_both() {
    let (map, list) =
        build_mapping_from_columns(&[&column(&["b", "a", "b"]), &column(&["c", "a"])]);
    let mut sorted = list.clone();
    sorted.sort();
    assert_eq!(sorted, names(&["a", "b", "c"]));
    assert_eq!(map.len(), 3);
    for (i, name) in list.iter().enumerate() {
        assert_eq!(map[name.as_str()], i);
    }
}

#[test]
fn interning_and_listing_are_lossless() {
    let mut map = AHashMap::new();
    let mut list = Vec::new();
    assert_eq!(intern(&mut map, &mut list, "x"), 0);
    assert_eq!(intern(&mut map, &mut list, "y"), 1);
    assert_eq!(intern(&mut map, &mut list, "x"), 0);
    assert_eq!(list, names(&["x", "y"]));
    let mut entries = list_entries(&map);
    entries.sort();
    assert_eq!(entries, vec![("x".to_string(), 0), ("y".to_string(), 1)]);
    let again = collect_entries(&entries);
    assert_eq!(again, map);
}

#[test]
fn groups_hold_their_rows_in_order() {
    let mut users = column(&["b", "a", "b", "c", "a"]);
    users[3] = None;
    let groups = group_rows(&users);
    assert_eq!(groups.names, names(&["a", "b"]));
    assert_eq!(groups.rows, vec![vec![1, 4], vec![0, 2]]);
}

#[test]
fn tables_are_parquet_or_csv() {
    assert_eq!(
        table_format(Some("parquet"), "a.parquet"),
        Ok(TableFormat::Parquet)
    );
    assert_eq!(table_format(Some("csv"), "a.csv"), Ok(TableFormat::Csv));
    assert_eq!(
        table_format(Some("CSV"), "a.CSV"),
        Err("Unsupported file type for: a.CSV. Supported types are .parquet and .csv".to_string())
    );
    assert!(table_format(None, "a").is_err());
}
