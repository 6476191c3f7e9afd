//! Turning raw attributes into feature keys.

use kzn_recsys::transform::{
    transform_features, BucketError, FeatureTransformationSchema, NumericalBucketConfig, RawValue,
};

fn names(list: &[&str]) -> Vec<String> {
    list.iter().map(|n| n.to_string()).collect()
}

fn tenure_config() -> NumericalBucketConfig<f64> {
    NumericalBucketConfig::try_new(
        "tenure".to_string(),
        vec![0.0, 7.0, 30.0, 90.0],
        names(&["0d", "7d", "30d", "90d", "90d+"]),
    )
    .unwrap()
}

fn text(value: &str) -> RawValue<f64> {
    RawValue::Text {
        text: value.to_string(),
        number: value.parse().ok(),
    }
}

fn number(value: i64) -> RawValue<f64> {
    RawValue::Number {
        text: value.to_string(),
        value: Some(value as f64),
    }
}

fn keys(
    raw: &[(&str, RawValue<f64>)],
    schema: &FeatureTransformationSchema<f64>,
) -> Vec<String> {
    let raw: Vec<(String, RawValue<f64>)> = raw
        .iter()
        .map(|(n, v)| (n.to_string(), v.clone()))
        .collect();
    transform_features(&raw, schema)
}

fn has(keys: &[String], key: &str) -> bool {
    keys.iter().any(|k| k == key)
}

#[test]
fn transforms_categorical_and_bucketed_numerical() {
    let mut schema = FeatureTransformationSchema::new();
    schema.add_categorical("plan".to_string(), "plan_".to_string());
    schema.add_numerical("tenure_days".to_string(), tenure_config());

    let res = keys(
        &[("plan", text("Premium")), ("tenure_days", number(45))],
        &schema,
    );
    assert!(has(&res, "plan_Premium"));
    assert!(has(&res, "tenure_90d"));
}

#[test]
fn unknown_keys_use_single_separator() {
    let mut schema = FeatureTransformationSchema::new();
    schema.add_categorical("plan".to_string(), "plan_".to_string());
    schema.add_numerical("tenure_days".to_string(), tenure_config());

    let res = keys(&[], &schema);
    assert!(has(&res, "plan_unknown"));
    assert!(has(&res, "tenure_unknown"));
    assert!(res.iter().all(|k| !k.contains("__")));
}

#[test]
fn prefix_convention_is_uniform_with_or_without_trailing_underscore() {
    for prefix in ["plan", "plan_"] {
        let mut schema = FeatureTransformationSchema::new();
        schema.add_categorical("plan".to_string(), prefix.to_string());
        let res = keys(&[("plan", text("Free"))], &schema);
        assert!(has(&res, "plan_Free"), "prefix {prefix:?}");
    }
}

#[test]
fn bucket_config_validates_shape() {
    let err =
        NumericalBucketConfig::try_new("tenure".to_string(), vec![0.0, 7.0], names(&["a", "b"]))
            .unwrap_err();
    assert!(err.message().contains("boundaries + 1"));

    let err = NumericalBucketConfig::try_new(
        "tenure".to_string(),
        vec![7.0, 0.0],
        names(&["a", "b", "c"]),
    )
    .unwrap_err();
    assert!(err.message().contains("ascending"));
}

#[test]
fn bucket_edges_are_inclusive_upper_bounds() {
    let mut schema = FeatureTransformationSchema::new();
    schema.add_numerical("tenure_days".to_string(), tenure_config());

    let cases = [
        (number(-3), "tenure_0d"),
        (number(0), "tenure_0d"),
        (number(7), "tenure_7d"),
        (number(45), "tenure_90d"),
        (number(91), "tenure_90d+"),
        (text("12"), "tenure_30d"),
    ];
    for (value, expected) in cases {
        let res = keys(&[("tenure_days", value.clone())], &schema);
        assert!(has(&res, expected), "value {value:?}");
    }
}

#[test]
fn bucket_errors_are_exact() {
    let err = NumericalBucketConfig::try_new("t".to_string(), vec![0.0, 7.0], names(&["a"]))
        .unwrap_err();
    assert_eq!(
        err,
        BucketError::LabelCount {
            labels: 1,
            boundaries: 2
        }
    );
    assert!(err.message().ends_with("got 1 labels for 2 boundaries"));
    let err = NumericalBucketConfig::try_new("t".to_string(), vec![1.0, 1.0], names(&["a", "b", "c"]))
        .unwrap_err();
    assert_eq!(err, BucketError::NotAscending);
    assert_eq!(err.message(), "boundaries must be strictly ascending");
}

#[test]
fn every_kind_of_value_has_a_key() {
    let mut schema = FeatureTransformationSchema::new();
    schema.add_categorical("c".to_string(), "c".to_string());
    assert_eq!(
        keys(&[("c", RawValue::Flag { value: true })], &schema),
        names(&["c_true"])
    );
    assert_eq!(
        keys(&[("c", RawValue::Flag { value: false })], &schema),
        names(&["c_false"])
    );
    assert_eq!(keys(&[("c", number(3))], &schema), names(&["c_3"]));
    assert_eq!(
        keys(&[("c", RawValue::Other)], &schema),
        names(&["c_unknown"])
    );
}

#[test]
fn setting_a_column_again_replaces_it() {
    let mut schema: FeatureTransformationSchema<f64> = FeatureTransformationSchema::new();
    schema.add_categorical("a".to_string(), "first_".to_string());
    schema.add_categorical("b".to_string(), "other".to_string());
    schema.add_categorical("a".to_string(), "second".to_string());
    let res = keys(&[("a", text("x")), ("b", text("y"))], &schema);
    assert_eq!(res.len(), 2);
    assert!(has(&res, "second_x"));
    assert!(has(&res, "other_y"));
}
