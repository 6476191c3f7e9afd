//! Anomaly checks on data counts.

use kzn_recsys::data_validation::{
    moments, validate_data_counts, CountCheck, DataCheckResult, DataValidationConfig,
    DataValidationReport, GaussianAnomalyDetector,
};

/// The detector for `history`, where it holds enough observations.
fn from_observations(history: &[f64], width: f64) -> Option<GaussianAnomalyDetector<f64>> {
    let found = moments(
        history,
        0.0,
        history.len() as f64,
        history.len() as f64 - 1.0,
    )?;
    Some(GaussianAnomalyDetector::around(
        found.mean,
        found.variance.sqrt(),
        width,
    ))
}

fn count_check(history: &[f64], width: f64, current: f64) -> CountCheck<f64> {
    CountCheck {
        detector: from_observations(history, width),
        current,
    }
}

#[test]
fn test_gaussian_detector_from_observations() {
    let history = vec![
        1000.0, 1010.0, 990.0, 1005.0, 995.0, 1002.0, 998.0, 1008.0, 992.0, 1000.0,
    ];
    let detector = from_observations(&history, 3.0).unwrap();

    assert!((detector.mean - 1000.0).abs() < 1.0);
    assert!(detector.std < 10.0);
    assert!(detector.low > 950.0);
    assert!(detector.high < 1050.0);
}

#[test]
fn test_gaussian_detector_check_pass() {
    let detector = GaussianAnomalyDetector::with_bounds(900.0, 1100.0, 1000.0, 50.0, 2.0);
    let result = detector.check(1000.0, "test_metric", 0.0);
    assert!(result.passed());
}

#[test]
fn test_gaussian_detector_check_fail_low() {
    let detector = GaussianAnomalyDetector::with_bounds(900.0, 1100.0, 1000.0, 50.0, 2.0);
    let result = detector.check(800.0, "test_metric", 0.0);
    assert!(!result.passed());
}

#[test]
fn test_gaussian_detector_check_fail_high() {
    let detector = GaussianAnomalyDetector::with_bounds(900.0, 1100.0, 1000.0, 50.0, 2.0);
    let result = detector.check(1200.0, "test_metric", 0.0);
    assert!(!result.passed());
}

#[test]
fn test_insufficient_history() {
    let history = vec![1000.0];
    assert!(from_observations(&history, 3.0).is_none());
}

#[test]
fn test_validate_data_counts_all_pass() {
    let hist_users = vec![1000.0, 1010.0, 990.0, 1005.0, 995.0];
    let hist_items = vec![500.0, 510.0, 490.0, 505.0, 495.0];
    let hist_interactions = vec![5000.0, 5100.0, 4900.0, 5050.0, 4950.0];
    let config = DataValidationConfig::with_widths(5.0, 10.0);

    let report = validate_data_counts(
        &count_check(&hist_users, config.distinct_users_multiplier, 1000.0),
        &count_check(&hist_items, config.distinct_items_multiplier, 500.0),
        &count_check(&hist_interactions, config.interactions_multiplier, 5000.0),
        0.0,
    );

    assert!(report.all_passed());
    assert_eq!(report.results.len(), 3);
    assert!(report.failures().is_empty());
}

#[test]
fn test_validate_data_counts_detects_anomaly() {
    let hist_users = vec![1000.0, 1010.0, 990.0, 1005.0, 995.0];
    let hist_items = vec![500.0, 510.0, 490.0, 505.0, 495.0];
    let hist_interactions = vec![5000.0, 5100.0, 4900.0, 5050.0, 4950.0];
    let config = DataValidationConfig::with_widths(5.0, 10.0);

    let report = validate_data_counts(
        &count_check(&hist_users, config.distinct_users_multiplier, 100.0),
        &count_check(&hist_items, config.distinct_items_multiplier, 500.0),
        &count_check(&hist_interactions, config.interactions_multiplier, 5000.0),
        0.0,
    );

    assert!(!report.all_passed());
    assert_eq!(report.failures().len(), 1);
    assert_eq!(report.failures()[0].label(), "distinct_users");
}

fn shown(result: &DataCheckResult<f64>) -> String {
    match result {
        DataCheckResult::Pass { value, z_score, .. } => {
            result.line(&format!("{value:.2}"), &format!("{z_score:.2}"), "", "")
        }
        DataCheckResult::Fail {
            value,
            z_score,
            low,
            high,
            ..
        } => result.line(
            &format!("{value:.2}"),
            &format!("{z_score:.2}"),
            &format!("{low:.2}"),
            &format!("{high:.2}"),
        ),
    }
}

#[test]
fn test_data_validation_report_summary() {
    let mut report = DataValidationReport::new();
    report.add(DataCheckResult::Pass {
        label: "metric_a".to_string(),
        value: 100.0,
        z_score: 0.5,
    });
    report.add(DataCheckResult::Fail {
        label: "metric_b".to_string(),
        value: 10.0,
        z_score: 5.0,
        low: 80.0,
        high: 120.0,
    });
    let lines: Vec<String> = report.results.iter().map(shown).collect();

    let summary = report.summary(&lines);
    assert!(summary.contains("1/2 checks passed"));
    assert!(summary.contains("1 failed"));
    assert!(summary.contains("PASS 'metric_a'"));
    assert!(summary.contains("FAIL 'metric_b'"));
}

#[test]
fn bounds_and_scores_are_exact() {
    let found = moments(&[2.0, 4.0, 6.0], 0.0, 3.0, 2.0).unwrap();
    assert_eq!(found.mean, 4.0);
    assert_eq!(found.variance, 4.0);
    let detector = GaussianAnomalyDetector::around(4.0, 2.0, 3.0);
    assert_eq!((detector.low, detector.high), (-2.0, 10.0));
    match detector.check(11.0, "m", 0.0) {
        DataCheckResult::Fail {
            label,
            value,
            z_score,
            low,
            high,
        } => {
            assert_eq!(label, "m");
            assert_eq!((value, z_score, low, high), (11.0, 3.5, -2.0, 10.0));
        }
        DataCheckResult::Pass { .. } => panic!("11 lies outside the bounds"),
    }
    assert!(detector.check(10.0, "m", 0.0).passed());
    assert!(detector.check(-2.0, "m", 0.0).passed());
}

#[test]
fn a_flat_history_has_zero_scores() {
    let detector = GaussianAnomalyDetector::around(4.0, 0.0, 3.0);
    match detector.check(4.0, "m", 0.0) {
        DataCheckResult::Pass { z_score, .. } => assert_eq!(z_score, 0.0),
        DataCheckResult::Fail { .. } => panic!("4 is the only accepted value"),
    }
}

#[test]
fn counts_without_history_are_not_checked() {
    let report = validate_data_counts(
        &count_check(&[1.0], 5.0, 1.0),
        &count_check(&[1.0, 2.0], 5.0, 1.0),
        &count_check(&[], 5.0, 1.0),
        0.0,
    );
    assert_eq!(report.results.len(), 1);
    assert_eq!(report.results[0].label(), "distinct_items");
}

#[test]
fn report_lines_are_exact() {
    let pass = DataCheckResult::Pass {
        label: "a".to_string(),
        value: 1.0,
        z_score: 0.5,
    };
    assert_eq!(shown(&pass), "PASS 'a': value=1.00, z_score=0.50");
    let fail = DataCheckResult::Fail {
        label: "b".to_string(),
        value: 9.0,
        z_score: 4.0,
        low: 0.0,
        high: 5.0,
    };
    assert_eq!(
        shown(&fail),
        "FAIL 'b': value=9.00 outside [0.00, 5.00], z_score=4.00"
    );
    let mut report = DataValidationReport::new();
    report.add(pass);
    let lines = vec!["first".to_string()];
    assert_eq!(
        report.summary(&lines),
        "Data Validation: 1/1 checks passed, 0 failed\n  first"
    );
}

#[test]
fn passing_and_failing_are_complementary() {
    let detector = GaussianAnomalyDetector::with_bounds(0.0, 1.0, 0.5, 0.25, 2.0);
    let mut report = DataValidationReport::new();
    for value in [0.5, -1.0, 1.0, 7.0] {
        report.add(detector.check(value, "v", 0.0));
    }
    let failed = report.results.iter().filter(|r| !r.passed()).count();
    assert_eq!(report.failures().len(), failed);
    assert_eq!(failed, 2);
    assert!(!report.all_passed());
}
