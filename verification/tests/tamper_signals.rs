//! Tamper flags and the signals they name.

use andon_core::payload::tamper_signals::{
    fired_signals, is_tamper_flag, signal_for, signal_rank,
};
use andon_core::schema::enums::{Completeness, EngineFamily, Severity, TamperSignal};
use andon_core::schema::payload::{MeasurementResult, MetricValue};
use andon_core::testing::sample_result;

fn tamper_flag(metric_id: &str, fired: bool) -> MeasurementResult {
    let mut result = sample_result();
    result.metric_id = metric_id.to_string();
    result.engine_id = "tamper".to_string();
    result.family = EngineFamily::Tamper;
    result.value = MetricValue::Flag(fired);
    result.delta = None;
    result
}

#[test]
fn every_signal_a_detector_can_raise_resolves_from_its_metric_id() {
    for (metric_id, expected) in [
        (
            "tamper.suppression-density",
            TamperSignal::SuppressionDensity,
        ),
        ("tamper.test-removal", TamperSignal::TestRemoval),
        (
            "tamper.coverage-exclusion-drift",
            TamperSignal::CoverageExclusionDrift,
        ),
        (
            "tamper.assertion-free-test",
            TamperSignal::AssertionFreeTest,
        ),
        (
            "tamper.threshold-config-edit",
            TamperSignal::ThresholdConfigEdit,
        ),
        (
            "tamper.lookup-table-blowup",
            TamperSignal::LookupTableBlowup,
        ),
        ("tamper.parse-error-delta", TamperSignal::ParseErrorDelta),
    ] {
        assert_eq!(signal_for(metric_id), Some(expected), "{metric_id}");
    }
}

#[test]
fn a_magnitude_is_not_a_signal() {
    assert_eq!(signal_for("tamper.test-removal.magnitude"), None);
    let mut magnitude = tamper_flag("tamper.test-removal.magnitude", true);
    magnitude.value = MetricValue::Integer(3);
    assert!(!is_tamper_flag(&magnitude));
}

#[test]
fn an_unknown_detector_name_does_not_resolve() {
    assert_eq!(signal_for("tamper.something-new"), None);
    assert_eq!(signal_for("static.sloc"), None);
}

#[test]
fn only_fired_flags_reach_the_signal_list() {
    let results = vec![
        tamper_flag("tamper.test-removal", true),
        tamper_flag("tamper.suppression-density", false),
        tamper_flag("tamper.parse-error-delta", true),
    ];
    assert_eq!(
        fired_signals(&results),
        vec![TamperSignal::TestRemoval, TamperSignal::ParseErrorDelta]
    );
}

#[test]
fn a_degraded_flag_is_still_a_fired_flag() {
    let mut degraded = tamper_flag("tamper.test-removal", true);
    degraded.completeness = Completeness::ParseDegraded;
    degraded.severity = Severity::Low;
    assert_eq!(fired_signals(&[degraded]), vec![TamperSignal::TestRemoval]);
}

#[test]
fn the_order_does_not_depend_on_the_order_results_arrived_in() {
    let forwards = vec![
        tamper_flag("tamper.test-removal", true),
        tamper_flag("tamper.suppression-density", true),
    ];
    let backwards = vec![
        tamper_flag("tamper.suppression-density", true),
        tamper_flag("tamper.test-removal", true),
    ];
    assert_eq!(fired_signals(&forwards), fired_signals(&backwards));
}

#[test]
fn the_signal_list_holds_each_signal_once_in_declaration_order() {
    let results = vec![
        tamper_flag("tamper.parse-error-delta", true),
        tamper_flag("tamper.test-removal", true),
        tamper_flag("tamper.parse-error-delta", true),
    ];
    assert_eq!(
        fired_signals(&results),
        vec![TamperSignal::TestRemoval, TamperSignal::ParseErrorDelta]
    );
    assert!(fired_signals(&[]).is_empty());
    assert!(signal_rank(TamperSignal::TestRemoval) < signal_rank(TamperSignal::ParseErrorDelta));
    assert_eq!(signal_rank(TamperSignal::BaseFabrication), 7);
}

#[test]
fn a_flag_of_another_family_is_not_a_tamper_flag() {
    let mut flag = tamper_flag("tamper.test-removal", true);
    flag.family = EngineFamily::Static;
    assert!(!is_tamper_flag(&flag));
    assert!(fired_signals(&[flag]).is_empty());
}
