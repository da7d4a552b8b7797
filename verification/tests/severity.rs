//! Severity ceilings, and what stops the line.

use andon_core::parse_health;
use andon_core::policy::{Policy, SeverityPolicy};
use andon_core::schema::enums::{
    Completeness, EngineFamily, EvidenceTier, MetricClass, Severity, TamperSignal,
};
use andon_core::schema::payload::{MeasurementResult, MetricValue};
use andon_core::testing::{sample_compare_context, sample_result};
use andon_core::verdict::policy_change::{Justification, PolicyChange};
use andon_core::verdict::severity::{
    apply, ceiling, counts_toward_iteration, fired_signal, fired_suite_failure, stops_the_line,
    SUITE_FAILURE_METRIC,
};
use andon_core::verdict::VerdictContext;

fn ctx(policy: &Policy) -> VerdictContext<'_> {
    VerdictContext {
        policy,
        policy_change: None,
        engine_failures: &[],
        stale_claim_ids: &[],
        iteration_state_recovered: false,
        completeness: Completeness::Complete,
        registry_skew: &[],
        unreadable_paths: &[],
    }
}

fn ctx_with<'a>(policy: &'a Policy, change: &'a PolicyChange) -> VerdictContext<'a> {
    VerdictContext {
        policy_change: Some(change),
        ..ctx(policy)
    }
}

fn tamper_flag(metric_id: &str, fired: bool) -> MeasurementResult {
    let mut result = sample_result();
    result.metric_id = metric_id.to_string();
    result.engine_id = "tamper".to_string();
    result.family = EngineFamily::Tamper;
    result.metric_class = MetricClass::DiffActionable;
    result.evidence.tier = EvidenceTier::N;
    result.value = MetricValue::Flag(fired);
    result.delta = None;
    result.severity = Severity::High;
    result
}

#[test]
fn a_degraded_tamper_firing_still_stops_the_line() {
    let mut result = tamper_flag("tamper.test-removal", true);
    parse_health::demote(
        &mut result,
        parse_health::ParseHealth {
            error_nodes: 1,
            missing_nodes: 0,
            total_nodes: 50,
        },
    );
    assert_eq!(result.completeness, Completeness::ParseDegraded);
    assert!(
        !result.severity.is_med_plus(),
        "the demotion must still cap the reported severity: {:?}",
        result.severity
    );
    assert!(
        stops_the_line(&result, &ctx(&Policy::default())),
        "but the fired flag, not the capped severity, decides the line"
    );
}

#[test]
fn a_complete_tamper_firing_is_capped_by_its_tier_and_still_stops_the_line() {
    let mut result = tamper_flag("tamper.test-removal", true);
    result.completeness = Completeness::Complete;
    assert_eq!(result.evidence.tier, EvidenceTier::N);

    let policy = Policy::default();
    assert!(
        !policy.severity.med_plus_tiers.contains(&EvidenceTier::N),
        "the premise: tier N is not admitted to the MED+ band"
    );
    apply(std::slice::from_mut(&mut result), &policy);

    assert_eq!(
        result.severity,
        Severity::Low,
        "capped by tier, not by parse"
    );
    assert!(
        stops_the_line(&result, &ctx(&policy)),
        "and the firing still stops the line"
    );
    assert!(counts_toward_iteration(&result, &ctx(&policy)));
}

#[test]
fn a_quiet_detector_over_a_degraded_view_does_not_stop_the_line() {
    let mut result = tamper_flag("tamper.test-removal", false);
    result.severity = Severity::Info;
    result.completeness = Completeness::ParseDegraded;
    assert!(!stops_the_line(&result, &ctx(&Policy::default())));
}

#[test]
fn a_loosened_threshold_stops_the_line_unless_something_accounts_for_it() {
    let policy = Policy::default();
    let result = tamper_flag("tamper.threshold-config-edit", true);
    assert!(
        stops_the_line(&result, &ctx(&policy)),
        "a loosening nobody has accounted for stops the line"
    );
    assert_eq!(
        fired_signal(&result),
        Some(TamperSignal::ThresholdConfigEdit),
        "it is still reported as a fired signal"
    );

    let unverified = PolicyChange {
        deltas: Vec::new(),
        justification: Some(Justification::Unverified {
            reference: "trust me".to_string(),
            summary: "not checked against any ledger".to_string(),
        }),
    };
    assert!(
        stops_the_line(&result, &ctx_with(&policy, &unverified)),
        "an unverified claim is not an account of anything"
    );

    let verified = PolicyChange {
        deltas: Vec::new(),
        justification: Some(Justification::Verified {
            reference: "andon-ledger#12".to_string(),
            summary: "eslint rule relaxed for the codemod, restored in #13".to_string(),
        }),
    };
    assert!(
        !stops_the_line(&result, &ctx_with(&policy, &verified)),
        "policy evolution the ledger records must stay possible"
    );
}

#[test]
fn a_justified_threshold_edit_does_not_burn_the_loop_budget_either() {
    let policy = Policy::default();
    let result = tamper_flag("tamper.threshold-config-edit", true);
    let verified = PolicyChange {
        deltas: Vec::new(),
        justification: Some(Justification::Verified {
            reference: "andon-ledger#12".to_string(),
            summary: "accounted for".to_string(),
        }),
    };
    assert!(counts_toward_iteration(&result, &ctx(&policy)));
    assert!(!counts_toward_iteration(
        &result,
        &ctx_with(&policy, &verified)
    ));
}

#[test]
fn the_other_six_detectors_are_not_excusable_by_a_justification() {
    let policy = Policy::default();
    let verified = PolicyChange {
        deltas: Vec::new(),
        justification: Some(Justification::Verified {
            reference: "andon-ledger#12".to_string(),
            summary: "we meant to".to_string(),
        }),
    };
    for metric_id in [
        "tamper.test-removal",
        "tamper.suppression-density",
        "tamper.coverage-exclusion-drift",
        "tamper.assertion-free-test",
        "tamper.lookup-table-blowup",
        "tamper.parse-error-delta",
    ] {
        let result = tamper_flag(metric_id, true);
        assert!(
            stops_the_line(&result, &ctx_with(&policy, &verified)),
            "{metric_id} took an exemption that is not its"
        );
    }
}

fn suite_flag(fired: bool) -> MeasurementResult {
    let mut result = sample_result();
    result.metric_id = SUITE_FAILURE_METRIC.to_string();
    result.engine_id = "tests".to_string();
    result.family = EngineFamily::Tests;
    result.metric_class = MetricClass::DiffActionable;
    result.evidence.tier = EvidenceTier::N;
    result.value = MetricValue::Flag(fired);
    result.delta = None;
    result.severity = Severity::Critical;
    result
}

#[test]
fn a_failed_suite_is_tier_capped_and_still_stops_the_line() {
    let mut result = suite_flag(true);
    let policy = Policy::default();
    assert!(policy.severity.block_on_test_failure, "the premise");
    apply(std::slice::from_mut(&mut result), &policy);
    assert_eq!(result.severity, Severity::Low, "capped by tier");
    assert!(stops_the_line(&result, &ctx(&policy)));
    assert!(counts_toward_iteration(&result, &ctx(&policy)));
}

#[test]
fn policy_can_switch_test_failure_blocking_off() {
    let result = suite_flag(true);
    let permissive = Policy {
        severity: SeverityPolicy {
            block_on_test_failure: false,
            ..SeverityPolicy::default()
        },
        ..Policy::default()
    };
    assert!(!stops_the_line(&result, &ctx(&permissive)));
    assert!(stops_the_line(&result, &ctx(&Policy::default())));
}

#[test]
fn a_passing_suite_stops_nothing() {
    let mut result = suite_flag(false);
    apply(std::slice::from_mut(&mut result), &Policy::default());
    assert!(!stops_the_line(&result, &ctx(&Policy::default())));
}

#[test]
fn a_suite_flag_from_another_family_is_not_a_suite_flag() {
    let mut result = suite_flag(true);
    result.family = EngineFamily::Static;
    assert!(!fired_suite_failure(&result));
}

#[test]
fn policy_can_switch_tamper_blocking_off() {
    let result = tamper_flag("tamper.test-removal", true);
    let permissive_policy = Policy {
        severity: SeverityPolicy {
            block_on_tamper: false,
            ..SeverityPolicy::default()
        },
        ..Policy::default()
    };
    assert!(!stops_the_line(&result, &ctx(&permissive_policy)));
    assert!(stops_the_line(&result, &ctx(&Policy::default())));
}

#[test]
fn a_c_tier_claim_cannot_reach_the_med_plus_band() {
    let mut result = sample_result();
    result.evidence.tier = EvidenceTier::C;
    result.severity = Severity::Critical;
    apply(std::slice::from_mut(&mut result), &Policy::default());
    assert_eq!(result.severity, Severity::Low);
    assert!(!stops_the_line(&result, &ctx(&Policy::default())));
}

#[test]
fn the_c_tier_rule_wins_where_both_rules_apply() {
    let mut policy = Policy::default();
    policy.severity.med_plus_tiers = vec![EvidenceTier::A, EvidenceTier::B, EvidenceTier::C];
    let mut result = sample_result();
    result.evidence.tier = EvidenceTier::C;
    result.severity = Severity::High;
    apply(std::slice::from_mut(&mut result), &policy);
    assert_eq!(result.severity, policy.severity.max_severity_for_c_tier);
}

#[test]
fn a_context_informational_finding_cannot_block_by_default() {
    let mut result = sample_result();
    result.metric_class = MetricClass::ContextInformational;
    result.severity = Severity::Critical;
    apply(std::slice::from_mut(&mut result), &Policy::default());
    assert_eq!(result.severity, Severity::Low);
}

#[test]
fn applying_the_ceilings_twice_changes_nothing() {
    let mut once = sample_result();
    once.severity = Severity::Critical;
    once.evidence.tier = EvidenceTier::C;
    let mut twice = once.clone();
    apply(std::slice::from_mut(&mut once), &Policy::default());
    apply(std::slice::from_mut(&mut twice), &Policy::default());
    apply(std::slice::from_mut(&mut twice), &Policy::default());
    assert_eq!(once.severity, twice.severity);
}

#[test]
fn policy_never_raises_a_severity() {
    let mut result = sample_result();
    result.severity = Severity::Info;
    result.evidence.tier = EvidenceTier::A;
    apply(std::slice::from_mut(&mut result), &Policy::default());
    assert_eq!(result.severity, Severity::Info);
}

#[test]
fn a_context_informational_finding_is_exempt_from_the_counter() {
    let mut result = sample_result();
    result.metric_class = MetricClass::ContextInformational;
    result.severity = Severity::Low;
    let mut policy = Policy::default();
    assert!(!counts_toward_iteration(&result, &ctx(&policy)));
    policy.loop_policy.count_context_informational = true;
    assert!(counts_toward_iteration(&result, &ctx(&policy)));
}

#[test]
fn a_degraded_tamper_firing_still_counts_toward_the_iteration() {
    let mut result = tamper_flag("tamper.test-removal", true);
    result.severity = Severity::Info;
    result.completeness = Completeness::ParseDegraded;
    assert!(counts_toward_iteration(&result, &ctx(&Policy::default())));
}

#[test]
fn an_info_result_does_not_count_toward_the_iteration() {
    let mut result = sample_result();
    result.severity = Severity::Info;
    assert!(!counts_toward_iteration(&result, &ctx(&Policy::default())));
}

#[test]
fn the_ceiling_is_the_minimum_of_every_rule() {
    let policy = Policy::default();
    let mut result = sample_result();
    assert_eq!(ceiling(&result, &policy.severity), Severity::Critical);
    result.evidence.tier = EvidenceTier::N;
    assert_eq!(ceiling(&result, &policy.severity), Severity::Low);
    result.evidence.tier = EvidenceTier::A;
    result.completeness = Completeness::Partial;
    assert_eq!(ceiling(&result, &policy.severity), Severity::Low);
}

#[test]
fn applying_policy_leaves_the_digest_as_it_was() {
    let mut result = sample_result();
    result.severity = Severity::Critical;
    result.evidence.tier = EvidenceTier::C;
    let before = result.digest.clone();
    apply(std::slice::from_mut(&mut result), &Policy::default());
    assert_eq!(result.digest, before);
    let recomputed = result.digest_input(&sample_compare_context()).digest().unwrap();
    assert_eq!(recomputed, before);
}
