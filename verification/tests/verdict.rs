//! The verdict and the reasons behind it.

use andon_core::canonical::to_canonical_string;
use andon_core::policy::Policy;
use andon_core::schema::enums::{
    Completeness, EngineFamily, EvidenceTier, MetricClass, Severity, Verdict,
};
use andon_core::schema::payload::{
    IterationState, MeasurementResult, MetricValue, VerdictReason,
};
use andon_core::testing::{sample_record, sample_result};
use andon_core::verdict::{
    contradiction_label, evaluate, has_countable_finding, policy_change, reason,
    stored_verdict_is_contradicted, EngineFailure, VerdictContext,
};

fn ctx<'a>(policy: &'a Policy) -> VerdictContext<'a> {
    VerdictContext {
        policy,
        policy_change: None,
        engine_failures: &[],
        stale_claim_ids: &[],
        iteration_state_recovered: false,
        completeness: Completeness::Complete,
        registry_skew: &[],
        unreadable_paths: &[],
    }
}

fn iteration(count: u32, cap: u32) -> IterationState {
    IterationState {
        count,
        cap,
        escalated: count > cap,
    }
}

fn clean_result() -> MeasurementResult {
    let mut result = sample_result();
    result.severity = Severity::Info;
    result
}

fn tamper_flag(metric_id: &str, fired: bool) -> MeasurementResult {
    let mut result = sample_result();
    result.metric_id = metric_id.to_string();
    result.engine_id = "tamper".to_string();
    result.family = EngineFamily::Tamper;
    result.metric_class = MetricClass::DiffActionable;
    result.evidence.tier = EvidenceTier::N;
    result.value = MetricValue::Flag(fired);
    result.delta = None;
    result.severity = if fired {
        Severity::High
    } else {
        Severity::Info
    };
    result
}

#[test]
fn a_clean_change_passes() {
    let policy = Policy::default();
    let summary = evaluate(&[clean_result()], &ctx(&policy), iteration(0, 3));
    assert_eq!(summary.verdict, Verdict::Pass);
    assert!(summary.reasons.is_empty());
}

#[test]
fn a_change_with_an_unread_path_cannot_pass() {
    let policy = Policy::default();
    let unread = vec!["src/calc.ts".to_string()];
    let summary = evaluate(
        &[clean_result()],
        &VerdictContext {
            unreadable_paths: &unread,
            ..ctx(&policy)
        },
        iteration(0, 3),
    );
    assert_eq!(summary.verdict, Verdict::Advise);
    let reason = summary
        .reasons
        .iter()
        .find(|r| r.code == reason::CHANGE_NOT_READ)
        .expect("the verdict says which paths it could not read");
    assert!(reason.message.contains("src/calc.ts"), "{reason:?}");
    assert_eq!(reason.severity, Severity::Medium);
}

#[test]
fn an_unread_path_does_not_advance_the_loop_counter() {
    let policy = Policy::default();
    let unread = vec!["src/calc.ts".to_string()];
    assert!(!has_countable_finding(
        &[clean_result()],
        &VerdictContext {
            unreadable_paths: &unread,
            ..ctx(&policy)
        }
    ));
}

#[test]
fn an_unread_path_does_not_soften_a_block() {
    let policy = Policy::default();
    let unread = vec!["src/calc.ts".to_string()];
    let mut result = sample_result();
    result.severity = Severity::High;
    let summary = evaluate(
        &[result],
        &VerdictContext {
            unreadable_paths: &unread,
            ..ctx(&policy)
        },
        iteration(1, 3),
    );
    assert_eq!(summary.verdict, Verdict::Block);
}

#[test]
fn a_med_plus_finding_blocks() {
    let policy = Policy::default();
    let mut result = sample_result();
    result.severity = Severity::High;
    let summary = evaluate(&[result], &ctx(&policy), iteration(1, 3));
    assert_eq!(summary.verdict, Verdict::Block);
    assert_eq!(summary.reasons[0].code, reason::SEVERITY_MED_PLUS);
    assert_eq!(summary.reasons[0].metric_ids, vec!["sample.metric"]);
}

#[test]
fn a_low_finding_advises() {
    let policy = Policy::default();
    let mut result = sample_result();
    result.severity = Severity::Low;
    let summary = evaluate(&[result], &ctx(&policy), iteration(1, 3));
    assert_eq!(summary.verdict, Verdict::Advise);
    assert_eq!(summary.reasons[0].code, reason::FINDING_ADVISORY);
}

#[test]
fn a_fired_tamper_flag_blocks_and_names_itself() {
    let policy = Policy::default();
    let results = vec![
        tamper_flag("tamper.test-removal", true),
        tamper_flag("tamper.suppression-density", false),
    ];
    let summary = evaluate(&results, &ctx(&policy), iteration(1, 3));
    assert_eq!(summary.verdict, Verdict::Block);
    let tamper: Vec<&VerdictReason> = summary
        .reasons
        .iter()
        .filter(|r| r.code == reason::TAMPER_SIGNAL)
        .collect();
    assert_eq!(tamper.len(), 1, "one reason per fired detector");
    assert_eq!(tamper[0].metric_ids, vec!["tamper.test-removal"]);
}

#[test]
fn a_degraded_tamper_firing_blocks_and_the_reason_explains_the_capped_severity() {
    let policy = Policy::default();
    let mut result = tamper_flag("tamper.test-removal", true);
    result.completeness = Completeness::ParseDegraded;
    result.severity = Severity::Low;
    let summary = evaluate(&[result], &ctx(&policy), iteration(1, 3));
    assert_eq!(summary.verdict, Verdict::Block);
    let tamper = summary
        .reasons
        .iter()
        .find(|r| r.code == reason::TAMPER_SIGNAL)
        .expect("the firing stops the line");
    assert_eq!(tamper.severity, Severity::Critical);
    assert!(tamper.message.contains("lower bound"), "{}", tamper.message);
}

#[test]
fn one_parked_parse_error_does_not_muzzle_the_suite() {
    let policy = Policy::default();
    let results: Vec<MeasurementResult> = ["tamper.test-removal", "tamper.assertion-free-test"]
        .into_iter()
        .map(|id| {
            let mut result = tamper_flag(id, true);
            result.completeness = Completeness::ParseDegraded;
            result.severity = Severity::Low;
            result
        })
        .collect();
    let summary = evaluate(&results, &ctx(&policy), iteration(1, 3));
    assert_eq!(summary.verdict, Verdict::Block);
    assert_eq!(
        summary
            .reasons
            .iter()
            .filter(|r| r.code == reason::TAMPER_SIGNAL)
            .count(),
        2
    );
}

#[test]
fn a_loosened_threshold_edit_blocks_until_something_accounts_for_it() {
    let policy = Policy::default();
    let result = tamper_flag("tamper.threshold-config-edit", true);
    let summary = evaluate(
        std::slice::from_ref(&result),
        &ctx(&policy),
        iteration(1, 3),
    );
    assert_eq!(summary.verdict, Verdict::Block);
    assert_eq!(summary.reasons[0].code, reason::TAMPER_SIGNAL);

    let change = policy_change::PolicyChange {
        deltas: Vec::new(),
        justification: Some(policy_change::Justification::Verified {
            reference: "andon-ledger#12".to_string(),
            summary: "eslint rule relaxed for the codemod".to_string(),
        }),
    };
    let mut context = ctx(&policy);
    context.policy_change = Some(&change);
    let excused = evaluate(&[result], &context, iteration(1, 3));
    assert_eq!(excused.verdict, Verdict::Advise);
    assert_eq!(excused.reasons[0].code, reason::TAMPER_SIGNAL_ADVISORY);
    assert!(
        excused.reasons[0].message.contains("andon-ledger#12"),
        "the reason names what excused it: {}",
        excused.reasons[0].message
    );
}

#[test]
fn an_unjustified_policy_loosening_blocks() {
    let policy = Policy::default();
    let mut head = policy.clone();
    head.severity.block_on_tamper = false;
    let change = policy_change::evaluate(&policy, &head, None);
    let mut context = ctx(&policy);
    context.policy_change = Some(&change);
    let summary = evaluate(&[clean_result()], &context, iteration(1, 3));
    assert_eq!(summary.verdict, Verdict::Block);
    assert!(summary
        .reasons
        .iter()
        .any(|r| r.code == reason::POLICY_CHANGE_LOOSENING));
    assert!(
        summary
            .reasons
            .iter()
            .any(|r| r.code == reason::POLICY_CHANGE),
        "the advisory finding with the delta is emitted either way"
    );
}

#[test]
fn a_justified_policy_loosening_advises() {
    let policy = Policy::default();
    let mut head = policy.clone();
    head.severity.block_on_tamper = false;
    let change = policy_change::evaluate(
        &policy,
        &head,
        Some(policy_change::Justification::Verified {
            reference: "andon-ledger#12".to_string(),
            summary: "tamper blocking suspended for the corpus refresh".to_string(),
        }),
    );
    let mut context = ctx(&policy);
    context.policy_change = Some(&change);
    let summary = evaluate(&[clean_result()], &context, iteration(1, 3));
    assert_eq!(summary.verdict, Verdict::Advise);
    assert!(!summary
        .reasons
        .iter()
        .any(|r| r.code == reason::POLICY_CHANGE_LOOSENING));
    let advisory = summary
        .reasons
        .iter()
        .find(|r| r.code == reason::POLICY_CHANGE)
        .expect("the delta is reported either way");
    assert!(
        advisory.message.contains("andon-ledger#12"),
        "the payload has to say what excused the loosening: {}",
        advisory.message
    );
}

#[test]
fn an_unverified_justification_is_reported_and_suppresses_nothing() {
    let policy = Policy::default();
    let mut head = policy.clone();
    head.severity.block_on_tamper = false;
    let change = policy_change::evaluate(
        &policy,
        &head,
        Some(policy_change::Justification::Unverified {
            reference: "trust me".to_string(),
            summary: "not checked against any ledger".to_string(),
        }),
    );
    assert!(change.stops_the_line());

    let mut context = ctx(&policy);
    context.policy_change = Some(&change);
    let summary = evaluate(&[clean_result()], &context, iteration(1, 3));
    assert_eq!(summary.verdict, Verdict::Block);
    let loosening = summary
        .reasons
        .iter()
        .find(|r| r.code == reason::POLICY_CHANGE_LOOSENING)
        .expect("an unchecked claim does not suppress");
    assert!(
        loosening.message.contains("trust me"),
        "{}",
        loosening.message
    );
    assert!(
        loosening.message.contains("UNVERIFIED"),
        "the reader has to be told nobody checked it: {}",
        loosening.message
    );
}

#[test]
fn the_cap_escalates_and_outranks_a_block() {
    let policy = Policy::default();
    let mut result = sample_result();
    result.severity = Severity::High;
    let summary = evaluate(&[result], &ctx(&policy), iteration(4, 3));
    assert_eq!(summary.verdict, Verdict::EscalateToHuman);
    assert!(summary
        .reasons
        .iter()
        .any(|r| r.code == reason::SEVERITY_MED_PLUS));
    assert!(summary
        .reasons
        .iter()
        .any(|r| r.code == reason::ITERATION_CAP));
}

#[test]
fn a_clean_run_past_the_cap_still_passes() {
    let policy = Policy::default();
    let summary = evaluate(&[clean_result()], &ctx(&policy), iteration(9, 3));
    assert_eq!(summary.verdict, Verdict::Pass);
    assert!(!summary
        .reasons
        .iter()
        .any(|r| r.code == reason::ITERATION_CAP));
}

#[test]
fn a_context_informational_finding_never_blocks_and_never_counts() {
    let policy = Policy::default();
    let mut result = sample_result();
    result.metric_class = MetricClass::ContextInformational;
    result.severity = Severity::Low;
    let context = ctx(&policy);
    assert!(!has_countable_finding(&[result.clone()], &context));
    let summary = evaluate(&[result], &context, iteration(9, 3));
    assert_eq!(
        summary.verdict,
        Verdict::Advise,
        "reported, but not a reason to escalate"
    );
}

#[test]
fn a_failed_engine_advises_and_never_blocks() {
    let policy = Policy::default();
    let failures = [EngineFailure {
        engine_id: "clones".to_string(),
        reason: "index lock held".to_string(),
    }];
    for (completeness, word) in [
        (Completeness::Partial, "partial"),
        (Completeness::Unwitnessed, "unwitnessed"),
    ] {
        let mut context = ctx(&policy);
        context.engine_failures = &failures;
        context.completeness = completeness;
        let summary = evaluate(&[clean_result()], &context, iteration(0, 3));
        assert_eq!(summary.verdict, Verdict::Advise);
        let unavailable = summary
            .reasons
            .iter()
            .find(|r| r.code == reason::ENGINE_UNAVAILABLE)
            .expect("said out loud");
        assert!(unavailable.message.contains("absent rather than"));
        assert!(
            unavailable
                .message
                .contains(&format!("this record is {word}")),
            "the reason states what is true of the record it is attached to, \
             and this record is {completeness:?}: {}",
            unavailable.message
        );
        assert!(
            !unavailable.message.contains("confirmed"),
            "and it promises nothing beyond that"
        );
        assert!(
            !has_countable_finding(&[clean_result()], &context),
            "an agent must not grind on someone else's broken engine"
        );
    }
}

#[test]
fn a_stale_claim_behind_a_reported_finding_is_named() {
    let policy = Policy::default();
    let mut result = sample_result();
    result.severity = Severity::High;
    let stale = vec![result.claim_id.clone()];
    let mut context = ctx(&policy);
    context.stale_claim_ids = &stale;
    let summary = evaluate(&[result], &context, iteration(1, 3));
    let notice = summary
        .reasons
        .iter()
        .find(|r| r.code == reason::EVIDENCE_STALE)
        .expect("staleness is never silent");
    assert_eq!(notice.severity, Severity::Info);
}

#[test]
fn a_stale_claim_behind_nothing_reported_is_not_named() {
    let policy = Policy::default();
    let result = clean_result();
    let stale = vec![result.claim_id.clone()];
    let mut context = ctx(&policy);
    context.stale_claim_ids = &stale;
    let summary = evaluate(&[result], &context, iteration(0, 3));
    assert_eq!(summary.verdict, Verdict::Pass);
    assert!(summary.reasons.is_empty(), "{:?}", summary.reasons);
}

#[test]
fn a_notice_alone_does_not_turn_a_pass_into_an_advisory() {
    let policy = Policy::default();
    let mut context = ctx(&policy);
    context.iteration_state_recovered = true;
    let summary = evaluate(&[clean_result()], &context, iteration(1, 3));
    assert_eq!(summary.verdict, Verdict::Pass);
    assert_eq!(summary.reasons.len(), 1);
    assert_eq!(summary.reasons[0].code, reason::ITERATION_STATE_RESET);
}

#[test]
fn reasons_do_not_depend_on_the_order_results_arrived_in() {
    let policy = Policy::default();
    let a = tamper_flag("tamper.test-removal", true);
    let b = tamper_flag("tamper.assertion-free-test", true);
    let forwards = evaluate(&[a.clone(), b.clone()], &ctx(&policy), iteration(1, 3));
    let backwards = evaluate(&[b, a], &ctx(&policy), iteration(1, 3));
    assert_eq!(forwards, backwards);
}

#[test]
fn there_is_no_number_in_a_verdict() {
    let policy = Policy::default();
    let mut result = sample_result();
    result.severity = Severity::High;
    let summary = evaluate(&[result], &ctx(&policy), iteration(1, 3));
    let rendered = to_canonical_string(&summary.to_json());
    for forbidden in ["score", "grade", "rating", "points", "total"] {
        assert!(
            !rendered.contains(forbidden),
            "a verdict is a word and never a number: found {forbidden}"
        );
    }
}

#[test]
fn a_failed_suite_blocks_and_carries_the_outcome_sentence() {
    let policy = Policy::default();
    let mut flag = sample_result();
    flag.metric_id = "tests.suite-failure".to_string();
    flag.engine_id = "tests".to_string();
    flag.family = EngineFamily::Tests;
    flag.value = MetricValue::Flag(true);
    let mut outcome = flag.clone();
    outcome.metric_id = "tests.suite-outcome".to_string();
    outcome.value = MetricValue::Text("exited 2".to_string());
    let summary = evaluate(&[outcome, flag.clone()], &ctx(&policy), iteration(1, 3));
    assert_eq!(summary.verdict, Verdict::Block);
    assert_eq!(summary.reasons[0].code, reason::TEST_FAILURE);
    assert_eq!(summary.reasons[0].severity, Severity::Critical);
    assert_eq!(
        summary.reasons[0].message,
        "the user test command failed (exited 2): the line stops"
    );

    let mut permissive = Policy::default();
    permissive.severity.block_on_test_failure = false;
    let advised = evaluate(&[flag], &ctx(&permissive), iteration(1, 3));
    assert_eq!(advised.reasons[0].code, reason::TEST_FAILURE_ADVISORY);
    assert_eq!(
        advised.reasons[0].message,
        "the user test command failed (exited non-zero): reported; policy does not block on \
         test failure"
    );
}

#[test]
fn a_stored_pass_beside_an_unread_path_is_a_contradiction() {
    let mut record = sample_record();
    record.verdict.verdict = Verdict::Pass;
    assert!(!stored_verdict_is_contradicted(&record));
    record.unreadable_paths = vec!["src/calc.ts".to_string(), "src/other.ts".to_string()];
    assert!(stored_verdict_is_contradicted(&record));
    assert!(contradiction_label(&record)
        .starts_with("this record stores `pass` beside 2 changed path(s) it could not read."));
    record.verdict.verdict = Verdict::Advise;
    assert!(!stored_verdict_is_contradicted(&record));
}

#[test]
fn every_block_names_a_blocking_reason() {
    let policy = Policy::default();
    let mut finding = sample_result();
    finding.severity = Severity::Medium;
    for results in [
        vec![tamper_flag("tamper.test-removal", true)],
        vec![finding],
    ] {
        let summary = evaluate(&results, &ctx(&policy), iteration(1, 3));
        assert_eq!(summary.verdict, Verdict::Block);
        assert!(summary.reasons.iter().any(|r| {
            [
                reason::TAMPER_SIGNAL,
                reason::TEST_FAILURE,
                reason::SEVERITY_MED_PLUS,
                reason::POLICY_CHANGE_LOOSENING,
            ]
            .contains(&r.code.as_str())
        }));
    }
}

#[test]
fn a_med_plus_reason_counts_metrics_and_names_the_strongest() {
    let policy = Policy::default();
    let mut a = sample_result();
    a.severity = Severity::Medium;
    let mut b = sample_result();
    b.metric_id = "another.metric".to_string();
    b.severity = Severity::High;
    let summary = evaluate(&[a.clone(), b, a], &ctx(&policy), iteration(1, 3));
    assert_eq!(
        summary.reasons[0].message,
        "2 metric(s) reached High on diff-actionable findings after policy"
    );
    assert_eq!(
        summary.reasons[0].metric_ids,
        vec!["another.metric", "sample.metric"]
    );
    assert_eq!(summary.reasons[0].severity, Severity::High);
}

#[test]
fn no_blocking_reason_is_given_without_a_block() {
    let policy = Policy::default();
    let mut low = sample_result();
    low.severity = Severity::Low;
    let quiet = tamper_flag("tamper.test-removal", false);
    let summary = evaluate(&[low, quiet], &ctx(&policy), iteration(1, 3));
    assert_eq!(summary.verdict, Verdict::Advise);
    assert!(summary
        .reasons
        .iter()
        .all(|r| r.code == reason::FINDING_ADVISORY && r.severity == Severity::Low));
}

#[test]
fn two_flags_under_one_metric_are_reported_in_the_order_they_arrived() {
    let policy = Policy::default();
    let whole = tamper_flag("tamper.test-removal", true);
    let mut part = whole.clone();
    part.completeness = Completeness::Partial;
    let forwards = evaluate(&[whole.clone(), part.clone()], &ctx(&policy), iteration(1, 3));
    let backwards = evaluate(&[part, whole], &ctx(&policy), iteration(1, 3));
    assert_eq!(forwards.verdict, backwards.verdict);
    assert_eq!(forwards.reasons[0], backwards.reasons[1]);
    assert_eq!(forwards.reasons[1], backwards.reasons[0]);
    assert_ne!(forwards.reasons[0], forwards.reasons[1]);
}

#[test]
fn notices_change_neither_the_verdict_nor_what_stands_above_info() {
    let policy = Policy::default();
    let unread = vec!["src/calc.ts".to_string()];
    let stale = vec![sample_result().claim_id.clone()];
    let skew = vec!["claim: A here, B there".to_string()];
    let mut result = sample_result();
    result.severity = Severity::Low;
    let quiet = VerdictContext {
        unreadable_paths: &unread,
        ..ctx(&policy)
    };
    let noisy = VerdictContext {
        unreadable_paths: &unread,
        stale_claim_ids: &stale,
        registry_skew: &skew,
        iteration_state_recovered: true,
        completeness: Completeness::Partial,
        ..ctx(&policy)
    };
    let a = evaluate(&[result.clone()], &quiet, iteration(0, 3));
    let b = evaluate(&[result], &noisy, iteration(0, 3));
    let above = |reasons: &[VerdictReason]| -> Vec<VerdictReason> {
        reasons
            .iter()
            .filter(|r| r.severity != Severity::Info)
            .cloned()
            .collect()
    };
    assert_eq!(a.verdict, b.verdict);
    assert_eq!(above(&a.reasons), above(&b.reasons));
    assert_eq!(above(&a.reasons).len(), 2);
    assert!(b.reasons.len() > a.reasons.len());
}

#[test]
fn a_failure_reason_words_the_completeness_and_nothing_else_moves() {
    let policy = Policy::default();
    let failures = vec![EngineFailure {
        engine_id: "clones".to_string(),
        reason: "timed out".to_string(),
    }];
    let summary = |completeness: Completeness| {
        evaluate(
            &[clean_result()],
            &VerdictContext {
                engine_failures: &failures,
                completeness,
                ..ctx(&policy)
            },
            iteration(0, 3),
        )
    };
    let a = summary(Completeness::Partial);
    let b = summary(Completeness::Unwitnessed);
    assert_eq!(a.verdict, b.verdict);
    assert_eq!(a.reasons[0].code, b.reasons[0].code);
    assert_eq!(a.reasons[0].severity, b.reasons[0].severity);
    assert!(a.reasons[0].message.contains("this record is partial"));
    assert!(b.reasons[0].message.contains("this record is unwitnessed"));
}
