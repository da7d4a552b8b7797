//! The agent-mode profile and its budget.

use andon_core::policy::Policy;
use andon_core::schema::agent_profile::{
    build_agent_profile, encoded_len, AgentProfileBounds, PROFILE_NAME,
};
use andon_core::schema::enums::Severity;
use andon_core::schema::payload::{
    LineSpan, MeasurementRecord, MeasurementResult, MetricValue, Ratio, ScopeKind, VerdictReason,
};
use andon_core::testing::{sample_record, sample_result};
use andon_core::text::truncate_bytes;

#[test]
fn truncation_respects_char_boundaries() {
    assert_eq!(truncate_bytes("aé", 3), "aé");
    assert_eq!(truncate_bytes("aéb", 3), "aé");
    assert_eq!(truncate_bytes("aéb", 2), "a");
}

#[test]
fn a_med_plus_finding_carries_path_span_and_symbol() {
    let mut record = sample_record();
    let mut result = sample_result();
    result.severity = Severity::Medium;
    result.scope.kind = ScopeKind::Function;
    result.scope.path = Some("src/index.ts".to_string());
    result.scope.symbol = Some("classify".to_string());
    result.scope.line_span = Some(LineSpan { start: 12, end: 84 });
    record.results = vec![result];

    let profile = build_agent_profile(&record, &AgentProfileBounds::default());
    assert_eq!(profile.findings.len(), 1);
    assert_eq!(profile.findings[0].scope, "src/index.ts:12-84:classify");
}

#[test]
fn a_finding_without_a_span_renders_path_and_symbol() {
    let mut record = sample_record();
    let mut result = sample_result();
    result.scope.kind = ScopeKind::Function;
    result.scope.path = Some("src/index.ts".to_string());
    result.scope.symbol = Some("handleRequest".to_string());
    result.scope.line_span = None;
    record.results = vec![result];

    let profile = build_agent_profile(&record, &AgentProfileBounds::default());
    assert_eq!(profile.findings[0].scope, "src/index.ts:handleRequest");
}

#[test]
fn profile_names_itself_and_states_trust_directly() {
    let record = sample_record();
    let profile = build_agent_profile(&record, &AgentProfileBounds::default());
    assert_eq!(profile.profile, PROFILE_NAME);
    assert!(!profile.counts_downstream);
}

fn loosening_reason() -> VerdictReason {
    VerdictReason {
        code: "policy-change-loosening".to_string(),
        severity: Severity::High,
        message: "policy loosened with no ledgered justification:                       sandbox.test_timeout_ms: 600000 -> 30000 (loosens)"
            .to_string(),
        metric_ids: Vec::new(),
    }
}

#[test]
fn a_reason_with_no_backing_result_still_reaches_the_agent() {
    let mut record = sample_record();
    record.verdict.reasons = vec![loosening_reason()];

    let profile = build_agent_profile(&record, &AgentProfileBounds::default());

    assert_eq!(profile.total_reasons, 1);
    let reason = profile
        .reasons
        .first()
        .expect("a reason with no result behind it must still be projected");
    assert_eq!(reason.code, "policy-change-loosening");
    assert!(
        reason.message.contains("no ledgered justification"),
        "the reason's own words are the actionable part: {}",
        reason.message
    );
    assert!(
        !profile
            .findings
            .iter()
            .any(|f| f.metric_id.contains("policy")),
        "no finding backs this reason; that is the whole point"
    );
}

#[test]
fn every_tamper_detector_firing_at_once_still_fits() {
    let mut record = sample_record();
    let detectors = [
        "test-removal",
        "suppression-density",
        "assertion-free-test",
        "coverage-exclusion-drift",
        "threshold-config-edit",
        "lookup-table-blowup",
        "parse-error-delta",
    ];
    record.verdict.reasons = detectors
        .iter()
        .map(|d| VerdictReason {
            code: "tamper-signal".to_string(),
            severity: Severity::Critical,
            message: format!("tamper.{d} fired on this change"),
            metric_ids: vec![format!("tamper.{d}")],
        })
        .chain([
            loosening_reason(),
            VerdictReason {
                code: "policy-change".to_string(),
                severity: Severity::Low,
                message: "policy edited in this change".to_string(),
                metric_ids: Vec::new(),
            },
            VerdictReason {
                code: "measurement-incomplete".to_string(),
                severity: Severity::Info,
                message: "this measurement is unwitnessed".to_string(),
                metric_ids: Vec::new(),
            },
        ])
        .collect();

    let profile = build_agent_profile(&record, &AgentProfileBounds::default());

    assert_eq!(profile.total_reasons, 10);
    assert_eq!(
        profile.reasons.len(),
        10,
        "all ten must survive the default bounds; the count cap is a runaway              guard, not a routine cut:
{:?}",
        profile.reasons.iter().map(|r| &r.code).collect::<Vec<_>>()
    );
    assert!(
        profile.reasons.iter().any(|r| r.code == "policy-change"),
        "the code this field exists for must not be the one dropped"
    );
    assert!(
        !profile.findings.is_empty(),
        "reasons-first must not starve findings entirely"
    );
}

#[test]
fn the_true_ceiling_of_twenty_still_leaves_room_for_findings() {
    let mut record = sample_record();

    let mut reasons: Vec<VerdictReason> = (0..7)
        .map(|i| VerdictReason {
            code: "tamper-signal".to_string(),
            severity: Severity::Critical,
            message: format!(
                "tamper.detector-number-{i} fired on this change; the detector read a                      partial view, so its reported severity is capped and its finding is a                      lower bound — a firing is still a firing"
            ),
            metric_ids: vec![format!("tamper.detector-{i}")],
        })
        .collect();

    let long = "policy loosened with no ledgered justification:                     sandbox.test_timeout_ms: 600000 -> 30000 (loosens), and the justification                     the rule requires was not found in the ledger for this change";
    for code in [
        "test-failure",
        "severity-med-plus",
        "finding-advisory",
        "policy-change",
        "policy-change-loosening",
        "engine-unavailable",
        "engine-spilled-async",
        "change-not-read",
        "evidence-stale",
        "evidence-registry-skew",
        "measurement-incomplete",
        "iteration-state-reset",
        "iteration-cap",
    ] {
        reasons.push(VerdictReason {
            code: code.to_string(),
            severity: Severity::Medium,
            message: long.to_string(),
            metric_ids: Vec::new(),
        });
    }
    assert_eq!(reasons.len(), 20, "the derived ceiling is 20");
    record.verdict.reasons = reasons;

    let bounds = AgentProfileBounds::default();
    let profile = build_agent_profile(&record, &bounds);

    assert_eq!(profile.total_reasons, 20);
    assert_eq!(
        profile.reasons.len(),
        20,
        "the count cap is derived to admit exactly this case; if it drops one              here the derivation is wrong:
{:?}",
        profile.reasons.iter().map(|r| &r.code).collect::<Vec<_>>()
    );
    assert!(
        !profile.findings.is_empty(),
        "twenty long reasons must not starve findings entirely — an agent needs              where as well as why:
{profile:?}"
    );
    assert!(
        encoded_len(&profile) <= bounds.budget_bytes,
        "the budget is a guarantee at the ceiling too, not only in the common case"
    );
}

#[test]
fn a_squeezed_budget_keeps_why_and_drops_detail() {
    let mut record = sample_record();
    record.verdict.reasons = vec![loosening_reason()];

    let bounds = AgentProfileBounds {
        budget_bytes: 900,
        ..AgentProfileBounds::default()
    };
    let profile = build_agent_profile(&record, &bounds);

    assert!(
        !profile.reasons.is_empty(),
        "the reason must survive a squeeze that cuts findings:
{profile:?}"
    );
    assert!(
        profile.truncated,
        "a squeeze that drops anything has to say so"
    );
    assert!(
        encoded_len(&profile) <= bounds.budget_bytes,
        "the budget is a guarantee, not a target"
    );
}

fn record_with(count: usize, width: usize, filler: char) -> MeasurementRecord {
    let mut record = sample_record();
    record.results = (0..count)
        .map(|i| {
            let mut result: MeasurementResult = sample_result();
            let pad: String = std::iter::repeat(filler).take(width).collect();
            result.metric_id = format!("{i}.{pad}");
            result.claim_id = format!("claim.{i}.{pad}");
            result.scope.path = Some(format!("src/{pad}.ts"));
            result.scope.symbol = Some(pad.clone());
            result.severity = match i % 5 {
                0 => Severity::Critical,
                1 => Severity::High,
                2 => Severity::Medium,
                3 => Severity::Low,
                _ => Severity::Info,
            };
            result
        })
        .collect();
    record
}

#[test]
fn the_default_budget_comes_from_policy() {
    let policy = Policy::default();
    let bounds = AgentProfileBounds::from_token_budget(
        policy.agent.profile_token_budget,
        policy.agent.bytes_per_token,
    );
    assert_eq!(bounds, AgentProfileBounds::default());
    assert_eq!(bounds.budget_bytes, 1500 * 4);
}

#[test]
fn a_typical_record_is_not_truncated() {
    let record = record_with(5, 24, 'a');
    let profile = build_agent_profile(&record, &AgentProfileBounds::default());
    assert!(!profile.truncated, "an ordinary record must fit");
    assert_eq!(profile.findings.len(), 5);
    assert_eq!(profile.total_findings, 5);
}

#[test]
fn truncation_is_announced_rather_than_silent() {
    let record = record_with(400, 64, 'x');
    let profile = build_agent_profile(&record, &AgentProfileBounds::default());
    assert!(profile.truncated);
    assert_eq!(
        profile.total_findings, 400,
        "the agent must be able to see how much it is not being shown"
    );
    assert!(profile.findings.len() < 400);
}

#[test]
fn the_worst_findings_survive_truncation() {
    let record = record_with(200, 40, 'y');
    let profile = build_agent_profile(&record, &AgentProfileBounds::default());
    assert!(profile.truncated);
    assert!(
        profile
            .findings
            .iter()
            .all(|f| f.severity == Severity::Critical),
        "truncation must drop the least serious findings, not an arbitrary slice"
    );
}

#[test]
fn the_projection_is_deterministic() {
    let record = record_with(100, 50, 'z');
    let bounds = AgentProfileBounds::default();
    assert_eq!(
        build_agent_profile(&record, &bounds),
        build_agent_profile(&record, &bounds)
    );
}

#[test]
fn the_profile_names_its_view() {
    let profile = build_agent_profile(&sample_record(), &AgentProfileBounds::default());
    assert_eq!(profile.profile, PROFILE_NAME);
}

#[test]
fn the_encoded_profile_never_exceeds_the_budget() {
    let bounds = AgentProfileBounds::default();
    for filler in ['a', '\u{1}', '"', '\\', '\u{4e2d}', '\u{7}'] {
        for (count, width) in [(0, 0), (1, 199), (37, 120), (299, 3), (80, 64)] {
            let profile = build_agent_profile(&record_with(count, width, filler), &bounds);
            let size = encoded_len(&profile);
            assert!(
                size <= bounds.budget_bytes,
                "{size} bytes with {count} findings of width {width} ({filler:?})"
            );
        }
    }
}

#[test]
fn a_small_budget_truncates_instead_of_overflowing() {
    for budget in [0, 600, 700, 900, 1500, 2999] {
        let bounds = AgentProfileBounds {
            budget_bytes: budget,
            ..AgentProfileBounds::default()
        };
        let profile = build_agent_profile(&record_with(40, 48, 'q'), &bounds);
        if !profile.findings.is_empty() || !profile.reasons.is_empty() {
            assert!(encoded_len(&profile) <= budget);
        }
        assert!(profile.truncated, "dropped findings must set the flag");
    }
}

#[test]
fn a_profile_is_written_exactly() {
    let mut record = sample_record();
    record.results.clear();
    record.verdict.reasons.clear();
    record.compare_context.base_oid = "b".to_string();
    record.compare_context.head_oid = "h".to_string();
    let profile = build_agent_profile(&record, &AgentProfileBounds::default());
    let text = andon_core::canonical::to_canonical_string(&profile.to_json().unwrap());
    assert_eq!(
        text,
        [
            r#"{"attestation":"unwitnessed","base_oid":"b","completeness":"complete","#,
            r#""counts_downstream":false,"findings":[],"head_kind":"commit","head_oid":"h","#,
            r#""iteration":{"cap":3,"count":1,"escalated":false},"measured_instead":null,"#,
            r#""profile":"agent-mode","reasons":[],"schema_version":1,"total_findings":0,"#,
            r#""total_reasons":0,"truncated":false,"unread_paths":0,"verdict":"advise","#,
            r#""verdict_invalid":false,"withheld_paths":0}"#,
        ]
        .concat()
    );
    assert_eq!(encoded_len(&profile), text.len());
}

#[test]
fn a_finding_that_cannot_be_carried_is_left_out_and_announced() {
    let mut record = sample_record();
    record.results[0].value = MetricValue::Ratio(Ratio::NotANumber);
    let profile = build_agent_profile(&record, &AgentProfileBounds::default());
    assert!(profile.findings.is_empty());
    assert!(profile.truncated);
    assert_eq!(profile.reasons.len(), 1);
}

#[test]
fn a_scope_without_a_path_renders_its_symbol_or_its_kind() {
    let mut record = sample_record();
    record.results[0].scope.path = None;
    let mut bare = sample_result();
    bare.metric_id = "zzz".to_string();
    bare.scope.kind = ScopeKind::Repository;
    bare.scope.path = None;
    bare.scope.symbol = None;
    record.results.push(bare);
    let profile = build_agent_profile(&record, &AgentProfileBounds::default());
    assert_eq!(profile.findings[0].scope, "handleRequest");
    assert_eq!(profile.findings[1].scope, "repository");
}

#[test]
fn findings_come_worst_first() {
    let profile = build_agent_profile(&record_with(60, 8, 'w'), &AgentProfileBounds::default());
    assert!(profile.findings.len() > 1);
    for pair in profile.findings.windows(2) {
        assert!(pair[0].severity >= pair[1].severity);
        if pair[0].severity == pair[1].severity {
            assert!(pair[0].metric_id <= pair[1].metric_id);
        }
    }
}

#[test]
fn a_header_of_escapes_still_fits_the_default_budget() {
    let mut record = record_with(30, 100, '\u{1}');
    let noise: String = std::iter::repeat('\u{1}').take(4000).collect();
    record.compare_context.base_oid = noise.clone();
    record.compare_context.head_oid = noise;
    let bounds = AgentProfileBounds::default();
    let profile = build_agent_profile(&record, &bounds);
    assert!(encoded_len(&profile) <= bounds.budget_bytes);
}
