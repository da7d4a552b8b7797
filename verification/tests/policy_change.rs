//! Policy edits inside a change, and which way they move the bar.

use andon_core::canonical::Json;
use andon_core::policy::{
    AgentPolicy, HistoryPolicy, LoopPolicy, PerfPolicy, Policy, PolicyError, RegistryPolicy,
    SandboxPolicy, SelfMeasureBinary, SelfMeasurePolicy, SeverityPolicy,
};
use andon_core::schema::enums::{EvidenceTier, Severity};
use andon_core::verdict::policy_change::{
    direction_of, evaluate, knob, resolve, Direction, Justification, Knob, PolicyChange,
    PolicyDelta,
};

fn justified() -> Justification {
    Justification::Verified {
        reference: "refs/notes/andon-measure@abcdef".to_string(),
        summary: "perf budget raised for the 100k-file fixture; measured".to_string(),
    }
}

fn direction_for(field: &str, change: impl FnOnce(&mut Policy)) -> Direction {
    let base = Policy::default();
    let mut head = base.clone();
    change(&mut head);
    let out = evaluate(&base, &head, None);
    out.deltas
        .iter()
        .find(|d| d.field == field)
        .unwrap_or_else(|| panic!("{field} did not appear in {:?}", out.deltas))
        .direction
}

#[test]
fn an_unedited_policy_produces_no_finding() {
    let change = evaluate(&Policy::default(), &Policy::default(), None);
    assert!(change.is_empty());
    assert!(!change.stops_the_line());
}

#[test]
fn turning_tamper_blocking_off_is_a_loosening_and_blocks_unjustified() {
    let base = Policy::default();
    let mut head = base.clone();
    head.severity.block_on_tamper = false;
    let change = evaluate(&base, &head, None);
    assert_eq!(change.deltas.len(), 1);
    assert_eq!(change.deltas[0].field, "severity.block_on_tamper");
    assert_eq!(change.deltas[0].before, "true");
    assert_eq!(change.deltas[0].after, "false");
    assert_eq!(change.deltas[0].direction, Direction::Loosening);
    assert!(change.stops_the_line());
}

#[test]
fn the_same_loosening_with_a_justification_does_not_block() {
    let base = Policy::default();
    let mut head = base.clone();
    head.severity.block_on_tamper = false;
    let change = evaluate(&base, &head, Some(justified()));
    assert!(!change.stops_the_line());
    assert_eq!(
        change.loosenings().len(),
        1,
        "still reported, not blocking"
    );
}

#[test]
fn a_tightening_never_blocks_even_unjustified() {
    let base = Policy::default();
    let mut head = base.clone();
    head.loop_policy.iteration_cap = 1;
    let change = evaluate(&base, &head, None);
    assert_eq!(change.deltas[0].direction, Direction::Tightening);
    assert!(!change.stops_the_line());
}

#[test]
fn raising_the_iteration_cap_loosens() {
    assert_eq!(
        direction_for("loop.iteration_cap", |p| p.loop_policy.iteration_cap = 20),
        Direction::Loosening
    );
}

#[test]
fn lowering_the_c_tier_ceiling_loosens_and_raising_it_tightens() {
    assert_eq!(
        direction_for("severity.max_severity_for_c_tier", |p| p
            .severity
            .max_severity_for_c_tier =
            Severity::Info),
        Direction::Loosening
    );
    assert_eq!(
        direction_for("severity.max_severity_for_c_tier", |p| p
            .severity
            .max_severity_for_c_tier =
            Severity::High),
        Direction::Tightening
    );
}

#[test]
fn dropping_a_tier_from_the_med_plus_band_loosens() {
    assert_eq!(
        direction_for("severity.med_plus_tiers", |p| p.severity.med_plus_tiers =
            vec![EvidenceTier::A]),
        Direction::Loosening
    );
    assert_eq!(
        direction_for("severity.med_plus_tiers", |p| p.severity.med_plus_tiers =
            vec![EvidenceTier::A, EvidenceTier::B, EvidenceTier::C]),
        Direction::Tightening
    );
}

#[test]
fn widening_the_self_measure_exclusions_loosens() {
    assert_eq!(
        direction_for("self_measure.excluded_paths", |p| p
            .self_measure
            .excluded_paths
            .push("crates/**".to_string())),
        Direction::Loosening
    );
}

#[test]
fn an_exclusion_added_alongside_one_removed_still_loosens() {
    assert_eq!(
        direction_for("self_measure.excluded_paths", |p| {
            p.self_measure.excluded_paths = vec!["crates/**".to_string()];
        }),
        Direction::Loosening
    );
}

#[test]
fn reordering_a_list_is_neither_direction() {
    assert_eq!(
        direction_for("self_measure.excluded_paths", |p| p
            .self_measure
            .excluded_paths
            .reverse()),
        Direction::Neutral
    );
}

#[test]
fn taking_the_bootstrap_exception_is_a_loosening() {
    assert_eq!(
        direction_for("self_measure.binary", |p| p.self_measure.binary =
            SelfMeasureBinary::CurrentBuild),
        Direction::Loosening
    );
}

#[test]
fn removing_the_diff_actionable_requirement_tightens_not_loosens() {
    assert_eq!(
        direction_for("severity.med_plus_requires_diff_actionable", |p| p
            .severity
            .med_plus_requires_diff_actionable =
            false),
        Direction::Tightening
    );
}

#[test]
fn counting_context_informational_findings_tightens() {
    assert_eq!(
        direction_for("loop.count_context_informational", |p| p
            .loop_policy
            .count_context_informational =
            true),
        Direction::Tightening
    );
}

#[test]
fn the_history_window_moves_without_loosening_or_tightening() {
    assert_eq!(
        direction_for("history.window_days", |p| p.history.window_days = 30),
        Direction::Neutral
    );
}

#[test]
fn adding_a_policy_file_is_compared_against_the_defaults() {
    let base = resolve(None).expect("absent policy resolves to the defaults");
    let mut parsed = Policy::default();
    parsed.severity.block_on_tamper = false;
    let head = resolve(Some(Ok(parsed))).expect("parses");
    let change = evaluate(&base, &head, None);
    assert!(change.stops_the_line());
    assert_eq!(change.deltas[0].field, "severity.block_on_tamper");
}

#[test]
fn several_edits_are_reported_in_path_order() {
    let base = Policy::default();
    let mut head = base.clone();
    head.severity.block_on_tamper = false;
    head.loop_policy.iteration_cap = 9;
    head.history.window_days = 90;
    let change = evaluate(&base, &head, None);
    let fields: Vec<&str> = change.deltas.iter().map(|d| d.field.as_str()).collect();
    assert_eq!(
        fields,
        vec![
            "history.window_days",
            "loop.iteration_cap",
            "severity.block_on_tamper"
        ]
    );
}

#[test]
fn an_unknown_field_is_reported_and_never_blocks() {
    assert_eq!(
        direction_of(
            "severity.some_future_knob",
            &Json::Bool(true),
            &Json::Bool(false)
        ),
        Direction::Unclassified
    );
    let change = PolicyChange {
        deltas: vec![PolicyDelta {
            field: "severity.some_future_knob".to_string(),
            before: "true".to_string(),
            after: "false".to_string(),
            direction: Direction::Unclassified,
        }],
        justification: None,
    };
    assert!(
        !change.stops_the_line(),
        "a field nobody classified never blocks"
    );
}

#[test]
fn policy_v1_is_fully_classified() {
    let unclassified: Vec<String> = schema_leaves()
        .into_iter()
        .filter(|field| knob(field).is_none())
        .collect();
    assert!(
        unclassified.is_empty(),
        "policy fields with no direction recorded: {unclassified:?}"
    );
}

/// Every field of the policy types, by dotted path. Each type is taken apart with
/// no field left out, so a field this list does not name does not compile.
fn schema_leaves() -> Vec<String> {
    let Policy {
        schema_version: _,
        severity,
        loop_policy,
        agent,
        perf,
        history,
        registry,
        self_measure,
        sandbox,
    } = Policy::default();
    let SeverityPolicy {
        block_on_tamper: _,
        block_on_test_failure: _,
        max_severity_for_c_tier: _,
        med_plus_requires_diff_actionable: _,
        med_plus_tiers: _,
    } = severity;
    let LoopPolicy {
        iteration_cap: _,
        count_context_informational: _,
    } = loop_policy;
    let AgentPolicy {
        profile_token_budget: _,
        bytes_per_token: _,
    } = agent;
    let PerfPolicy {
        fast_lane_warm_p95_ms: _,
        fast_lane_warm_fallback_p95_ms: _,
        fast_lane_cold_cap_ms: _,
        max_git_spawns_per_measure: _,
    } = perf;
    let HistoryPolicy {
        window_days: _,
    } = history;
    let RegistryPolicy {
        claim_budget: _,
        max_claims_expiring_per_month: _,
    } = registry;
    let SelfMeasurePolicy {
        binary: _,
        excluded_paths: _,
        exclusion_drift_signal: _,
    } = self_measure;
    let SandboxPolicy {
        enabled: _,
        test_command: _,
        test_timeout_ms: _,
        env_allow: _,
        memory_limit_mb: _,
    } = sandbox;
    let mut out: Vec<String> = vec!["schema_version".to_string()];
    for (section, fields) in [
        (
            "severity",
            vec![
                "block_on_tamper",
                "block_on_test_failure",
                "max_severity_for_c_tier",
                "med_plus_requires_diff_actionable",
                "med_plus_tiers",
            ],
        ),
        (
            "loop",
            vec![
                "iteration_cap",
                "count_context_informational",
            ],
        ),
        (
            "agent",
            vec![
                "profile_token_budget",
                "bytes_per_token",
            ],
        ),
        (
            "perf",
            vec![
                "fast_lane_warm_p95_ms",
                "fast_lane_warm_fallback_p95_ms",
                "fast_lane_cold_cap_ms",
                "max_git_spawns_per_measure",
            ],
        ),
        (
            "history",
            vec![
                "window_days",
            ],
        ),
        (
            "registry",
            vec![
                "claim_budget",
                "max_claims_expiring_per_month",
            ],
        ),
        (
            "self_measure",
            vec![
                "binary",
                "excluded_paths",
                "exclusion_drift_signal",
            ],
        ),
        (
            "sandbox",
            vec![
                "enabled",
                "test_command",
                "test_timeout_ms",
                "env_allow",
                "memory_limit_mb",
            ],
        ),
    ] {
        for field in fields {
            out.push(format!("{section}.{field}"));
        }
    }
    out.sort();
    out
}

/// Every leaf that a policy writes, by dotted path.
fn written_leaves(policy: &Policy) -> Vec<String> {
    fn walk(prefix: &str, value: &Json, out: &mut Vec<String>) {
        match value {
            Json::Members(members) => {
                for (key, inner) in members {
                    let path = if prefix.is_empty() {
                        key.clone()
                    } else {
                        format!("{prefix}.{key}")
                    };
                    walk(&path, inner, out);
                }
            }
            _ => out.push(prefix.to_string()),
        }
    }
    let mut out = Vec::new();
    walk("", &policy.to_json(), &mut out);
    out.sort();
    out
}

#[test]
fn the_classification_guard_reads_the_type_and_not_an_instance() {
    let leaves = schema_leaves();
    for expected in [
        "severity.block_on_tamper",
        "severity.med_plus_tiers",
        "loop.iteration_cap",
        "self_measure.excluded_paths",
    ] {
        assert!(
            leaves.iter().any(|f| f == expected),
            "the walk missed {expected}: {leaves:?}"
        );
    }
    assert!(leaves.len() >= 12, "{leaves:?}");
}

#[test]
fn a_policy_writes_every_field_of_its_type() {
    let mut filled = Policy::default();
    filled.sandbox.test_command = Some("make".to_string());
    filled.sandbox.memory_limit_mb = Some(512);
    filled.sandbox.env_allow = vec!["PATH".to_string()];
    filled.self_measure.excluded_paths = vec!["vendor/".to_string()];
    for policy in [Policy::default(), filled] {
        assert_eq!(written_leaves(&policy), schema_leaves());
    }
}

#[test]
fn deltas_ascend_and_name_no_field_twice() {
    let base = Policy::default();
    let mut head = base.clone();
    head.severity.block_on_tamper = false;
    head.severity.med_plus_tiers = Vec::new();
    head.loop_policy.iteration_cap = 9;
    head.agent.bytes_per_token = 7;
    head.sandbox.test_command = Some("make".to_string());
    head.sandbox.enabled = !base.sandbox.enabled;
    head.history.window_days = 1;
    let fields: Vec<String> = evaluate(&base, &head, None)
        .deltas
        .iter()
        .map(|d| d.field.clone())
        .collect();
    assert_eq!(fields.len(), 7);
    assert!(fields.windows(2).all(|w| w[0] < w[1]), "{fields:?}");
}

#[test]
fn undoing_a_tightening_is_a_loosening() {
    let base = Policy::default();
    let mut head = base.clone();
    head.loop_policy.iteration_cap = 1;
    assert_eq!(
        evaluate(&base, &head, None).deltas[0].direction,
        Direction::Tightening
    );
    let undone = evaluate(&head, &base, None);
    assert_eq!(undone.deltas[0].direction, Direction::Loosening);
    assert!(undone.stops_the_line());
    assert_eq!(
        undone.deltas[0].describe(),
        "loop.iteration_cap: 1 -> 3 (loosens)"
    );
}

#[test]
fn a_shorter_test_timeout_loosens() {
    assert_eq!(
        direction_for("sandbox.test_timeout_ms", |p| p.sandbox.test_timeout_ms = 30_000),
        Direction::Loosening
    );
    assert_eq!(knob("sandbox.test_timeout_ms"), Some(Knob::Floor));
}

#[test]
fn a_policy_that_does_not_parse_or_is_too_new_does_not_resolve() {
    assert_eq!(
        resolve(Some(Err("expected a table".to_string()))),
        Err(PolicyError::Toml("expected a table".to_string()))
    );
    let mut newer = Policy::default();
    newer.schema_version = 2;
    let err = resolve(Some(Ok(newer))).expect_err("refused");
    assert_eq!(
        err,
        PolicyError::UnsupportedVersion {
            found: 2,
            expected: 1
        }
    );
    assert_eq!(
        err.describe(),
        "unsupported policy schema_version 2 (expected 1)"
    );
}

#[test]
fn an_edit_in_any_section_is_reported_under_a_known_field() {
    let base = Policy::default();
    let edits: Vec<(&str, fn(&mut Policy))> = vec![
        ("schema_version", |p| p.schema_version = 2),
        ("severity.med_plus_tiers", |p| {
            p.severity.med_plus_tiers.clear()
        }),
        ("loop.iteration_cap", |p| p.loop_policy.iteration_cap += 1),
        ("agent.bytes_per_token", |p| p.agent.bytes_per_token += 1),
        ("perf.fast_lane_cold_cap_ms", |p| {
            p.perf.fast_lane_cold_cap_ms += 1
        }),
        ("history.window_days", |p| p.history.window_days += 1),
        ("registry.claim_budget", |p| p.registry.claim_budget += 1),
        ("self_measure.excluded_paths", |p| {
            p.self_measure.excluded_paths.push("vendored/".to_string())
        }),
        ("sandbox.test_command", |p| {
            p.sandbox.test_command = Some("make check".to_string())
        }),
    ];
    for (field, edit) in edits {
        let mut head = base.clone();
        edit(&mut head);
        let change = evaluate(&base, &head, None);
        let fields: Vec<&str> = change.deltas.iter().map(|d| d.field.as_str()).collect();
        assert_eq!(fields, vec![field]);
        assert!(knob(field).is_some());
    }
}
