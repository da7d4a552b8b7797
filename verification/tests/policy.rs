//! Policy defaults, refusals and hashing.

use andon_core::canonical::to_canonical_string;
use andon_core::policy::{Policy, PolicyError, DEFAULT_CLAIM_BUDGET, DEFAULT_ITERATION_CAP};
use andon_core::schema::enums::Severity;

#[test]
fn defaults_are_conservative() {
    let policy = Policy::default();
    assert!(policy.severity.block_on_tamper);
    assert!(policy.severity.block_on_test_failure);
    assert!(policy.severity.med_plus_requires_diff_actionable);
    assert_eq!(
        policy.severity.max_severity_for_c_tier,
        Severity::Low,
        "C-tier evidence must never reach a blocking severity"
    );
    assert_eq!(policy.loop_policy.iteration_cap, DEFAULT_ITERATION_CAP);
    assert_eq!(policy.registry.claim_budget, DEFAULT_CLAIM_BUDGET);
}

#[test]
fn a_future_schema_version_is_refused() {
    let mut newer = Policy::default();
    newer.schema_version = 2;
    assert!(matches!(
        Policy::from_parsed(Ok(newer)),
        Err(PolicyError::UnsupportedVersion { found: 2, .. })
    ));
    assert_eq!(Policy::from_parsed(Ok(Policy::default())), Ok(Policy::default()));
    assert_eq!(
        Policy::from_parsed(Err("bad".to_string())),
        Err(PolicyError::Toml("bad".to_string()))
    );
}

#[test]
fn policy_hash_tracks_content_not_field_order() {
    let mut a = Policy::default();
    a.loop_policy.iteration_cap = 5;
    let mut b = Policy::default();
    b.loop_policy.iteration_cap = 5;
    assert_eq!(a.policy_hash().unwrap(), b.policy_hash().unwrap());
    let mut c = Policy::default();
    c.loop_policy.iteration_cap = 6;
    assert_ne!(a.policy_hash().unwrap(), c.policy_hash().unwrap());
    assert_eq!(a.policy_hash().unwrap().len(), 64);
}

#[test]
fn a_policy_is_written_section_by_section() {
    let text = to_canonical_string(&Policy::default().to_json());
    assert!(text.contains(r#""loop":{"count_context_informational":false,"iteration_cap":3}"#));
    assert!(text.contains(r#""med_plus_tiers":["A","B"]"#), "{text}");
}

#[test]
fn policy_errors_read_as_sentences() {
    assert_eq!(
        PolicyError::Toml("expected `=`".to_string()).describe(),
        "policy is not valid TOML: expected `=`"
    );
}
