//! Self-measurement provenance.

use andon_core::selfmeasure::{OverrideReason, SelfMeasureOverride, SelfMeasureProvenance};

#[test]
fn an_override_is_never_clean_even_when_attested() {
    let provenance = SelfMeasureProvenance {
        measuring_binary_version: "0.1.0".into(),
        measuring_binary_oid: "a".repeat(40),
        attested: true,
        override_record: Some(SelfMeasureOverride {
            reason: OverrideReason::KnownDetectorDefect,
            justification: "detector 3 misfires on generated code".into(),
            reference: "gtm-k/andon#12".into(),
            approved_by: "gtm-k".into(),
            head_oid: "b".repeat(40),
        }),
        excluded_paths: vec![],
        exclusion_drift: false,
    };
    assert!(!provenance.is_clean());
}

#[test]
fn exclusion_drift_alone_makes_a_run_unclean() {
    let provenance = SelfMeasureProvenance {
        measuring_binary_version: "0.1.0".into(),
        measuring_binary_oid: "a".repeat(40),
        attested: true,
        override_record: None,
        excluded_paths: vec!["fixtures/gamed/**".into()],
        exclusion_drift: true,
    };
    assert!(!provenance.is_clean());
}

#[test]
fn an_attested_run_without_override_or_drift_is_clean() {
    let mut provenance = SelfMeasureProvenance {
        measuring_binary_version: "0.1.0".into(),
        measuring_binary_oid: "a".repeat(40),
        attested: true,
        override_record: None,
        excluded_paths: vec![],
        exclusion_drift: false,
    };
    assert!(provenance.is_clean());
    provenance.attested = false;
    assert!(!provenance.is_clean());
}

#[test]
fn override_reasons_are_spelled_as_specified() {
    for (reason, spelling) in [
        (
            OverrideReason::BootstrapNoAttestedRelease,
            "bootstrap-no-attested-release",
        ),
        (
            OverrideReason::EngineChangeUnderReview,
            "engine-change-under-review",
        ),
        (OverrideReason::KnownDetectorDefect, "known-detector-defect"),
        (
            OverrideReason::InfrastructureUnavailable,
            "infrastructure-unavailable",
        ),
        (
            OverrideReason::ReviewedFalsePositive,
            "reviewed-false-positive",
        ),
    ] {
        assert_eq!(reason.wire(), spelling);
    }
}
