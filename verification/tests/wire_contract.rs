//! The wire spellings, pinned.

use andon_core::canonical::to_canonical_string;
use andon_core::registry::{Claim, ResolvedClaim};
use andon_core::schema::enums::{
    Attestation, Completeness, EngineClass, EngineFamily, EvidenceTier, InvocationSource,
    MetricClass, TamperSignal, Verdict,
};
use andon_core::schema::payload::{HeadKind, Reserved, Substitution};
use andon_core::selfmeasure::SelfMeasureProvenance;
use andon_core::testing::sample_record;

#[test]
fn verdict_values_are_exactly_as_specified() {
    assert_eq!(Verdict::Pass.wire(), "pass");
    assert_eq!(Verdict::Advise.wire(), "advise");
    assert_eq!(Verdict::Block.wire(), "block");
    assert_eq!(Verdict::EscalateToHuman.wire(), "escalate_to_human");
}

#[test]
fn all_six_attestation_values_are_exactly_as_specified() {
    let expected = [
        (Attestation::Confirmed, "confirmed"),
        (Attestation::ConfirmedStatic, "confirmed-static"),
        (Attestation::Divergent, "divergent"),
        (Attestation::Unwitnessed, "unwitnessed"),
        (
            Attestation::UnwitnessedVersionSkew,
            "unwitnessed-version-skew",
        ),
        (
            Attestation::UnwitnessedBaseMismatch,
            "unwitnessed-base-mismatch",
        ),
    ];
    for (value, spelling) in expected {
        assert_eq!(value.wire(), spelling);
    }
    assert_eq!(expected.len(), 6, "the enum has exactly six values");
}

#[test]
fn only_confirmed_values_count_downstream() {
    assert!(Attestation::Confirmed.counts_downstream());
    assert!(Attestation::ConfirmedStatic.counts_downstream());
    for value in [
        Attestation::Divergent,
        Attestation::Unwitnessed,
        Attestation::UnwitnessedVersionSkew,
        Attestation::UnwitnessedBaseMismatch,
    ] {
        assert!(!value.counts_downstream(), "{value:?} must not count");
    }
}

#[test]
fn completeness_values_are_exactly_as_specified() {
    assert_eq!(Completeness::Complete.wire(), "complete");
    assert_eq!(Completeness::Partial.wire(), "partial");
    assert_eq!(Completeness::ParseDegraded.wire(), "parse-degraded");
    assert_eq!(Completeness::Unwitnessed.wire(), "unwitnessed");
}

#[test]
fn the_tamper_vocabulary_is_complete_and_includes_base_fabrication() {
    let expected = [
        (TamperSignal::SuppressionDensity, "suppression-density"),
        (TamperSignal::TestRemoval, "test-removal"),
        (
            TamperSignal::CoverageExclusionDrift,
            "coverage-exclusion-drift",
        ),
        (TamperSignal::AssertionFreeTest, "assertion-free-test"),
        (TamperSignal::ThresholdConfigEdit, "threshold-config-edit"),
        (TamperSignal::LookupTableBlowup, "lookup-table-blowup"),
        (TamperSignal::ParseErrorDelta, "parse-error-delta"),
        (TamperSignal::BaseFabrication, "base-fabrication"),
    ];
    for (value, spelling) in expected {
        assert_eq!(value.wire(), spelling);
    }
    assert_eq!(
        expected.len(),
        8,
        "seven P3 detectors plus base-fabrication"
    );
}

#[test]
fn invocation_source_values_are_exactly_as_specified() {
    assert_eq!(InvocationSource::Hook.wire(), "hook");
    assert_eq!(InvocationSource::AgentInitiated.wire(), "agent-initiated");
    assert_eq!(InvocationSource::HumanCli.wire(), "human-cli");
    assert_eq!(InvocationSource::CiVerifier.wire(), "ci-verifier");
}

#[test]
fn engine_and_metric_classes_are_exactly_as_specified() {
    assert_eq!(EngineClass::StaticSafe.wire(), "static-safe");
    assert_eq!(EngineClass::CodeExec.wire(), "code-exec");
    assert_eq!(MetricClass::DiffActionable.wire(), "diff-actionable");
    assert_eq!(
        MetricClass::ContextInformational.wire(),
        "context-informational"
    );
}

#[test]
fn every_engine_family_is_present() {
    for (family, spelling) in [
        (EngineFamily::Static, "static"),
        (EngineFamily::Clones, "clones"),
        (EngineFamily::Tamper, "tamper"),
        (EngineFamily::Process, "process"),
        (EngineFamily::Artifacts, "artifacts"),
    ] {
        assert_eq!(family.wire(), spelling);
    }
}

#[test]
fn reserved_fields_serialize_as_null_rather_than_being_omitted() {
    assert_eq!(
        to_canonical_string(&Reserved::default().to_json()),
        r#"{"package_scope":null,"run_id":null,"workspace_id":null}"#
    );

    let record = to_canonical_string(&sample_record().to_json().unwrap());
    for field in ["run_id", "workspace_id", "package_scope"] {
        assert!(
            record.contains(&format!("\"{field}\":null")),
            "{field} must appear in every record"
        );
    }
}

#[test]
fn the_compare_tuple_is_present_on_every_record() {
    let record = to_canonical_string(&sample_record().to_json().unwrap());
    assert!(record.contains("\"base_oid\""));
    assert!(record.contains("\"head_oid\""));
}

#[test]
fn a_fresh_record_does_not_default_to_a_pass() {
    let record = sample_record();
    assert_eq!(record.attestation.value, Attestation::Unwitnessed);
    assert!(!record.attestation.value.counts_downstream());
}

fn claim(expiry: &str) -> Claim {
    Claim {
        claim_id: "andon.static.cognitive@1|typescript|comprehension-time".into(),
        implementation: "andon.static.cognitive".into(),
        implementation_version: "1".into(),
        language: "typescript".into(),
        outcome: "comprehension-time".into(),
        tier: EvidenceTier::B,
        citation: "Munoz Baron, Wyrich & Wagner, ESEM 2020".into(),
        citation_ref: None,
        population: "427 snippets".into(),
        effect: "correlates with comprehension time".into(),
        does_not_predict: vec!["defect density".into()],
        owner: "gtm-k".into(),
        expiry: expiry.parse().unwrap(),
    }
}

#[test]
fn an_expired_claim_carries_its_staleness_into_the_payload() {
    let fresh = ResolvedClaim {
        claim: claim("2027-03-15"),
        stale: false,
    };
    assert!(!fresh.to_evidence_ref().stale);

    let expired = ResolvedClaim {
        claim: claim("2026-01-15"),
        stale: true,
    };
    let evidence = expired.to_evidence_ref();
    assert!(evidence.stale, "the demotion must reach the payload");
    assert_eq!(evidence.tier, EvidenceTier::B, "the tier is not rewritten");
    assert_eq!(
        evidence.does_not_predict,
        vec!["defect density".to_string()],
        "the honesty field survives the projection"
    );
}

#[test]
fn a_sample_record_is_written_exactly() {
    let mut record = sample_record();
    record.results.clear();
    record.substitution = Some(Substitution {
        requested: "HEAD".to_string(),
        measured: "worktree".to_string(),
    });
    record.self_measure = Some(SelfMeasureProvenance {
        measuring_binary_version: "0.1.0".to_string(),
        measuring_binary_oid: "a".to_string(),
        attested: false,
        override_record: None,
        excluded_paths: vec!["x/**".to_string()],
        exclusion_drift: false,
    });
    record.compare_context.base_oid = "b".to_string();
    record.compare_context.head_oid = "h".to_string();
    record.compare_context.head_kind = HeadKind::UncommittedIndex;
    record.tool.build_oid = "t".to_string();
    record.policy_hash = "p".to_string();
    assert_eq!(
        to_canonical_string(&record.to_json().unwrap()),
        concat_all(&[
            r#"{"attestation":{"compare":null,"tamper_signals":[],"value":"unwitnessed","verifier":null},"#,
            r#""compare_context":{"base_oid":"b","base_resolution":"merge-base","git_version":"2.39.0","head_kind":"uncommitted-index","head_oid":"h"},"#,
            r#""completeness":"complete","#,
            r#""invocation":{"author":"gtm-k","harness":"sample-harness","iteration":1,"model":"test-model","source":"hook"},"#,
            r#""policy_hash":"p","record_kind":"self-report","#,
            r#""reserved":{"package_scope":null,"run_id":null,"workspace_id":null},"#,
            r#""results":[],"schema_version":1,"#,
            r#""self_measure":{"attested":false,"excluded_paths":["x/**"],"exclusion_drift":false,"measuring_binary_oid":"a","measuring_binary_version":"0.1.0","override_record":null},"#,
            r#""substitution":{"measured":"worktree","requested":"HEAD"},"#,
            r#""tool":{"attested_release":false,"build_oid":"t","name":"andon","version":"0.1.0"},"#,
            r#""unreadable_paths":[],"#,
            r#""verdict":{"iteration":{"cap":3,"count":1,"escalated":false},"reasons":[{"code":"metric-delta","message":"the sample metric rose by 4","metric_ids":["sample.metric"],"severity":"low"}],"verdict":"advise"}}"#,
        ])
    );
}

fn concat_all(parts: &[&str]) -> String {
    parts.concat()
}
