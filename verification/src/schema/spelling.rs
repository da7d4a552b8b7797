//! What each spelling stands for.
use vstd::prelude::*;

use crate::policy::SelfMeasureBinary;
use crate::schema::enums::{
    Attestation, Completeness, EngineClass, EngineFamily, EvidenceTier, InvocationSource, Lane,
    MetricClass, RecordKind, Severity, TamperSignal, Verdict,
};
use crate::schema::payload::{CacheState, HeadKind, MetricValue, ScopeKind};
use crate::selfmeasure::OverrideReason;

verus! {

/// Which value each spelling of `Verdict` stands for, on the wire.
pub proof fn lemma_verdict_spellings(x: Verdict)
    ensures
        x is Pass <==> x.wire_name() == "pass"@,
        x is Advise <==> x.wire_name() == "advise"@,
        x is Block <==> x.wire_name() == "block"@,
        x is EscalateToHuman <==> x.wire_name() == "escalate_to_human"@,
{
    reveal_strlit("pass");
    reveal_strlit("advise");
    reveal_strlit("block");
    reveal_strlit("escalate_to_human");
    assert("pass"@.len() == 4);
    assert("advise"@.len() == 6);
    assert("block"@.len() == 5);
    assert("escalate_to_human"@.len() == 17);
}

/// Which value each spelling of `Attestation` stands for, on the wire.
pub proof fn lemma_attestation_spellings(x: Attestation)
    ensures
        x is Confirmed <==> x.wire_name() == "confirmed"@,
        x is ConfirmedStatic <==> x.wire_name() == "confirmed-static"@,
        x is Divergent <==> x.wire_name() == "divergent"@,
        x is Unwitnessed <==> x.wire_name() == "unwitnessed"@,
        x is UnwitnessedVersionSkew <==> x.wire_name() == "unwitnessed-version-skew"@,
        x is UnwitnessedBaseMismatch <==> x.wire_name() == "unwitnessed-base-mismatch"@,
{
    reveal_strlit("confirmed");
    reveal_strlit("confirmed-static");
    reveal_strlit("divergent");
    reveal_strlit("unwitnessed");
    reveal_strlit("unwitnessed-version-skew");
    reveal_strlit("unwitnessed-base-mismatch");
    assert("confirmed"@.len() == 9);
    assert("confirmed-static"@.len() == 16);
    assert("divergent"@.len() == 9);
    assert("unwitnessed"@.len() == 11);
    assert("unwitnessed-version-skew"@.len() == 24);
    assert("unwitnessed-base-mismatch"@.len() == 25);
    assert("confirmed"@[0] != "divergent"@[0]);
}

/// Which value each spelling of `TamperSignal` stands for, on the wire.
pub proof fn lemma_tamper_signal_spellings(x: TamperSignal)
    ensures
        x is SuppressionDensity <==> x.wire_name() == "suppression-density"@,
        x is TestRemoval <==> x.wire_name() == "test-removal"@,
        x is CoverageExclusionDrift <==> x.wire_name() == "coverage-exclusion-drift"@,
        x is AssertionFreeTest <==> x.wire_name() == "assertion-free-test"@,
        x is ThresholdConfigEdit <==> x.wire_name() == "threshold-config-edit"@,
        x is LookupTableBlowup <==> x.wire_name() == "lookup-table-blowup"@,
        x is ParseErrorDelta <==> x.wire_name() == "parse-error-delta"@,
        x is BaseFabrication <==> x.wire_name() == "base-fabrication"@,
{
    reveal_strlit("suppression-density");
    reveal_strlit("test-removal");
    reveal_strlit("coverage-exclusion-drift");
    reveal_strlit("assertion-free-test");
    reveal_strlit("threshold-config-edit");
    reveal_strlit("lookup-table-blowup");
    reveal_strlit("parse-error-delta");
    reveal_strlit("base-fabrication");
    assert("suppression-density"@.len() == 19);
    assert("test-removal"@.len() == 12);
    assert("coverage-exclusion-drift"@.len() == 24);
    assert("assertion-free-test"@.len() == 19);
    assert("threshold-config-edit"@.len() == 21);
    assert("lookup-table-blowup"@.len() == 19);
    assert("parse-error-delta"@.len() == 17);
    assert("base-fabrication"@.len() == 16);
    assert("suppression-density"@[0] != "assertion-free-test"@[0]);
    assert("suppression-density"@[0] != "lookup-table-blowup"@[0]);
    assert("assertion-free-test"@[0] != "lookup-table-blowup"@[0]);
}

/// Which value each spelling of `Completeness` stands for, on the wire.
pub proof fn lemma_completeness_spellings(x: Completeness)
    ensures
        x is Complete <==> x.wire_name() == "complete"@,
        x is Partial <==> x.wire_name() == "partial"@,
        x is ParseDegraded <==> x.wire_name() == "parse-degraded"@,
        x is Unwitnessed <==> x.wire_name() == "unwitnessed"@,
{
    reveal_strlit("complete");
    reveal_strlit("partial");
    reveal_strlit("parse-degraded");
    reveal_strlit("unwitnessed");
    assert("complete"@.len() == 8);
    assert("partial"@.len() == 7);
    assert("parse-degraded"@.len() == 14);
    assert("unwitnessed"@.len() == 11);
}

/// Which value each spelling of `Completeness` stands for, in a message.
pub proof fn lemma_completeness_names(x: Completeness)
    ensures
        x is Complete <==> x.variant_name() == "Complete"@,
        x is Partial <==> x.variant_name() == "Partial"@,
        x is ParseDegraded <==> x.variant_name() == "ParseDegraded"@,
        x is Unwitnessed <==> x.variant_name() == "Unwitnessed"@,
{
    reveal_strlit("Complete");
    reveal_strlit("Partial");
    reveal_strlit("ParseDegraded");
    reveal_strlit("Unwitnessed");
    assert("Complete"@.len() == 8);
    assert("Partial"@.len() == 7);
    assert("ParseDegraded"@.len() == 13);
    assert("Unwitnessed"@.len() == 11);
}

/// Which value each spelling of `Completeness` stands for, in a message, in lower case.
pub proof fn lemma_completeness_lower_names(x: Completeness)
    ensures
        x is Complete <==> x.lower_variant_name() == "complete"@,
        x is Partial <==> x.lower_variant_name() == "partial"@,
        x is ParseDegraded <==> x.lower_variant_name() == "parsedegraded"@,
        x is Unwitnessed <==> x.lower_variant_name() == "unwitnessed"@,
{
    reveal_strlit("complete");
    reveal_strlit("partial");
    reveal_strlit("parsedegraded");
    reveal_strlit("unwitnessed");
    assert("complete"@.len() == 8);
    assert("partial"@.len() == 7);
    assert("parsedegraded"@.len() == 13);
    assert("unwitnessed"@.len() == 11);
}

/// Which value each spelling of `Severity` stands for, on the wire.
pub proof fn lemma_severity_spellings(x: Severity)
    ensures
        x is Info <==> x.wire_name() == "info"@,
        x is Low <==> x.wire_name() == "low"@,
        x is Medium <==> x.wire_name() == "medium"@,
        x is High <==> x.wire_name() == "high"@,
        x is Critical <==> x.wire_name() == "critical"@,
{
    reveal_strlit("info");
    reveal_strlit("low");
    reveal_strlit("medium");
    reveal_strlit("high");
    reveal_strlit("critical");
    assert("info"@.len() == 4);
    assert("low"@.len() == 3);
    assert("medium"@.len() == 6);
    assert("high"@.len() == 4);
    assert("critical"@.len() == 8);
    assert("info"@[0] != "high"@[0]);
}

/// Which value each spelling of `Severity` stands for, in a message.
pub proof fn lemma_severity_names(x: Severity)
    ensures
        x is Info <==> x.variant_name() == "Info"@,
        x is Low <==> x.variant_name() == "Low"@,
        x is Medium <==> x.variant_name() == "Medium"@,
        x is High <==> x.variant_name() == "High"@,
        x is Critical <==> x.variant_name() == "Critical"@,
{
    reveal_strlit("Info");
    reveal_strlit("Low");
    reveal_strlit("Medium");
    reveal_strlit("High");
    reveal_strlit("Critical");
    assert("Info"@.len() == 4);
    assert("Low"@.len() == 3);
    assert("Medium"@.len() == 6);
    assert("High"@.len() == 4);
    assert("Critical"@.len() == 8);
    assert("Info"@[0] != "High"@[0]);
}

/// Which value each spelling of `EngineFamily` stands for, on the wire.
pub proof fn lemma_engine_family_spellings(x: EngineFamily)
    ensures
        x is Static <==> x.wire_name() == "static"@,
        x is Clones <==> x.wire_name() == "clones"@,
        x is Tamper <==> x.wire_name() == "tamper"@,
        x is Process <==> x.wire_name() == "process"@,
        x is Artifacts <==> x.wire_name() == "artifacts"@,
        x is Tests <==> x.wire_name() == "tests"@,
{
    reveal_strlit("static");
    reveal_strlit("clones");
    reveal_strlit("tamper");
    reveal_strlit("process");
    reveal_strlit("artifacts");
    reveal_strlit("tests");
    assert("static"@.len() == 6);
    assert("clones"@.len() == 6);
    assert("tamper"@.len() == 6);
    assert("process"@.len() == 7);
    assert("artifacts"@.len() == 9);
    assert("tests"@.len() == 5);
    assert("static"@[0] != "clones"@[0]);
    assert("static"@[0] != "tamper"@[0]);
    assert("clones"@[0] != "tamper"@[0]);
}

/// Which value each spelling of `EngineFamily` stands for, in a message.
pub proof fn lemma_engine_family_names(x: EngineFamily)
    ensures
        x is Static <==> x.variant_name() == "Static"@,
        x is Clones <==> x.variant_name() == "Clones"@,
        x is Tamper <==> x.variant_name() == "Tamper"@,
        x is Process <==> x.variant_name() == "Process"@,
        x is Artifacts <==> x.variant_name() == "Artifacts"@,
        x is Tests <==> x.variant_name() == "Tests"@,
{
    reveal_strlit("Static");
    reveal_strlit("Clones");
    reveal_strlit("Tamper");
    reveal_strlit("Process");
    reveal_strlit("Artifacts");
    reveal_strlit("Tests");
    assert("Static"@.len() == 6);
    assert("Clones"@.len() == 6);
    assert("Tamper"@.len() == 6);
    assert("Process"@.len() == 7);
    assert("Artifacts"@.len() == 9);
    assert("Tests"@.len() == 5);
    assert("Static"@[0] != "Clones"@[0]);
    assert("Static"@[0] != "Tamper"@[0]);
    assert("Clones"@[0] != "Tamper"@[0]);
}

/// Which value each spelling of `EngineClass` stands for, on the wire.
pub proof fn lemma_engine_class_spellings(x: EngineClass)
    ensures
        x is StaticSafe <==> x.wire_name() == "static-safe"@,
        x is CodeExec <==> x.wire_name() == "code-exec"@,
{
    reveal_strlit("static-safe");
    reveal_strlit("code-exec");
    assert("static-safe"@.len() == 11);
    assert("code-exec"@.len() == 9);
}

/// Which value each spelling of `MetricClass` stands for, on the wire.
pub proof fn lemma_metric_class_spellings(x: MetricClass)
    ensures
        x is DiffActionable <==> x.wire_name() == "diff-actionable"@,
        x is ContextInformational <==> x.wire_name() == "context-informational"@,
{
    reveal_strlit("diff-actionable");
    reveal_strlit("context-informational");
    assert("diff-actionable"@.len() == 15);
    assert("context-informational"@.len() == 21);
}

/// Which value each spelling of `MetricClass` stands for, in a message.
pub proof fn lemma_metric_class_names(x: MetricClass)
    ensures
        x is DiffActionable <==> x.variant_name() == "DiffActionable"@,
        x is ContextInformational <==> x.variant_name() == "ContextInformational"@,
{
    reveal_strlit("DiffActionable");
    reveal_strlit("ContextInformational");
    assert("DiffActionable"@.len() == 14);
    assert("ContextInformational"@.len() == 20);
}

/// Which value each spelling of `EvidenceTier` stands for, on the wire.
pub proof fn lemma_evidence_tier_spellings(x: EvidenceTier)
    ensures
        x is A <==> x.wire_name() == "A"@,
        x is B <==> x.wire_name() == "B"@,
        x is C <==> x.wire_name() == "C"@,
        x is D <==> x.wire_name() == "D"@,
        x is N <==> x.wire_name() == "N"@,
{
    reveal_strlit("A");
    reveal_strlit("B");
    reveal_strlit("C");
    reveal_strlit("D");
    reveal_strlit("N");
    assert("A"@.len() == 1);
    assert("B"@.len() == 1);
    assert("C"@.len() == 1);
    assert("D"@.len() == 1);
    assert("N"@.len() == 1);
    assert("A"@[0] != "B"@[0]);
    assert("A"@[0] != "C"@[0]);
    assert("A"@[0] != "D"@[0]);
    assert("A"@[0] != "N"@[0]);
    assert("B"@[0] != "C"@[0]);
    assert("B"@[0] != "D"@[0]);
    assert("B"@[0] != "N"@[0]);
    assert("C"@[0] != "D"@[0]);
    assert("C"@[0] != "N"@[0]);
    assert("D"@[0] != "N"@[0]);
}

/// Which value each spelling of `InvocationSource` stands for, on the wire.
pub proof fn lemma_invocation_source_spellings(x: InvocationSource)
    ensures
        x is Hook <==> x.wire_name() == "hook"@,
        x is AgentInitiated <==> x.wire_name() == "agent-initiated"@,
        x is HumanCli <==> x.wire_name() == "human-cli"@,
        x is CiVerifier <==> x.wire_name() == "ci-verifier"@,
{
    reveal_strlit("hook");
    reveal_strlit("agent-initiated");
    reveal_strlit("human-cli");
    reveal_strlit("ci-verifier");
    assert("hook"@.len() == 4);
    assert("agent-initiated"@.len() == 15);
    assert("human-cli"@.len() == 9);
    assert("ci-verifier"@.len() == 11);
}

/// Which value each spelling of `Lane` stands for, on the wire.
pub proof fn lemma_lane_spellings(x: Lane)
    ensures
        x is Fast <==> x.wire_name() == "fast"@,
        x is Async <==> x.wire_name() == "async"@,
{
    reveal_strlit("fast");
    reveal_strlit("async");
    assert("fast"@.len() == 4);
    assert("async"@.len() == 5);
}

/// Which value each spelling of `RecordKind` stands for, on the wire.
pub proof fn lemma_record_kind_spellings(x: RecordKind)
    ensures
        x is SelfReport <==> x.wire_name() == "self-report"@,
        x is Attestation <==> x.wire_name() == "attestation"@,
{
    reveal_strlit("self-report");
    reveal_strlit("attestation");
    assert("self-report"@.len() == 11);
    assert("attestation"@.len() == 11);
    assert("self-report"@[0] != "attestation"@[0]);
}

/// Which value each spelling of `HeadKind` stands for, on the wire.
pub proof fn lemma_head_kind_spellings(x: HeadKind)
    ensures
        x is Commit <==> x.wire_name() == "commit"@,
        x is UncommittedWorktree <==> x.wire_name() == "uncommitted-worktree"@,
        x is UncommittedIndex <==> x.wire_name() == "uncommitted-index"@,
{
    reveal_strlit("commit");
    reveal_strlit("uncommitted-worktree");
    reveal_strlit("uncommitted-index");
    assert("commit"@.len() == 6);
    assert("uncommitted-worktree"@.len() == 20);
    assert("uncommitted-index"@.len() == 17);
}

/// Which value each spelling of `ScopeKind` stands for, on the wire.
pub proof fn lemma_scope_kind_spellings(x: ScopeKind)
    ensures
        x is Repository <==> x.wire_name() == "repository"@,
        x is Change <==> x.wire_name() == "change"@,
        x is File <==> x.wire_name() == "file"@,
        x is Function <==> x.wire_name() == "function"@,
{
    reveal_strlit("repository");
    reveal_strlit("change");
    reveal_strlit("file");
    reveal_strlit("function");
    assert("repository"@.len() == 10);
    assert("change"@.len() == 6);
    assert("file"@.len() == 4);
    assert("function"@.len() == 8);
}

/// Which value each spelling of `ScopeKind` stands for, in a message.
pub proof fn lemma_scope_kind_names(x: ScopeKind)
    ensures
        x is Repository <==> x.variant_name() == "Repository"@,
        x is Change <==> x.variant_name() == "Change"@,
        x is File <==> x.variant_name() == "File"@,
        x is Function <==> x.variant_name() == "Function"@,
{
    reveal_strlit("Repository");
    reveal_strlit("Change");
    reveal_strlit("File");
    reveal_strlit("Function");
    assert("Repository"@.len() == 10);
    assert("Change"@.len() == 6);
    assert("File"@.len() == 4);
    assert("Function"@.len() == 8);
}

/// Which value each spelling of `ScopeKind` stands for, in a message, in lower case.
pub proof fn lemma_scope_kind_lower_names(x: ScopeKind)
    ensures
        x is Repository <==> x.lower_variant_name() == "repository"@,
        x is Change <==> x.lower_variant_name() == "change"@,
        x is File <==> x.lower_variant_name() == "file"@,
        x is Function <==> x.lower_variant_name() == "function"@,
{
    reveal_strlit("repository");
    reveal_strlit("change");
    reveal_strlit("file");
    reveal_strlit("function");
    assert("repository"@.len() == 10);
    assert("change"@.len() == 6);
    assert("file"@.len() == 4);
    assert("function"@.len() == 8);
}

/// Which value each spelling of `CacheState` stands for, on the wire.
pub proof fn lemma_cache_state_spellings(x: CacheState)
    ensures
        x is Warm <==> x.wire_name() == "warm"@,
        x is Cold <==> x.wire_name() == "cold"@,
        x is Miss <==> x.wire_name() == "miss"@,
{
    reveal_strlit("warm");
    reveal_strlit("cold");
    reveal_strlit("miss");
    assert("warm"@.len() == 4);
    assert("cold"@.len() == 4);
    assert("miss"@.len() == 4);
    assert("warm"@[0] != "cold"@[0]);
    assert("warm"@[0] != "miss"@[0]);
    assert("cold"@[0] != "miss"@[0]);
}

/// Which value each spelling of `MetricValue` stands for, as a kind.
pub proof fn lemma_metric_value_kinds(x: MetricValue)
    ensures
        x is Count <==> x.kind_name() == "count"@,
        x is Integer <==> x.kind_name() == "integer"@,
        x is Ratio <==> x.kind_name() == "ratio"@,
        x is Duration <==> x.kind_name() == "duration"@,
        x is Flag <==> x.kind_name() == "flag"@,
        x is Text <==> x.kind_name() == "text"@,
{
    reveal_strlit("count");
    reveal_strlit("integer");
    reveal_strlit("ratio");
    reveal_strlit("duration");
    reveal_strlit("flag");
    reveal_strlit("text");
    assert("count"@.len() == 5);
    assert("integer"@.len() == 7);
    assert("ratio"@.len() == 5);
    assert("duration"@.len() == 8);
    assert("flag"@.len() == 4);
    assert("text"@.len() == 4);
    assert("count"@[0] != "ratio"@[0]);
    assert("flag"@[0] != "text"@[0]);
}

/// Which value each spelling of `OverrideReason` stands for, on the wire.
pub proof fn lemma_override_reason_spellings(x: OverrideReason)
    ensures
        x is BootstrapNoAttestedRelease <==> x.wire_name() == "bootstrap-no-attested-release"@,
        x is EngineChangeUnderReview <==> x.wire_name() == "engine-change-under-review"@,
        x is KnownDetectorDefect <==> x.wire_name() == "known-detector-defect"@,
        x is InfrastructureUnavailable <==> x.wire_name() == "infrastructure-unavailable"@,
        x is ReviewedFalsePositive <==> x.wire_name() == "reviewed-false-positive"@,
{
    reveal_strlit("bootstrap-no-attested-release");
    reveal_strlit("engine-change-under-review");
    reveal_strlit("known-detector-defect");
    reveal_strlit("infrastructure-unavailable");
    reveal_strlit("reviewed-false-positive");
    assert("bootstrap-no-attested-release"@.len() == 29);
    assert("engine-change-under-review"@.len() == 26);
    assert("known-detector-defect"@.len() == 21);
    assert("infrastructure-unavailable"@.len() == 26);
    assert("reviewed-false-positive"@.len() == 23);
    assert("engine-change-under-review"@[0] != "infrastructure-unavailable"@[0]);
}

/// Which value each spelling of `SelfMeasureBinary` stands for, on the wire.
pub proof fn lemma_self_measure_binary_spellings(x: SelfMeasureBinary)
    ensures
        x is LastAttestedRelease <==> x.wire_name() == "last-attested-release"@,
        x is CurrentBuild <==> x.wire_name() == "current-build"@,
{
    reveal_strlit("last-attested-release");
    reveal_strlit("current-build");
    assert("last-attested-release"@.len() == 21);
    assert("current-build"@.len() == 13);
}

} // verus!
