//! What stands on the wire, key by key.
use vstd::prelude::*;

use super::agent_profile::{AgentFindingModel, AgentProfileModel, AgentReasonModel};
use super::wire;
use crate::canonical;
use crate::canonical::JsonModel;
use crate::schema::enums::TamperSignal;
use crate::schema::payload;
use crate::schema::payload::{
    AttestationBlock, CompareContext, CompareOutcome, EvidenceRef, Freshness, Invocation,
    IterationState, LineSpan, MeasurementRecord, MeasurementResult, MetricValue, Reserved,
    ResultScope, Substitution, ToolIdentity, VerdictReason, VerdictSummary, VerifierIdentity,
};
use crate::schema::regime::MeasurementRegime;
use crate::selfmeasure::{SelfMeasureOverride, SelfMeasureProvenance};

verus! {

/// Whether an object holds a value under a key.
pub open spec fn says(j: JsonModel, key: Seq<char>, value: JsonModel) -> bool {
    exists|i: int| 0 <= i < j->Members_0.len() && #[trigger] j->Members_0[i] == (key, value)
}

/// The binary that measured, as it is written.
pub proof fn lemma_tool_is_written(x: ToolIdentity)
    ensures
        says(x.json_model(), "name"@, JsonModel::Text(x.name@)),
        says(x.json_model(), "version"@, JsonModel::Text(x.version@)),
        says(x.json_model(), "build_oid"@, JsonModel::Text(x.build_oid@)),
        says(x.json_model(), "attested_release"@, JsonModel::Bool(x.attested_release)),
{
    let rows = x.json_model()->Members_0;
    assert(rows[0] == ("name"@, JsonModel::Text(x.name@)));
    assert(rows[1] == ("version"@, JsonModel::Text(x.version@)));
    assert(rows[2] == ("build_oid"@, JsonModel::Text(x.build_oid@)));
    assert(rows[3] == ("attested_release"@, JsonModel::Bool(x.attested_release)));
}

/// The comparison a record is about, as it is written.
pub proof fn lemma_comparison_is_written(x: CompareContext)
    ensures
        says(x.json_model(), "base_oid"@, JsonModel::Text(x.base_oid@)),
        says(x.json_model(), "head_oid"@, JsonModel::Text(x.head_oid@)),
        says(x.json_model(), "head_kind"@, JsonModel::Text(x.head_kind.wire_name())),
        says(x.json_model(), "git_version"@, JsonModel::Text(x.git_version@)),
        says(x.json_model(), "base_resolution"@, JsonModel::Text(x.base_resolution@)),
{
    let rows = x.json_model()->Members_0;
    assert(rows[0] == ("base_oid"@, JsonModel::Text(x.base_oid@)));
    assert(rows[1] == ("head_oid"@, JsonModel::Text(x.head_oid@)));
    assert(rows[2] == ("head_kind"@, JsonModel::Text(x.head_kind.wire_name())));
    assert(rows[3] == ("git_version"@, JsonModel::Text(x.git_version@)));
    assert(rows[4] == ("base_resolution"@, JsonModel::Text(x.base_resolution@)));
}

/// Who asked for a measurement, as it is written.
pub proof fn lemma_invocation_is_written(x: Invocation)
    ensures
        says(x.json_model(), "source"@, JsonModel::Text(x.source.wire_name())),
        says(x.json_model(), "harness"@, canonical::optional_text(x.harness)),
        says(x.json_model(), "model"@, canonical::optional_text(x.model)),
        says(x.json_model(), "author"@, canonical::optional_text(x.author)),
        says(x.json_model(), "iteration"@, JsonModel::Whole(x.iteration as int)),
{
    let rows = x.json_model()->Members_0;
    assert(rows[0] == ("source"@, JsonModel::Text(x.source.wire_name())));
    assert(rows[1] == ("harness"@, canonical::optional_text(x.harness)));
    assert(rows[2] == ("model"@, canonical::optional_text(x.model)));
    assert(rows[3] == ("author"@, canonical::optional_text(x.author)));
    assert(rows[4] == ("iteration"@, JsonModel::Whole(x.iteration as int)));
}

/// The reserved fields, as they are written.
pub proof fn lemma_reserved_fields_are_written(x: Reserved)
    ensures
        says(x.json_model(), "run_id"@, canonical::optional_text(x.run_id)),
        says(x.json_model(), "workspace_id"@, canonical::optional_text(x.workspace_id)),
        says(x.json_model(), "package_scope"@, canonical::optional_text(x.package_scope)),
{
    let rows = x.json_model()->Members_0;
    assert(rows[0] == ("run_id"@, canonical::optional_text(x.run_id)));
    assert(rows[1] == ("workspace_id"@, canonical::optional_text(x.workspace_id)));
    assert(rows[2] == ("package_scope"@, canonical::optional_text(x.package_scope)));
}

/// What was measured in place of what was asked for, as it is written.
pub proof fn lemma_substitution_is_written(x: Substitution)
    ensures
        says(x.json_model(), "requested"@, JsonModel::Text(x.requested@)),
        says(x.json_model(), "measured"@, JsonModel::Text(x.measured@)),
{
    let rows = x.json_model()->Members_0;
    assert(rows[0] == ("requested"@, JsonModel::Text(x.requested@)));
    assert(rows[1] == ("measured"@, JsonModel::Text(x.measured@)));
}

/// A recorded override, as it is written.
pub proof fn lemma_override_is_written(x: SelfMeasureOverride)
    ensures
        says(x.json_model(), "reason"@, JsonModel::Text(x.reason.wire_name())),
        says(x.json_model(), "justification"@, JsonModel::Text(x.justification@)),
        says(x.json_model(), "reference"@, JsonModel::Text(x.reference@)),
        says(x.json_model(), "approved_by"@, JsonModel::Text(x.approved_by@)),
        says(x.json_model(), "head_oid"@, JsonModel::Text(x.head_oid@)),
{
    let rows = x.json_model()->Members_0;
    assert(rows[0] == ("reason"@, JsonModel::Text(x.reason.wire_name())));
    assert(rows[1] == ("justification"@, JsonModel::Text(x.justification@)));
    assert(rows[2] == ("reference"@, JsonModel::Text(x.reference@)));
    assert(rows[3] == ("approved_by"@, JsonModel::Text(x.approved_by@)));
    assert(rows[4] == ("head_oid"@, JsonModel::Text(x.head_oid@)));
}

/// Which binary measured the tool itself, as it is written.
pub proof fn lemma_provenance_is_written(x: SelfMeasureProvenance)
    ensures
        says(
            x.json_model(),
            "measuring_binary_version"@,
            JsonModel::Text(x.measuring_binary_version@),
        ),
        says(x.json_model(), "measuring_binary_oid"@, JsonModel::Text(x.measuring_binary_oid@)),
        says(x.json_model(), "attested"@, JsonModel::Bool(x.attested)),
        says(
            x.json_model(),
            "override_record"@,
            (match x.override_record {
                Some(part) => part.json_model(),
                None => JsonModel::Null,
            }),
        ),
        says(x.json_model(), "excluded_paths"@, canonical::text_list(x.excluded_paths@)),
        says(x.json_model(), "exclusion_drift"@, JsonModel::Bool(x.exclusion_drift)),
{
    let rows = x.json_model()->Members_0;
    assert(rows[0] == ("measuring_binary_version"@, JsonModel::Text(x.measuring_binary_version@)));
    assert(rows[1] == ("measuring_binary_oid"@, JsonModel::Text(x.measuring_binary_oid@)));
    assert(rows[2] == ("attested"@, JsonModel::Bool(x.attested)));
    assert(rows[3] == (
        "override_record"@,
        (match x.override_record {
            Some(part) => part.json_model(),
            None => JsonModel::Null,
        }),
    ));
    assert(rows[4] == ("excluded_paths"@, canonical::text_list(x.excluded_paths@)));
    assert(rows[5] == ("exclusion_drift"@, JsonModel::Bool(x.exclusion_drift)));
}

/// The evidence behind a result, as it is written.
pub proof fn lemma_evidence_is_written(x: EvidenceRef)
    ensures
        says(x.json_model(), "claim_id"@, JsonModel::Text(x.claim_id@)),
        says(x.json_model(), "tier"@, JsonModel::Text(x.tier.wire_name())),
        says(x.json_model(), "citation"@, JsonModel::Text(x.citation@)),
        says(x.json_model(), "does_not_predict"@, canonical::text_list(x.does_not_predict@)),
        says(x.json_model(), "stale"@, JsonModel::Bool(x.stale)),
{
    let rows = x.json_model()->Members_0;
    assert(rows[0] == ("claim_id"@, JsonModel::Text(x.claim_id@)));
    assert(rows[1] == ("tier"@, JsonModel::Text(x.tier.wire_name())));
    assert(rows[2] == ("citation"@, JsonModel::Text(x.citation@)));
    assert(rows[3] == ("does_not_predict"@, canonical::text_list(x.does_not_predict@)));
    assert(rows[4] == ("stale"@, JsonModel::Bool(x.stale)));
}

/// When and how a result was measured, as it is written.
pub proof fn lemma_freshness_is_written(x: Freshness)
    ensures
        says(x.json_model(), "measured_at"@, JsonModel::Text(x.measured_at@)),
        says(x.json_model(), "duration_ms"@, JsonModel::Whole(x.duration_ms as int)),
        says(x.json_model(), "lane"@, JsonModel::Text(x.lane.wire_name())),
        says(x.json_model(), "cache"@, JsonModel::Text(x.cache.wire_name())),
{
    let rows = x.json_model()->Members_0;
    assert(rows[0] == ("measured_at"@, JsonModel::Text(x.measured_at@)));
    assert(rows[1] == ("duration_ms"@, JsonModel::Whole(x.duration_ms as int)));
    assert(rows[2] == ("lane"@, JsonModel::Text(x.lane.wire_name())));
    assert(rows[3] == ("cache"@, JsonModel::Text(x.cache.wire_name())));
}

/// A reason, as it is written.
pub proof fn lemma_reason_is_written(x: VerdictReason)
    ensures
        says(x.json_model(), "code"@, JsonModel::Text(x.code@)),
        says(x.json_model(), "severity"@, JsonModel::Text(x.severity.wire_name())),
        says(x.json_model(), "message"@, JsonModel::Text(x.message@)),
        says(x.json_model(), "metric_ids"@, canonical::text_list(x.metric_ids@)),
{
    let rows = x.json_model()->Members_0;
    assert(rows[0] == ("code"@, JsonModel::Text(x.code@)));
    assert(rows[1] == ("severity"@, JsonModel::Text(x.severity.wire_name())));
    assert(rows[2] == ("message"@, JsonModel::Text(x.message@)));
    assert(rows[3] == ("metric_ids"@, canonical::text_list(x.metric_ids@)));
}

/// Where a branch stands against its cap, as it is written.
pub proof fn lemma_iteration_is_written(x: IterationState)
    ensures
        says(x.json_model(), "count"@, JsonModel::Whole(x.count as int)),
        says(x.json_model(), "cap"@, JsonModel::Whole(x.cap as int)),
        says(x.json_model(), "escalated"@, JsonModel::Bool(x.escalated)),
{
    let rows = x.json_model()->Members_0;
    assert(rows[0] == ("count"@, JsonModel::Whole(x.count as int)));
    assert(rows[1] == ("cap"@, JsonModel::Whole(x.cap as int)));
    assert(rows[2] == ("escalated"@, JsonModel::Bool(x.escalated)));
}

/// A verdict, as it is written.
pub proof fn lemma_verdict_is_written(x: VerdictSummary)
    ensures
        says(x.json_model(), "verdict"@, JsonModel::Text(x.verdict.wire_name())),
        says(x.json_model(), "reasons"@, wire::reason_list(x.reasons@)),
        says(x.json_model(), "iteration"@, x.iteration.json_model()),
{
    let rows = x.json_model()->Members_0;
    assert(rows[0] == ("verdict"@, JsonModel::Text(x.verdict.wire_name())));
    assert(rows[1] == ("reasons"@, wire::reason_list(x.reasons@)));
    assert(rows[2] == ("iteration"@, x.iteration.json_model()));
}

/// Who attested a record, as it is written.
pub proof fn lemma_verifier_is_written(x: VerifierIdentity)
    ensures
        says(x.json_model(), "provider"@, JsonModel::Text(x.provider@)),
        says(x.json_model(), "run_ref"@, canonical::optional_text(x.run_ref)),
        says(x.json_model(), "trusted_base_oid"@, JsonModel::Text(x.trusted_base_oid@)),
{
    let rows = x.json_model()->Members_0;
    assert(rows[0] == ("provider"@, JsonModel::Text(x.provider@)));
    assert(rows[1] == ("run_ref"@, canonical::optional_text(x.run_ref)));
    assert(rows[2] == ("trusted_base_oid"@, JsonModel::Text(x.trusted_base_oid@)));
}

/// What a recompute came to, as it is written.
pub proof fn lemma_outcome_is_written(x: CompareOutcome)
    ensures
        says(x.json_model(), "tuple_equal"@, JsonModel::Bool(x.tuple_equal)),
        says(x.json_model(), "regime_equal"@, JsonModel::Bool(x.regime_equal)),
        says(x.json_model(), "matched"@, canonical::text_list(x.matched@)),
        says(x.json_model(), "mismatched"@, canonical::text_list(x.mismatched@)),
        says(x.json_model(), "unpaired"@, canonical::text_list(x.unpaired@)),
{
    let rows = x.json_model()->Members_0;
    assert(rows[0] == ("tuple_equal"@, JsonModel::Bool(x.tuple_equal)));
    assert(rows[1] == ("regime_equal"@, JsonModel::Bool(x.regime_equal)));
    assert(rows[2] == ("matched"@, canonical::text_list(x.matched@)));
    assert(rows[3] == ("mismatched"@, canonical::text_list(x.mismatched@)));
    assert(rows[4] == ("unpaired"@, canonical::text_list(x.unpaired@)));
}

/// How much trust a record has earned, as it is written.
pub proof fn lemma_attestation_is_written(x: AttestationBlock)
    ensures
        says(x.json_model(), "value"@, JsonModel::Text(x.value.wire_name())),
        says(x.json_model(), "tamper_signals"@, wire::signal_list(x.tamper_signals@)),
        says(
            x.json_model(),
            "verifier"@,
            (match x.verifier {
                Some(part) => part.json_model(),
                None => JsonModel::Null,
            }),
        ),
        says(
            x.json_model(),
            "compare"@,
            (match x.compare {
                Some(part) => part.json_model(),
                None => JsonModel::Null,
            }),
        ),
{
    let rows = x.json_model()->Members_0;
    assert(rows[0] == ("value"@, JsonModel::Text(x.value.wire_name())));
    assert(rows[1] == ("tamper_signals"@, wire::signal_list(x.tamper_signals@)));
    assert(rows[2] == (
        "verifier"@,
        (match x.verifier {
            Some(part) => part.json_model(),
            None => JsonModel::Null,
        }),
    ));
    assert(rows[3] == (
        "compare"@,
        (match x.compare {
            Some(part) => part.json_model(),
            None => JsonModel::Null,
        }),
    ));
}

/// A result, as it is written.
pub proof fn lemma_result_is_written(x: MeasurementResult)
    ensures
        says(x.json_model(), "metric_id"@, JsonModel::Text(x.metric_id@)),
        says(x.json_model(), "claim_id"@, JsonModel::Text(x.claim_id@)),
        says(x.json_model(), "engine_id"@, JsonModel::Text(x.engine_id@)),
        says(x.json_model(), "family"@, JsonModel::Text(x.family.wire_name())),
        says(x.json_model(), "engine_class"@, JsonModel::Text(x.engine_class.wire_name())),
        says(x.json_model(), "metric_class"@, JsonModel::Text(x.metric_class.wire_name())),
        says(x.json_model(), "scope"@, x.scope.json_model()),
        says(x.json_model(), "value"@, x.value.json_model()),
        says(x.json_model(), "delta"@, payload::optional_value_model(x.delta)),
        says(x.json_model(), "severity"@, JsonModel::Text(x.severity.wire_name())),
        says(x.json_model(), "completeness"@, JsonModel::Text(x.completeness.wire_name())),
        says(x.json_model(), "measurement_regime"@, x.measurement_regime.json_model()),
        says(x.json_model(), "evidence"@, x.evidence.json_model()),
        says(x.json_model(), "deterministic"@, JsonModel::Bool(x.deterministic)),
        says(x.json_model(), "digest"@, JsonModel::Text(x.digest@)),
        says(x.json_model(), "freshness"@, x.freshness.json_model()),
{
    let rows = x.json_model()->Members_0;
    assert(rows[0] == ("metric_id"@, JsonModel::Text(x.metric_id@)));
    assert(rows[1] == ("claim_id"@, JsonModel::Text(x.claim_id@)));
    assert(rows[2] == ("engine_id"@, JsonModel::Text(x.engine_id@)));
    assert(rows[3] == ("family"@, JsonModel::Text(x.family.wire_name())));
    assert(rows[4] == ("engine_class"@, JsonModel::Text(x.engine_class.wire_name())));
    assert(rows[5] == ("metric_class"@, JsonModel::Text(x.metric_class.wire_name())));
    assert(rows[6] == ("scope"@, x.scope.json_model()));
    assert(rows[7] == ("value"@, x.value.json_model()));
    assert(rows[8] == ("delta"@, payload::optional_value_model(x.delta)));
    assert(rows[9] == ("severity"@, JsonModel::Text(x.severity.wire_name())));
    assert(rows[10] == ("completeness"@, JsonModel::Text(x.completeness.wire_name())));
    assert(rows[11] == ("measurement_regime"@, x.measurement_regime.json_model()));
    assert(rows[12] == ("evidence"@, x.evidence.json_model()));
    assert(rows[13] == ("deterministic"@, JsonModel::Bool(x.deterministic)));
    assert(rows[14] == ("digest"@, JsonModel::Text(x.digest@)));
    assert(rows[15] == ("freshness"@, x.freshness.json_model()));
}

/// A record, as it is written.
pub proof fn lemma_record_is_written(x: MeasurementRecord)
    ensures
        says(x.json_model(), "schema_version"@, JsonModel::Whole(x.schema_version as int)),
        says(x.json_model(), "record_kind"@, JsonModel::Text(x.record_kind.wire_name())),
        says(x.json_model(), "tool"@, x.tool.json_model()),
        says(x.json_model(), "compare_context"@, x.compare_context.json_model()),
        says(x.json_model(), "invocation"@, x.invocation.json_model()),
        says(x.json_model(), "reserved"@, x.reserved.json_model()),
        says(x.json_model(), "policy_hash"@, JsonModel::Text(x.policy_hash@)),
        says(
            x.json_model(),
            "substitution"@,
            (match x.substitution {
                Some(part) => part.json_model(),
                None => JsonModel::Null,
            }),
        ),
        says(x.json_model(), "unreadable_paths"@, canonical::text_list(x.unreadable_paths@)),
        says(
            x.json_model(),
            "self_measure"@,
            (match x.self_measure {
                Some(part) => part.json_model(),
                None => JsonModel::Null,
            }),
        ),
        says(x.json_model(), "results"@, wire::result_list(x.results@)),
        says(x.json_model(), "completeness"@, JsonModel::Text(x.completeness.wire_name())),
        says(x.json_model(), "verdict"@, x.verdict.json_model()),
        says(x.json_model(), "attestation"@, x.attestation.json_model()),
{
    let rows = x.json_model()->Members_0;
    assert(rows[0] == ("schema_version"@, JsonModel::Whole(x.schema_version as int)));
    assert(rows[1] == ("record_kind"@, JsonModel::Text(x.record_kind.wire_name())));
    assert(rows[2] == ("tool"@, x.tool.json_model()));
    assert(rows[3] == ("compare_context"@, x.compare_context.json_model()));
    assert(rows[4] == ("invocation"@, x.invocation.json_model()));
    assert(rows[5] == ("reserved"@, x.reserved.json_model()));
    assert(rows[6] == ("policy_hash"@, JsonModel::Text(x.policy_hash@)));
    assert(rows[7] == (
        "substitution"@,
        (match x.substitution {
            Some(part) => part.json_model(),
            None => JsonModel::Null,
        }),
    ));
    assert(rows[8] == ("unreadable_paths"@, canonical::text_list(x.unreadable_paths@)));
    assert(rows[9] == (
        "self_measure"@,
        (match x.self_measure {
            Some(part) => part.json_model(),
            None => JsonModel::Null,
        }),
    ));
    assert(rows[10] == ("results"@, wire::result_list(x.results@)));
    assert(rows[11] == ("completeness"@, JsonModel::Text(x.completeness.wire_name())));
    assert(rows[12] == ("verdict"@, x.verdict.json_model()));
    assert(rows[13] == ("attestation"@, x.attestation.json_model()));
}

/// Lists are written item by item, in order.
pub proof fn lemma_lists_are_written(
    reasons: Seq<VerdictReason>,
    signals: Seq<TamperSignal>,
    results: Seq<MeasurementResult>,
    texts: Seq<String>,
)
    ensures
        wire::reason_list(reasons) is List,
        wire::reason_list(reasons)->List_0.len() == reasons.len(),
        forall|i: int|
            0 <= i < reasons.len() ==> #[trigger] wire::reason_list(reasons)->List_0[i]
                == reasons[i].json_model(),
        wire::signal_list(signals) is List,
        wire::signal_list(signals)->List_0.len() == signals.len(),
        forall|i: int|
            0 <= i < signals.len() ==> #[trigger] wire::signal_list(signals)->List_0[i]
                == JsonModel::Text(signals[i].wire_name()),
        wire::result_list(results) is List,
        wire::result_list(results)->List_0.len() == results.len(),
        forall|i: int|
            0 <= i < results.len() ==> #[trigger] wire::result_list(results)->List_0[i]
                == results[i].json_model(),
        canonical::text_list(texts) is List,
        canonical::text_list(texts)->List_0.len() == texts.len(),
        forall|i: int|
            0 <= i < texts.len() ==> #[trigger] canonical::text_list(texts)->List_0[i]
                == JsonModel::Text(texts[i]@),
{
}

/// A trimmed reason, as it is written.
pub proof fn lemma_trimmed_reason_is_written(x: AgentReasonModel)
    ensures
        says(x.json_model(), "code"@, JsonModel::Text(x.code)),
        says(x.json_model(), "severity"@, JsonModel::Text(x.severity.wire_name())),
        says(x.json_model(), "message"@, JsonModel::Text(x.message)),
{
    let rows = x.json_model()->Members_0;
    assert(rows[0] == ("code"@, JsonModel::Text(x.code)));
    assert(rows[1] == ("severity"@, JsonModel::Text(x.severity.wire_name())));
    assert(rows[2] == ("message"@, JsonModel::Text(x.message)));
}

/// A trimmed finding, as it is written.
pub proof fn lemma_trimmed_finding_is_written(x: AgentFindingModel)
    ensures
        says(x.json_model(), "metric_id"@, JsonModel::Text(x.metric_id)),
        says(x.json_model(), "claim_id"@, JsonModel::Text(x.claim_id)),
        says(x.json_model(), "scope"@, JsonModel::Text(x.scope)),
        says(x.json_model(), "severity"@, JsonModel::Text(x.severity.wire_name())),
        says(x.json_model(), "value"@, x.value.json_model()),
        says(x.json_model(), "delta"@, payload::optional_value_model(x.delta)),
        says(x.json_model(), "evidence_tier"@, JsonModel::Text(x.evidence_tier.wire_name())),
        says(x.json_model(), "evidence_stale"@, JsonModel::Bool(x.evidence_stale)),
        says(x.json_model(), "diff_actionable"@, JsonModel::Bool(x.diff_actionable)),
{
    let rows = x.json_model()->Members_0;
    assert(rows[0] == ("metric_id"@, JsonModel::Text(x.metric_id)));
    assert(rows[1] == ("claim_id"@, JsonModel::Text(x.claim_id)));
    assert(rows[2] == ("scope"@, JsonModel::Text(x.scope)));
    assert(rows[3] == ("severity"@, JsonModel::Text(x.severity.wire_name())));
    assert(rows[4] == ("value"@, x.value.json_model()));
    assert(rows[5] == ("delta"@, payload::optional_value_model(x.delta)));
    assert(rows[6] == ("evidence_tier"@, JsonModel::Text(x.evidence_tier.wire_name())));
    assert(rows[7] == ("evidence_stale"@, JsonModel::Bool(x.evidence_stale)));
    assert(rows[8] == ("diff_actionable"@, JsonModel::Bool(x.diff_actionable)));
}

/// A profile, as it is written.
pub proof fn lemma_profile_is_written(x: AgentProfileModel)
    ensures
        says(x.json_model(), "schema_version"@, JsonModel::Whole(x.schema_version as int)),
        says(x.json_model(), "profile"@, JsonModel::Text(x.profile)),
        says(x.json_model(), "verdict"@, JsonModel::Text(x.verdict.wire_name())),
        says(x.json_model(), "verdict_invalid"@, JsonModel::Bool(x.verdict_invalid)),
        says(x.json_model(), "attestation"@, JsonModel::Text(x.attestation.wire_name())),
        says(x.json_model(), "counts_downstream"@, JsonModel::Bool(x.counts_downstream)),
        says(x.json_model(), "completeness"@, JsonModel::Text(x.completeness.wire_name())),
        says(x.json_model(), "base_oid"@, JsonModel::Text(x.base_oid)),
        says(x.json_model(), "head_oid"@, JsonModel::Text(x.head_oid)),
        says(x.json_model(), "head_kind"@, JsonModel::Text(x.head_kind.wire_name())),
        says(
            x.json_model(),
            "measured_instead"@,
            (match x.measured_instead {
                Some(s) => JsonModel::Text(s),
                None => JsonModel::Null,
            }),
        ),
        says(x.json_model(), "withheld_paths"@, JsonModel::Whole(x.withheld_paths as int)),
        says(x.json_model(), "unread_paths"@, JsonModel::Whole(x.unread_paths as int)),
        says(x.json_model(), "iteration"@, x.iteration.json_model()),
        says(
            x.json_model(),
            "findings"@,
            JsonModel::List(x.findings.map_values(|f: AgentFindingModel| f.json_model())),
        ),
        says(x.json_model(), "total_findings"@, JsonModel::Whole(x.total_findings as int)),
        says(
            x.json_model(),
            "reasons"@,
            JsonModel::List(x.reasons.map_values(|r: AgentReasonModel| r.json_model())),
        ),
        says(x.json_model(), "total_reasons"@, JsonModel::Whole(x.total_reasons as int)),
        says(x.json_model(), "truncated"@, JsonModel::Bool(x.truncated)),
{
    let rows = x.json_model()->Members_0;
    assert(rows[0] == ("schema_version"@, JsonModel::Whole(x.schema_version as int)));
    assert(rows[1] == ("profile"@, JsonModel::Text(x.profile)));
    assert(rows[2] == ("verdict"@, JsonModel::Text(x.verdict.wire_name())));
    assert(rows[3] == ("verdict_invalid"@, JsonModel::Bool(x.verdict_invalid)));
    assert(rows[4] == ("attestation"@, JsonModel::Text(x.attestation.wire_name())));
    assert(rows[5] == ("counts_downstream"@, JsonModel::Bool(x.counts_downstream)));
    assert(rows[6] == ("completeness"@, JsonModel::Text(x.completeness.wire_name())));
    assert(rows[7] == ("base_oid"@, JsonModel::Text(x.base_oid)));
    assert(rows[8] == ("head_oid"@, JsonModel::Text(x.head_oid)));
    assert(rows[9] == ("head_kind"@, JsonModel::Text(x.head_kind.wire_name())));
    assert(rows[10] == ("measured_instead"@, (match x.measured_instead {
                Some(s) => JsonModel::Text(s),
                None => JsonModel::Null,
            })));
    assert(rows[11] == ("withheld_paths"@, JsonModel::Whole(x.withheld_paths as int)));
    assert(rows[12] == ("unread_paths"@, JsonModel::Whole(x.unread_paths as int)));
    assert(rows[13] == ("iteration"@, x.iteration.json_model()));
    assert(rows[14] == (
        "findings"@,
        JsonModel::List(x.findings.map_values(|f: AgentFindingModel| f.json_model())),
    ));
    assert(rows[15] == ("total_findings"@, JsonModel::Whole(x.total_findings as int)));
    assert(rows[16] == (
        "reasons"@,
        JsonModel::List(x.reasons.map_values(|r: AgentReasonModel| r.json_model())),
    ));
    assert(rows[17] == ("total_reasons"@, JsonModel::Whole(x.total_reasons as int)));
    assert(rows[18] == ("truncated"@, JsonModel::Bool(x.truncated)));
}

/// A range of lines, as it is written.
pub proof fn lemma_span_is_written(x: LineSpan)
    ensures
        says(x.json_model(), "start"@, JsonModel::Whole(x.start as int)),
        says(x.json_model(), "end"@, JsonModel::Whole(x.end as int)),
{
    let rows = x.json_model()->Members_0;
    assert(rows[0] == ("start"@, JsonModel::Whole(x.start as int)));
    assert(rows[1] == ("end"@, JsonModel::Whole(x.end as int)));
}

/// Where a result is, as it is written.
pub proof fn lemma_scope_is_written(x: ResultScope)
    ensures
        says(x.json_model(), "kind"@, JsonModel::Text(x.kind.wire_name())),
        says(x.json_model(), "path"@, canonical::optional_text(x.path)),
        says(x.json_model(), "blob_oid"@, canonical::optional_text(x.blob_oid)),
        says(x.json_model(), "symbol"@, canonical::optional_text(x.symbol)),
        says(x.json_model(), "line_span"@, (match x.line_span {
            Some(span) => span.json_model(),
            None => JsonModel::Null,
        })),
{
    let rows = x.json_model()->Members_0;
    assert(rows[0] == ("kind"@, JsonModel::Text(x.kind.wire_name())));
    assert(rows[1] == ("path"@, canonical::optional_text(x.path)));
    assert(rows[2] == ("blob_oid"@, canonical::optional_text(x.blob_oid)));
    assert(rows[3] == ("symbol"@, canonical::optional_text(x.symbol)));
    assert(rows[4] == ("line_span"@, (match x.line_span {
            Some(span) => span.json_model(),
            None => JsonModel::Null,
        })));
}

/// What a digest is taken over, as it is written.
pub proof fn lemma_digested_facts_are_written(x: MeasurementResult, ctx: CompareContext)
    ensures
        says(x.digest_facts(ctx), "schema_version"@, JsonModel::Whole(1)),
        says(x.digest_facts(ctx), "base_oid"@, JsonModel::Text(ctx.base_oid@)),
        says(x.digest_facts(ctx), "head_oid"@, JsonModel::Text(ctx.head_oid@)),
        says(x.digest_facts(ctx), "engine_id"@, JsonModel::Text(x.engine_id@)),
        says(x.digest_facts(ctx), "metric_id"@, JsonModel::Text(x.metric_id@)),
        says(x.digest_facts(ctx), "claim_id"@, JsonModel::Text(x.claim_id@)),
        says(x.digest_facts(ctx), "family"@, JsonModel::Text(x.family.wire_name())),
        says(x.digest_facts(ctx), "scope"@, x.scope.json_model()),
        says(x.digest_facts(ctx), "value"@, x.value.json_model()),
        says(x.digest_facts(ctx), "delta"@, payload::optional_value_model(x.delta)),
        says(x.digest_facts(ctx), "completeness"@, JsonModel::Text(x.completeness.wire_name())),
        says(x.digest_facts(ctx), "measurement_regime"@, x.measurement_regime.json_model()),
{
    let rows = x.digest_facts(ctx)->Members_0;
    assert(rows[0] == ("schema_version"@, JsonModel::Whole(1)));
    assert(rows[1] == ("base_oid"@, JsonModel::Text(ctx.base_oid@)));
    assert(rows[2] == ("head_oid"@, JsonModel::Text(ctx.head_oid@)));
    assert(rows[3] == ("engine_id"@, JsonModel::Text(x.engine_id@)));
    assert(rows[4] == ("metric_id"@, JsonModel::Text(x.metric_id@)));
    assert(rows[5] == ("claim_id"@, JsonModel::Text(x.claim_id@)));
    assert(rows[6] == ("family"@, JsonModel::Text(x.family.wire_name())));
    assert(rows[7] == ("scope"@, x.scope.json_model()));
    assert(rows[8] == ("value"@, x.value.json_model()));
    assert(rows[9] == ("delta"@, payload::optional_value_model(x.delta)));
    assert(rows[10] == ("completeness"@, JsonModel::Text(x.completeness.wire_name())));
    assert(rows[11] == ("measurement_regime"@, x.measurement_regime.json_model()));
}

/// A value, as it is written: its kind, and its number, flag or text.
pub proof fn lemma_value_is_written(x: MetricValue)
    ensures
        x matches MetricValue::Count(n) ==> says(x.json_model(), "kind"@, JsonModel::Text("count"@))
            && says(x.json_model(), "value"@, JsonModel::Whole(n as int)),
        x matches MetricValue::Integer(n) ==> says(
            x.json_model(),
            "kind"@,
            JsonModel::Text("integer"@),
        ) && says(x.json_model(), "value"@, JsonModel::Whole(n as int)),
        x matches MetricValue::Ratio(q) ==> says(x.json_model(), "kind"@, JsonModel::Text("ratio"@))
            && (q.millionths() matches Some(n) ==> says(
            x.json_model(),
            "value"@,
            JsonModel::Millionths(n),
        )),
        x matches MetricValue::Duration { millis } ==> says(
            x.json_model(),
            "kind"@,
            JsonModel::Text("duration"@),
        ) && says(
            x.json_model(),
            "value"@,
            JsonModel::Members(seq![("millis"@, JsonModel::Whole(millis as int))]),
        ),
        x matches MetricValue::Flag(b) ==> says(x.json_model(), "kind"@, JsonModel::Text("flag"@))
            && says(x.json_model(), "value"@, JsonModel::Bool(b)),
        x matches MetricValue::Text(t) ==> says(x.json_model(), "kind"@, JsonModel::Text("text"@))
            && says(x.json_model(), "value"@, JsonModel::Text(t@)),
{
    let rows = x.json_model()->Members_0;
    assert(rows[0] == ("kind"@, JsonModel::Text(x.kind_name())));
    assert(rows[1] == ("value"@, x.content_model()));
}

/// The regime a result was measured under, as it is written: its family, the engine's
/// version, and what else the family is measured by.
pub proof fn lemma_regime_is_written(x: MeasurementRegime)
    ensures
        match x {
            MeasurementRegime::Static { engine_version, spec_revision, grammars } => {
                &&& says(x.json_model(), "family"@, JsonModel::Text("static"@))
                &&& says(x.json_model(), "engine_version"@, JsonModel::Text(engine_version@))
                &&& says(x.json_model(), "spec_revision"@, JsonModel::Text(spec_revision@))
                &&& says(x.json_model(), "grammars"@, canonical::text_map(grammars@))
            },
            MeasurementRegime::Clones { engine_version, algorithm, min_tokens, window_tokens, normalization_revision } => {
                &&& says(x.json_model(), "family"@, JsonModel::Text("clones"@))
                &&& says(x.json_model(), "engine_version"@, JsonModel::Text(engine_version@))
                &&& says(x.json_model(), "algorithm"@, JsonModel::Text(algorithm@))
                &&& says(x.json_model(), "min_tokens"@, JsonModel::Whole(min_tokens as int))
                &&& says(x.json_model(), "window_tokens"@, JsonModel::Whole(window_tokens as int))
                &&& says(x.json_model(), "normalization_revision"@, JsonModel::Text(normalization_revision@))
            },
            MeasurementRegime::Tamper { engine_version, detector_set_revision, rule_pack_version } => {
                &&& says(x.json_model(), "family"@, JsonModel::Text("tamper"@))
                &&& says(x.json_model(), "engine_version"@, JsonModel::Text(engine_version@))
                &&& says(x.json_model(), "detector_set_revision"@, JsonModel::Text(detector_set_revision@))
                &&& says(x.json_model(), "rule_pack_version"@, JsonModel::Text(rule_pack_version@))
            },
            MeasurementRegime::Process { engine_version, git_version, history_window_days } => {
                &&& says(x.json_model(), "family"@, JsonModel::Text("process"@))
                &&& says(x.json_model(), "engine_version"@, JsonModel::Text(engine_version@))
                &&& says(x.json_model(), "git_version"@, JsonModel::Text(git_version@))
                &&& says(x.json_model(), "history_window_days"@, JsonModel::Whole(history_window_days as int))
            },
            MeasurementRegime::Artifacts { engine_version, parser_versions } => {
                &&& says(x.json_model(), "family"@, JsonModel::Text("artifacts"@))
                &&& says(x.json_model(), "engine_version"@, JsonModel::Text(engine_version@))
                &&& says(x.json_model(), "parser_versions"@, canonical::text_map(parser_versions@))
            },
            MeasurementRegime::Tests { engine_version, command, sandbox } => {
                &&& says(x.json_model(), "family"@, JsonModel::Text("tests"@))
                &&& says(x.json_model(), "engine_version"@, JsonModel::Text(engine_version@))
                &&& says(x.json_model(), "command"@, JsonModel::Text(command@))
                &&& says(x.json_model(), "sandbox"@, JsonModel::Text(sandbox@))
            },
        },
{
    let rows = x.json_model()->Members_0;
    match x {
        MeasurementRegime::Static { engine_version, spec_revision, grammars } => {
            assert(rows[0] == ("family"@, JsonModel::Text("static"@)));
            assert(rows[1] == ("engine_version"@, JsonModel::Text(engine_version@)));
            assert(rows[2] == ("spec_revision"@, JsonModel::Text(spec_revision@)));
            assert(rows[3] == ("grammars"@, canonical::text_map(grammars@)));
        },
        MeasurementRegime::Clones { engine_version, algorithm, min_tokens, window_tokens, normalization_revision } => {
            assert(rows[0] == ("family"@, JsonModel::Text("clones"@)));
            assert(rows[1] == ("engine_version"@, JsonModel::Text(engine_version@)));
            assert(rows[2] == ("algorithm"@, JsonModel::Text(algorithm@)));
            assert(rows[3] == ("min_tokens"@, JsonModel::Whole(min_tokens as int)));
            assert(rows[4] == ("window_tokens"@, JsonModel::Whole(window_tokens as int)));
            assert(rows[5] == (
                "normalization_revision"@,
                JsonModel::Text(normalization_revision@),
            ));
        },
        MeasurementRegime::Tamper { engine_version, detector_set_revision, rule_pack_version } => {
            assert(rows[0] == ("family"@, JsonModel::Text("tamper"@)));
            assert(rows[1] == ("engine_version"@, JsonModel::Text(engine_version@)));
            assert(rows[2] == ("detector_set_revision"@, JsonModel::Text(detector_set_revision@)));
            assert(rows[3] == ("rule_pack_version"@, JsonModel::Text(rule_pack_version@)));
        },
        MeasurementRegime::Process { engine_version, git_version, history_window_days } => {
            assert(rows[0] == ("family"@, JsonModel::Text("process"@)));
            assert(rows[1] == ("engine_version"@, JsonModel::Text(engine_version@)));
            assert(rows[2] == ("git_version"@, JsonModel::Text(git_version@)));
            assert(rows[3] == (
                "history_window_days"@,
                JsonModel::Whole(history_window_days as int),
            ));
        },
        MeasurementRegime::Artifacts { engine_version, parser_versions } => {
            assert(rows[0] == ("family"@, JsonModel::Text("artifacts"@)));
            assert(rows[1] == ("engine_version"@, JsonModel::Text(engine_version@)));
            assert(rows[2] == ("parser_versions"@, canonical::text_map(parser_versions@)));
        },
        MeasurementRegime::Tests { engine_version, command, sandbox } => {
            assert(rows[0] == ("family"@, JsonModel::Text("tests"@)));
            assert(rows[1] == ("engine_version"@, JsonModel::Text(engine_version@)));
            assert(rows[2] == ("command"@, JsonModel::Text(command@)));
            assert(rows[3] == ("sandbox"@, JsonModel::Text(sandbox@)));
        },
    }
}

} // verus!
