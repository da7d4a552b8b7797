//! The record on the wire.
//!
//! Every field is always written, `null` where it is unset: a shape that varied
//! with its content would break a consumer written against a record that
//! happened to carry everything.
use vstd::prelude::*;

use super::enums::TamperSignal;
use super::payload;
use super::payload::{
    optional_value_json, AttestationBlock, CompareContext, CompareOutcome, EvidenceRef, Freshness,
    Invocation, IterationState, MeasurementRecord, MeasurementResult, Reserved, Substitution,
    ToolIdentity, VerdictReason, VerdictSummary, VerifierIdentity,
};
use crate::canonical;
use crate::canonical::{
    array, member, object, optional_string, string, string_list, CanonicalError, Json, JsonModel,
};
use crate::selfmeasure::{SelfMeasureOverride, SelfMeasureProvenance};

verus! {

impl ToolIdentity {
    /// What this says on the wire.
    pub open spec fn json_model(self) -> JsonModel {
        JsonModel::Members(
            seq![
                ("name"@, JsonModel::Text(self.name@)),
                ("version"@, JsonModel::Text(self.version@)),
                ("build_oid"@, JsonModel::Text(self.build_oid@)),
                ("attested_release"@, JsonModel::Bool(self.attested_release)),
            ],
        )
    }

    /// The tool as it goes on the wire.
    pub fn to_json(&self) -> (j: Json)
        ensures
            j@ == self.json_model(),
    {
        let members = vec![
            member("name", string(self.name.as_str())),
            member("version", string(self.version.as_str())),
            member("build_oid", string(self.build_oid.as_str())),
            member("attested_release", Json::Bool(self.attested_release)),
        ];
        proof {
            assert(canonical::member_models(members@) =~= self.json_model()->Members_0);
        }
        object(members)
    }
}

impl CompareContext {
    /// What this says on the wire.
    pub open spec fn json_model(self) -> JsonModel {
        JsonModel::Members(
            seq![
                ("base_oid"@, JsonModel::Text(self.base_oid@)),
                ("head_oid"@, JsonModel::Text(self.head_oid@)),
                ("head_kind"@, JsonModel::Text(self.head_kind.wire_name())),
                ("git_version"@, JsonModel::Text(self.git_version@)),
                ("base_resolution"@, JsonModel::Text(self.base_resolution@)),
            ],
        )
    }

    /// The tuple as it goes on the wire.
    pub fn to_json(&self) -> (j: Json)
        ensures
            j@ == self.json_model(),
    {
        let members = vec![
            member("base_oid", string(self.base_oid.as_str())),
            member("head_oid", string(self.head_oid.as_str())),
            member("head_kind", string(self.head_kind.wire())),
            member("git_version", string(self.git_version.as_str())),
            member("base_resolution", string(self.base_resolution.as_str())),
        ];
        proof {
            assert(canonical::member_models(members@) =~= self.json_model()->Members_0);
        }
        object(members)
    }
}

impl Invocation {
    /// What this says on the wire.
    pub open spec fn json_model(self) -> JsonModel {
        JsonModel::Members(
            seq![
                ("source"@, JsonModel::Text(self.source.wire_name())),
                ("harness"@, canonical::optional_text(self.harness)),
                ("model"@, canonical::optional_text(self.model)),
                ("author"@, canonical::optional_text(self.author)),
                ("iteration"@, JsonModel::Whole(self.iteration as int)),
            ],
        )
    }

    /// An invocation as it goes on the wire.
    pub fn to_json(&self) -> (j: Json)
        ensures
            j@ == self.json_model(),
    {
        let members = vec![
            member("source", string(self.source.wire())),
            member("harness", optional_string(&self.harness)),
            member("model", optional_string(&self.model)),
            member("author", optional_string(&self.author)),
            member("iteration", Json::Unsigned(self.iteration as u64)),
        ];
        proof {
            assert(canonical::member_models(members@) =~= self.json_model()->Members_0);
        }
        object(members)
    }
}

impl Reserved {
    /// What this says on the wire.
    pub open spec fn json_model(self) -> JsonModel {
        JsonModel::Members(
            seq![
                ("run_id"@, canonical::optional_text(self.run_id)),
                ("workspace_id"@, canonical::optional_text(self.workspace_id)),
                ("package_scope"@, canonical::optional_text(self.package_scope)),
            ],
        )
    }

    /// The reserved fields as they go on the wire.
    pub fn to_json(&self) -> (j: Json)
        ensures
            j@ == self.json_model(),
    {
        let members = vec![
            member("run_id", optional_string(&self.run_id)),
            member("workspace_id", optional_string(&self.workspace_id)),
            member("package_scope", optional_string(&self.package_scope)),
        ];
        proof {
            assert(canonical::member_models(members@) =~= self.json_model()->Members_0);
        }
        object(members)
    }
}

impl Substitution {
    /// What this says on the wire.
    pub open spec fn json_model(self) -> JsonModel {
        JsonModel::Members(
            seq![
                ("requested"@, JsonModel::Text(self.requested@)),
                ("measured"@, JsonModel::Text(self.measured@)),
            ],
        )
    }

    /// A substitution as it goes on the wire.
    pub fn to_json(&self) -> (j: Json)
        ensures
            j@ == self.json_model(),
    {
        let members = vec![
            member("requested", string(self.requested.as_str())),
            member("measured", string(self.measured.as_str())),
        ];
        proof {
            assert(canonical::member_models(members@) =~= self.json_model()->Members_0);
        }
        object(members)
    }
}

impl SelfMeasureOverride {
    /// What this says on the wire.
    pub open spec fn json_model(self) -> JsonModel {
        JsonModel::Members(
            seq![
                ("reason"@, JsonModel::Text(self.reason.wire_name())),
                ("justification"@, JsonModel::Text(self.justification@)),
                ("reference"@, JsonModel::Text(self.reference@)),
                ("approved_by"@, JsonModel::Text(self.approved_by@)),
                ("head_oid"@, JsonModel::Text(self.head_oid@)),
            ],
        )
    }

    /// An override as it goes on the wire.
    pub fn to_json(&self) -> (j: Json)
        ensures
            j@ == self.json_model(),
    {
        let members = vec![
            member("reason", string(self.reason.wire())),
            member("justification", string(self.justification.as_str())),
            member("reference", string(self.reference.as_str())),
            member("approved_by", string(self.approved_by.as_str())),
            member("head_oid", string(self.head_oid.as_str())),
        ];
        proof {
            assert(canonical::member_models(members@) =~= self.json_model()->Members_0);
        }
        object(members)
    }
}

impl SelfMeasureProvenance {
    /// What this says on the wire.
    pub open spec fn json_model(self) -> JsonModel {
        JsonModel::Members(
            seq![
                ("measuring_binary_version"@, JsonModel::Text(self.measuring_binary_version@)),
                ("measuring_binary_oid"@, JsonModel::Text(self.measuring_binary_oid@)),
                ("attested"@, JsonModel::Bool(self.attested)),
                (
                    "override_record"@,
                    match self.override_record {
                        Some(x) => x.json_model(),
                        None => JsonModel::Null,
                    },
                ),
                ("excluded_paths"@, canonical::text_list(self.excluded_paths@)),
                ("exclusion_drift"@, JsonModel::Bool(self.exclusion_drift)),
            ],
        )
    }

    /// Self-measurement as it goes on the wire.
    pub fn to_json(&self) -> (j: Json)
        ensures
            j@ == self.json_model(),
    {
        let override_record = match &self.override_record {
            Some(x) => x.to_json(),
            None => Json::Null,
        };
        let members = vec![
            member("measuring_binary_version", string(self.measuring_binary_version.as_str())),
            member("measuring_binary_oid", string(self.measuring_binary_oid.as_str())),
            member("attested", Json::Bool(self.attested)),
            member("override_record", override_record),
            member("excluded_paths", string_list(self.excluded_paths.as_slice())),
            member("exclusion_drift", Json::Bool(self.exclusion_drift)),
        ];
        proof {
            assert(canonical::member_models(members@) =~= self.json_model()->Members_0);
        }
        object(members)
    }
}

impl EvidenceRef {
    /// What this says on the wire.
    pub open spec fn json_model(self) -> JsonModel {
        JsonModel::Members(
            seq![
                ("claim_id"@, JsonModel::Text(self.claim_id@)),
                ("tier"@, JsonModel::Text(self.tier.wire_name())),
                ("citation"@, JsonModel::Text(self.citation@)),
                ("does_not_predict"@, canonical::text_list(self.does_not_predict@)),
                ("stale"@, JsonModel::Bool(self.stale)),
            ],
        )
    }

    /// Evidence as it goes on the wire.
    pub fn to_json(&self) -> (j: Json)
        ensures
            j@ == self.json_model(),
    {
        let members = vec![
            member("claim_id", string(self.claim_id.as_str())),
            member("tier", string(self.tier.wire())),
            member("citation", string(self.citation.as_str())),
            member("does_not_predict", string_list(self.does_not_predict.as_slice())),
            member("stale", Json::Bool(self.stale)),
        ];
        proof {
            assert(canonical::member_models(members@) =~= self.json_model()->Members_0);
        }
        object(members)
    }
}

impl Freshness {
    /// What this says on the wire.
    pub open spec fn json_model(self) -> JsonModel {
        JsonModel::Members(
            seq![
                ("measured_at"@, JsonModel::Text(self.measured_at@)),
                ("duration_ms"@, JsonModel::Whole(self.duration_ms as int)),
                ("lane"@, JsonModel::Text(self.lane.wire_name())),
                ("cache"@, JsonModel::Text(self.cache.wire_name())),
            ],
        )
    }

    /// Freshness as it goes on the wire.
    pub fn to_json(&self) -> (j: Json)
        ensures
            j@ == self.json_model(),
    {
        let members = vec![
            member("measured_at", string(self.measured_at.as_str())),
            member("duration_ms", Json::Unsigned(self.duration_ms)),
            member("lane", string(self.lane.wire())),
            member("cache", string(self.cache.wire())),
        ];
        proof {
            assert(canonical::member_models(members@) =~= self.json_model()->Members_0);
        }
        object(members)
    }
}

impl VerdictReason {
    /// What this says on the wire.
    pub open spec fn json_model(self) -> JsonModel {
        JsonModel::Members(
            seq![
                ("code"@, JsonModel::Text(self.code@)),
                ("severity"@, JsonModel::Text(self.severity.wire_name())),
                ("message"@, JsonModel::Text(self.message@)),
                ("metric_ids"@, canonical::text_list(self.metric_ids@)),
            ],
        )
    }

    /// A reason as it goes on the wire.
    pub fn to_json(&self) -> (j: Json)
        ensures
            j@ == self.json_model(),
    {
        let members = vec![
            member("code", string(self.code.as_str())),
            member("severity", string(self.severity.wire())),
            member("message", string(self.message.as_str())),
            member("metric_ids", string_list(self.metric_ids.as_slice())),
        ];
        proof {
            assert(canonical::member_models(members@) =~= self.json_model()->Members_0);
        }
        object(members)
    }
}

/// What a list of reasons says on the wire.
pub open spec fn reason_list(s: Seq<VerdictReason>) -> JsonModel {
    JsonModel::List(s.map_values(|r: VerdictReason| r.json_model()))
}

fn reasons_json(s: &[VerdictReason]) -> (j: Json)
    ensures
        j@ == reason_list(s@),
{
    let mut items: Vec<Json> = Vec::new();
    let mut i: usize = 0;
    while i < s.len()
        invariant
            i <= s.len(),
            items@.len() == i,
            forall|k: int|
                0 <= k < i ==> #[trigger] canonical::model(items@[k]) == s@[k].json_model(),
        decreases s.len() - i,
    {
        items.push(s[i].to_json());
        i = i + 1;
    }
    proof {
        assert(canonical::models(items@) =~= s@.map_values(|r: VerdictReason| r.json_model()));
    }
    array(items)
}

/// What a list of signals says on the wire.
pub open spec fn signal_list(s: Seq<TamperSignal>) -> JsonModel {
    JsonModel::List(s.map_values(|t: TamperSignal| JsonModel::Text(t.wire_name())))
}

fn signals_json(s: &[TamperSignal]) -> (j: Json)
    ensures
        j@ == signal_list(s@),
{
    let mut items: Vec<Json> = Vec::new();
    let mut i: usize = 0;
    while i < s.len()
        invariant
            i <= s.len(),
            items@.len() == i,
            forall|k: int|
                0 <= k < i ==> #[trigger] canonical::model(items@[k]) == JsonModel::Text(
                    s@[k].wire_name(),
                ),
        decreases s.len() - i,
    {
        items.push(string(s[i].wire()));
        i = i + 1;
    }
    proof {
        assert(canonical::models(items@) =~= s@.map_values(
            |t: TamperSignal| JsonModel::Text(t.wire_name()),
        ));
    }
    array(items)
}

impl IterationState {
    /// What this says on the wire.
    pub open spec fn json_model(self) -> JsonModel {
        JsonModel::Members(
            seq![
                ("count"@, JsonModel::Whole(self.count as int)),
                ("cap"@, JsonModel::Whole(self.cap as int)),
                ("escalated"@, JsonModel::Bool(self.escalated)),
            ],
        )
    }

    /// The iteration state as it goes on the wire.
    pub fn to_json(&self) -> (j: Json)
        ensures
            j@ == self.json_model(),
    {
        let members = vec![
            member("count", Json::Unsigned(self.count as u64)),
            member("cap", Json::Unsigned(self.cap as u64)),
            member("escalated", Json::Bool(self.escalated)),
        ];
        proof {
            assert(canonical::member_models(members@) =~= self.json_model()->Members_0);
        }
        object(members)
    }
}

impl VerdictSummary {
    /// What this says on the wire.
    pub open spec fn json_model(self) -> JsonModel {
        JsonModel::Members(
            seq![
                ("verdict"@, JsonModel::Text(self.verdict.wire_name())),
                ("reasons"@, reason_list(self.reasons@)),
                ("iteration"@, self.iteration.json_model()),
            ],
        )
    }

    /// A verdict as it goes on the wire.
    pub fn to_json(&self) -> (j: Json)
        ensures
            j@ == self.json_model(),
    {
        let members = vec![
            member("verdict", string(self.verdict.wire())),
            member("reasons", reasons_json(self.reasons.as_slice())),
            member("iteration", self.iteration.to_json()),
        ];
        proof {
            assert(canonical::member_models(members@) =~= self.json_model()->Members_0);
        }
        object(members)
    }
}

impl VerifierIdentity {
    /// What this says on the wire.
    pub open spec fn json_model(self) -> JsonModel {
        JsonModel::Members(
            seq![
                ("provider"@, JsonModel::Text(self.provider@)),
                ("run_ref"@, canonical::optional_text(self.run_ref)),
                ("trusted_base_oid"@, JsonModel::Text(self.trusted_base_oid@)),
            ],
        )
    }

    /// A verifier as it goes on the wire.
    pub fn to_json(&self) -> (j: Json)
        ensures
            j@ == self.json_model(),
    {
        let members = vec![
            member("provider", string(self.provider.as_str())),
            member("run_ref", optional_string(&self.run_ref)),
            member("trusted_base_oid", string(self.trusted_base_oid.as_str())),
        ];
        proof {
            assert(canonical::member_models(members@) =~= self.json_model()->Members_0);
        }
        object(members)
    }
}

impl CompareOutcome {
    /// What this says on the wire.
    pub open spec fn json_model(self) -> JsonModel {
        JsonModel::Members(
            seq![
                ("tuple_equal"@, JsonModel::Bool(self.tuple_equal)),
                ("regime_equal"@, JsonModel::Bool(self.regime_equal)),
                ("matched"@, canonical::text_list(self.matched@)),
                ("mismatched"@, canonical::text_list(self.mismatched@)),
                ("unpaired"@, canonical::text_list(self.unpaired@)),
            ],
        )
    }

    /// A compare as it goes on the wire.
    pub fn to_json(&self) -> (j: Json)
        ensures
            j@ == self.json_model(),
    {
        let members = vec![
            member("tuple_equal", Json::Bool(self.tuple_equal)),
            member("regime_equal", Json::Bool(self.regime_equal)),
            member("matched", string_list(self.matched.as_slice())),
            member("mismatched", string_list(self.mismatched.as_slice())),
            member("unpaired", string_list(self.unpaired.as_slice())),
        ];
        proof {
            assert(canonical::member_models(members@) =~= self.json_model()->Members_0);
        }
        object(members)
    }
}

impl AttestationBlock {
    /// What this says on the wire.
    pub open spec fn json_model(self) -> JsonModel {
        JsonModel::Members(
            seq![
                ("value"@, JsonModel::Text(self.value.wire_name())),
                ("tamper_signals"@, signal_list(self.tamper_signals@)),
                (
                    "verifier"@,
                    match self.verifier {
                        Some(x) => x.json_model(),
                        None => JsonModel::Null,
                    },
                ),
                (
                    "compare"@,
                    match self.compare {
                        Some(x) => x.json_model(),
                        None => JsonModel::Null,
                    },
                ),
            ],
        )
    }

    /// The trust half as it goes on the wire.
    pub fn to_json(&self) -> (j: Json)
        ensures
            j@ == self.json_model(),
    {
        let verifier = match &self.verifier {
            Some(x) => x.to_json(),
            None => Json::Null,
        };
        let compare = match &self.compare {
            Some(x) => x.to_json(),
            None => Json::Null,
        };
        let members = vec![
            member("value", string(self.value.wire())),
            member("tamper_signals", signals_json(self.tamper_signals.as_slice())),
            member("verifier", verifier),
            member("compare", compare),
        ];
        proof {
            assert(canonical::member_models(members@) =~= self.json_model()->Members_0);
        }
        object(members)
    }
}

impl MeasurementResult {
    /// What a result that can be carried says on the wire.
    pub open spec fn json_model(self) -> JsonModel {
        JsonModel::Members(
            seq![
                ("metric_id"@, JsonModel::Text(self.metric_id@)),
                ("claim_id"@, JsonModel::Text(self.claim_id@)),
                ("engine_id"@, JsonModel::Text(self.engine_id@)),
                ("family"@, JsonModel::Text(self.family.wire_name())),
                ("engine_class"@, JsonModel::Text(self.engine_class.wire_name())),
                ("metric_class"@, JsonModel::Text(self.metric_class.wire_name())),
                ("scope"@, self.scope.json_model()),
                ("value"@, self.value.json_model()),
                ("delta"@, payload::optional_value_model(self.delta)),
                ("severity"@, JsonModel::Text(self.severity.wire_name())),
                ("completeness"@, JsonModel::Text(self.completeness.wire_name())),
                ("measurement_regime"@, self.measurement_regime.json_model()),
                ("evidence"@, self.evidence.json_model()),
                ("deterministic"@, JsonModel::Bool(self.deterministic)),
                ("digest"@, JsonModel::Text(self.digest@)),
                ("freshness"@, self.freshness.json_model()),
            ],
        )
    }

    /// A result as it goes on the wire, where it can: exactly where it can be
    /// sealed.
    pub fn to_json(&self) -> (r: Result<Json, CanonicalError>)
        ensures
            r is Ok <==> self.sealable(),
            r matches Ok(j) ==> j@ == self.json_model(),
    {
        let value = match self.value.to_json() {
            Ok(j) => j,
            Err(e) => {
                return Err(e);
            },
        };
        let delta = match optional_value_json(self.delta.as_ref()) {
            Ok(j) => j,
            Err(e) => {
                return Err(e);
            },
        };
        let members = vec![
            member("metric_id", string(self.metric_id.as_str())),
            member("claim_id", string(self.claim_id.as_str())),
            member("engine_id", string(self.engine_id.as_str())),
            member("family", string(self.family.wire())),
            member("engine_class", string(self.engine_class.wire())),
            member("metric_class", string(self.metric_class.wire())),
            member("scope", self.scope.to_json()),
            member("value", value),
            member("delta", delta),
            member("severity", string(self.severity.wire())),
            member("completeness", string(self.completeness.wire())),
            member("measurement_regime", self.measurement_regime.to_json()),
            member("evidence", self.evidence.to_json()),
            member("deterministic", Json::Bool(self.deterministic)),
            member("digest", string(self.digest.as_str())),
            member("freshness", self.freshness.to_json()),
        ];
        proof {
            assert(canonical::member_models(members@) =~= self.json_model()->Members_0);
        }
        Ok(object(members))
    }
}

/// What a list of results says on the wire.
pub open spec fn result_list(s: Seq<MeasurementResult>) -> JsonModel {
    JsonModel::List(s.map_values(|r: MeasurementResult| r.json_model()))
}

/// Whether every result can be carried on the wire.
pub open spec fn all_sealable(s: Seq<MeasurementResult>) -> bool {
    forall|i: int| 0 <= i < s.len() ==> (#[trigger] s[i]).sealable()
}

fn results_json(s: &[MeasurementResult]) -> (r: Result<Json, CanonicalError>)
    ensures
        r is Ok <==> all_sealable(s@),
        r matches Ok(j) ==> j@ == result_list(s@),
{
    let mut items: Vec<Json> = Vec::new();
    let mut i: usize = 0;
    while i < s.len()
        invariant
            i <= s.len(),
            items@.len() == i,
            forall|k: int| 0 <= k < i ==> (#[trigger] s@[k]).sealable(),
            forall|k: int|
                0 <= k < i ==> #[trigger] canonical::model(items@[k]) == s@[k].json_model(),
        decreases s.len() - i,
    {
        match s[i].to_json() {
            Ok(j) => {
                items.push(j);
            },
            Err(e) => {
                proof {
                    assert(!s@[i as int].sealable());
                }
                return Err(e);
            },
        }
        i = i + 1;
    }
    proof {
        assert(canonical::models(items@) =~= s@.map_values(
            |r: MeasurementResult| r.json_model(),
        ));
    }
    Ok(array(items))
}

impl MeasurementRecord {
    /// Whether a record can be carried on the wire.
    pub open spec fn carriable(self) -> bool {
        all_sealable(self.results@)
    }

    /// What a record that can be carried says on the wire.
    pub open spec fn json_model(self) -> JsonModel {
        JsonModel::Members(
            seq![
                ("schema_version"@, JsonModel::Whole(self.schema_version as int)),
                ("record_kind"@, JsonModel::Text(self.record_kind.wire_name())),
                ("tool"@, self.tool.json_model()),
                ("compare_context"@, self.compare_context.json_model()),
                ("invocation"@, self.invocation.json_model()),
                ("reserved"@, self.reserved.json_model()),
                ("policy_hash"@, JsonModel::Text(self.policy_hash@)),
                (
                    "substitution"@,
                    match self.substitution {
                        Some(x) => x.json_model(),
                        None => JsonModel::Null,
                    },
                ),
                ("unreadable_paths"@, canonical::text_list(self.unreadable_paths@)),
                (
                    "self_measure"@,
                    match self.self_measure {
                        Some(x) => x.json_model(),
                        None => JsonModel::Null,
                    },
                ),
                ("results"@, result_list(self.results@)),
                ("completeness"@, JsonModel::Text(self.completeness.wire_name())),
                ("verdict"@, self.verdict.json_model()),
                ("attestation"@, self.attestation.json_model()),
            ],
        )
    }

    /// A record as it goes on the wire, where it can.
    pub fn to_json(&self) -> (r: Result<Json, CanonicalError>)
        ensures
            r is Ok <==> self.carriable(),
            r matches Ok(j) ==> j@ == self.json_model(),
    {
        let substitution = match &self.substitution {
            Some(x) => x.to_json(),
            None => Json::Null,
        };
        let self_measure = match &self.self_measure {
            Some(x) => x.to_json(),
            None => Json::Null,
        };
        let results = match results_json(self.results.as_slice()) {
            Ok(j) => j,
            Err(e) => {
                return Err(e);
            },
        };
        let members = vec![
            member("schema_version", Json::Unsigned(self.schema_version as u64)),
            member("record_kind", string(self.record_kind.wire())),
            member("tool", self.tool.to_json()),
            member("compare_context", self.compare_context.to_json()),
            member("invocation", self.invocation.to_json()),
            member("reserved", self.reserved.to_json()),
            member("policy_hash", string(self.policy_hash.as_str())),
            member("substitution", substitution),
            member("unreadable_paths", string_list(self.unreadable_paths.as_slice())),
            member("self_measure", self_measure),
            member("results", results),
            member("completeness", string(self.completeness.wire())),
            member("verdict", self.verdict.to_json()),
            member("attestation", self.attestation.to_json()),
        ];
        proof {
            assert(canonical::member_models(members@) =~= self.json_model()->Members_0);
        }
        Ok(object(members))
    }
}

} // verus!
