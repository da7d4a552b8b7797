//! The agent-mode profile: a named view over a measurement record with a token
//! budget that holds by construction.
//!
//! The agent-facing view is a separate, bounded projection. The bound is kept by
//! adding entries one at a time and stopping before the canonical encoding would
//! cross the budget, with `truncated` telling the agent that it happened. Caps on
//! count and string length keep the common case readable; the encode-and-check
//! loop is what makes the guarantee total.
use vstd::prelude::*;

use super::enums::{
    Attestation, Completeness, EvidenceTier, MetricClass, Severity, Verdict,
};
use super::payload::{
    optional_value_json, HeadKind, IterationState, MeasurementRecord, MeasurementResult,
    MetricValue, ResultScope, VerdictReason, SCHEMA_VERSION,
};
use crate::canonical;
use crate::canonical::{
    array, member, object, optional_string, string, CanonicalError, Json, JsonModel,
};
use crate::policy::{DEFAULT_AGENT_PROFILE_TOKEN_BUDGET, DEFAULT_BYTES_PER_TOKEN};
use crate::schema::payload;
use crate::sorting;
use crate::text;
use crate::text::truncate_bytes;
use crate::verdict;

verus! {

/// The name of this schema view, so a consumer can tell a profile from a full
/// record at a glance.
pub const PROFILE_NAME: &'static str = "agent-mode";

/// Size limits for [`build_agent_profile`].
#[derive(Debug, Clone, Copy, PartialEq, Eq, Structural)]
pub struct AgentProfileBounds {
    /// Hard cap on findings, before the byte budget is even consulted.
    pub max_findings: usize,
    /// Hard cap on verdict reasons, before the byte budget is consulted. Sized
    /// so that every reason one verdict can hold fits: one per detector, one for
    /// a failed suite, and one for each code that is said once.
    pub max_reasons: usize,
    /// Byte cap on identifier-like strings.
    pub max_string_bytes: usize,
    /// Byte cap on the free-text hint.
    pub max_hint_bytes: usize,
    /// The budget the canonical encoding must not exceed.
    pub budget_bytes: usize,
}

impl AgentProfileBounds {
    /// The bounds that a token budget gives.
    pub open spec fn for_tokens(tokens: u32, bytes_per_token: u32) -> Self {
        AgentProfileBounds {
            max_findings: 12,
            max_reasons: 20,
            max_string_bytes: 64,
            max_hint_bytes: 128,
            budget_bytes: (tokens * bytes_per_token) as usize,
        }
    }

    /// Derive bounds from the policy's token budget.
    ///
    /// Tokens are converted with a fixed bytes-per-token factor rather than a
    /// real tokenizer: a deterministic estimator is worth more here than an
    /// accurate one that varies by model. The product has to fit a `usize`.
    pub fn from_token_budget(tokens: u32, bytes_per_token: u32) -> (r: Self)
        requires
            tokens * bytes_per_token <= usize::MAX,
        ensures
            r == (AgentProfileBounds {
                max_findings: 12,
                max_reasons: 20,
                max_string_bytes: 64,
                max_hint_bytes: 128,
                budget_bytes: (tokens * bytes_per_token) as usize,
            }),
            r == Self::for_tokens(tokens, bytes_per_token),
    {
        AgentProfileBounds {
            max_findings: 12,
            max_reasons: 20,
            max_string_bytes: 64,
            max_hint_bytes: 128,
            budget_bytes: (tokens as usize) * (bytes_per_token as usize),
        }
    }
}

impl Default for AgentProfileBounds {
    fn default() -> (r: Self)
        ensures
            r.max_findings == 12,
            r.max_reasons == 20,
            r.max_string_bytes == 64,
            r.max_hint_bytes == 128,
            r.budget_bytes == DEFAULT_AGENT_PROFILE_TOKEN_BUDGET * DEFAULT_BYTES_PER_TOKEN,
    {
        AgentProfileBounds::from_token_budget(
            DEFAULT_AGENT_PROFILE_TOKEN_BUDGET,
            DEFAULT_BYTES_PER_TOKEN,
        )
    }
}

/// The bounded, agent-facing view of a measurement.
#[derive(Debug, Clone, PartialEq, Eq)]
pub struct AgentProfile {
    /// Payload schema version this view belongs to.
    pub schema_version: u32,
    /// Always [`PROFILE_NAME`].
    pub profile: String,
    /// What to do about the change. Read [`Self::verdict_invalid`] first.
    pub verdict: Verdict,
    /// True when the stored verdict contradicts the record it came from.
    pub verdict_invalid: bool,
    /// How much trust the measurement has earned.
    pub attestation: Attestation,
    /// Whether this measurement may count downstream.
    pub counts_downstream: bool,
    /// How complete the measurement behind it was.
    pub completeness: Completeness,
    /// Base commit measured against.
    pub base_oid: String,
    /// The head's identity, of the kind [`Self::head_kind`] names.
    pub head_oid: String,
    /// What `head_oid` identifies.
    pub head_kind: HeadKind,
    /// Present when something other than what was asked for was measured.
    pub measured_instead: Option<String>,
    /// How many changed paths the policy withheld from this measurement.
    pub withheld_paths: u32,
    /// How many changed paths nothing could read.
    pub unread_paths: u32,
    /// Where the agent is against its iteration cap.
    pub iteration: IterationState,
    /// Findings, worst first, cut to fit the budget.
    pub findings: Vec<AgentFinding>,
    /// True when anything was dropped to stay inside the budget.
    pub truncated: bool,
    /// How many findings the full record held.
    pub total_findings: u32,
    /// Why the verdict came out the way it did, worst first.
    pub reasons: Vec<AgentReason>,
    /// How many reasons the full record held.
    pub total_reasons: u32,
}

/// One verdict reason, trimmed for an agent's context.
#[derive(Debug, Clone, PartialEq, Eq)]
pub struct AgentReason {
    /// Stable machine code.
    pub code: String,
    /// How serious this reason is.
    pub severity: Severity,
    /// The reason's own explanation, in its own words.
    pub message: String,
}

/// One finding, trimmed for an agent's context.
#[derive(Debug, Clone, PartialEq, Eq)]
pub struct AgentFinding {
    /// Which metric fired.
    pub metric_id: String,
    /// The claim its number stands on.
    pub claim_id: String,
    /// Rendered location, e.g. `src/index.ts:handleRequest`.
    pub scope: String,
    /// How serious.
    pub severity: Severity,
    /// The measured value.
    pub value: MetricValue,
    /// Change against the base, where one is meaningful.
    pub delta: Option<MetricValue>,
    /// Evidence strength behind the number.
    pub evidence_tier: EvidenceTier,
    /// Whether that evidence is past its expiry.
    pub evidence_stale: bool,
    /// Whether the agent can act on it inside its own change.
    pub diff_actionable: bool,
}

/// What a trimmed reason says.
pub struct AgentReasonModel {
    pub code: Seq<char>,
    pub severity: Severity,
    pub message: Seq<char>,
}

/// What a trimmed finding says.
pub struct AgentFindingModel {
    pub metric_id: Seq<char>,
    pub claim_id: Seq<char>,
    pub scope: Seq<char>,
    pub severity: Severity,
    pub value: MetricValue,
    pub delta: Option<MetricValue>,
    pub evidence_tier: EvidenceTier,
    pub evidence_stale: bool,
    pub diff_actionable: bool,
}

/// What a profile says.
pub struct AgentProfileModel {
    pub schema_version: u32,
    pub profile: Seq<char>,
    pub verdict: Verdict,
    pub verdict_invalid: bool,
    pub attestation: Attestation,
    pub counts_downstream: bool,
    pub completeness: Completeness,
    pub base_oid: Seq<char>,
    pub head_oid: Seq<char>,
    pub head_kind: HeadKind,
    pub measured_instead: Option<Seq<char>>,
    pub withheld_paths: u32,
    pub unread_paths: u32,
    pub iteration: IterationState,
    pub findings: Seq<AgentFindingModel>,
    pub truncated: bool,
    pub total_findings: u32,
    pub reasons: Seq<AgentReasonModel>,
    pub total_reasons: u32,
}

impl View for AgentReason {
    type V = AgentReasonModel;

    open spec fn view(&self) -> AgentReasonModel {
        AgentReasonModel { code: self.code@, severity: self.severity, message: self.message@ }
    }
}

impl View for AgentFinding {
    type V = AgentFindingModel;

    open spec fn view(&self) -> AgentFindingModel {
        AgentFindingModel {
            metric_id: self.metric_id@,
            claim_id: self.claim_id@,
            scope: self.scope@,
            severity: self.severity,
            value: self.value,
            delta: self.delta,
            evidence_tier: self.evidence_tier,
            evidence_stale: self.evidence_stale,
            diff_actionable: self.diff_actionable,
        }
    }
}

impl View for AgentProfile {
    type V = AgentProfileModel;

    open spec fn view(&self) -> AgentProfileModel {
        AgentProfileModel {
            schema_version: self.schema_version,
            profile: self.profile@,
            verdict: self.verdict,
            verdict_invalid: self.verdict_invalid,
            attestation: self.attestation,
            counts_downstream: self.counts_downstream,
            completeness: self.completeness,
            base_oid: self.base_oid@,
            head_oid: self.head_oid@,
            head_kind: self.head_kind,
            measured_instead: match self.measured_instead {
                Some(s) => Some(s@),
                None => None,
            },
            withheld_paths: self.withheld_paths,
            unread_paths: self.unread_paths,
            iteration: self.iteration,
            findings: self.findings@.map_values(|f: AgentFinding| f@),
            truncated: self.truncated,
            total_findings: self.total_findings,
            reasons: self.reasons@.map_values(|r: AgentReason| r@),
            total_reasons: self.total_reasons,
        }
    }
}

// --- the wire -------------------------------------------------------------

impl AgentReasonModel {
    /// What a trimmed reason says on the wire.
    pub open spec fn json_model(self) -> JsonModel {
        JsonModel::Members(
            seq![
                ("code"@, JsonModel::Text(self.code)),
                ("severity"@, JsonModel::Text(self.severity.wire_name())),
                ("message"@, JsonModel::Text(self.message)),
            ],
        )
    }
}

impl AgentReason {
    fn to_json(&self) -> (j: Json)
        ensures
            j@ == self@.json_model(),
    {
        let members = vec![
            member("code", string(self.code.as_str())),
            member("severity", string(self.severity.wire())),
            member("message", string(self.message.as_str())),
        ];
        proof {
            assert(canonical::member_models(members@) =~= self@.json_model()->Members_0);
        }
        object(members)
    }
}

impl AgentFindingModel {
    /// Whether a trimmed finding can be carried on the wire.
    pub open spec fn carriable(self) -> bool {
        self.value.carriable() && payload::optional_carriable(self.delta)
    }

    /// What a trimmed finding says on the wire.
    pub open spec fn json_model(self) -> JsonModel {
        JsonModel::Members(
            seq![
                ("metric_id"@, JsonModel::Text(self.metric_id)),
                ("claim_id"@, JsonModel::Text(self.claim_id)),
                ("scope"@, JsonModel::Text(self.scope)),
                ("severity"@, JsonModel::Text(self.severity.wire_name())),
                ("value"@, self.value.json_model()),
                ("delta"@, payload::optional_value_model(self.delta)),
                ("evidence_tier"@, JsonModel::Text(self.evidence_tier.wire_name())),
                ("evidence_stale"@, JsonModel::Bool(self.evidence_stale)),
                ("diff_actionable"@, JsonModel::Bool(self.diff_actionable)),
            ],
        )
    }
}

impl AgentFinding {
    fn to_json(&self) -> (r: Result<Json, CanonicalError>)
        ensures
            r is Ok <==> self@.carriable(),
            r matches Ok(j) ==> j@ == self@.json_model(),
    {
        let value = match self.value.to_json() {
            Ok(j) => j,
            Err(e) => {
                return Err(e);
            },
        };
        let delta = match optional_value_json(self.delta.as_ref()) {
            Ok(j) => j,
            Err(e) => {
                return Err(e);
            },
        };
        let members = vec![
            member("metric_id", string(self.metric_id.as_str())),
            member("claim_id", string(self.claim_id.as_str())),
            member("scope", string(self.scope.as_str())),
            member("severity", string(self.severity.wire())),
            member("value", value),
            member("delta", delta),
            member("evidence_tier", string(self.evidence_tier.wire())),
            member("evidence_stale", Json::Bool(self.evidence_stale)),
            member("diff_actionable", Json::Bool(self.diff_actionable)),
        ];
        proof {
            assert(canonical::member_models(members@) =~= self@.json_model()->Members_0);
        }
        Ok(object(members))
    }
}

impl AgentProfileModel {
    /// Whether a profile can be carried on the wire.
    pub open spec fn carriable(self) -> bool {
        forall|i: int| 0 <= i < self.findings.len() ==> (#[trigger] self.findings[i]).carriable()
    }

    /// Every member of a profile on the wire but `truncated`.
    pub open spec fn rows(self) -> Seq<(Seq<char>, JsonModel)> {
        seq![
            ("schema_version"@, JsonModel::Whole(self.schema_version as int)),
            ("profile"@, JsonModel::Text(self.profile)),
            ("verdict"@, JsonModel::Text(self.verdict.wire_name())),
            ("verdict_invalid"@, JsonModel::Bool(self.verdict_invalid)),
            ("attestation"@, JsonModel::Text(self.attestation.wire_name())),
            ("counts_downstream"@, JsonModel::Bool(self.counts_downstream)),
            ("completeness"@, JsonModel::Text(self.completeness.wire_name())),
            ("base_oid"@, JsonModel::Text(self.base_oid)),
            ("head_oid"@, JsonModel::Text(self.head_oid)),
            ("head_kind"@, JsonModel::Text(self.head_kind.wire_name())),
            (
                "measured_instead"@,
                match self.measured_instead {
                    Some(s) => JsonModel::Text(s),
                    None => JsonModel::Null,
                },
            ),
            ("withheld_paths"@, JsonModel::Whole(self.withheld_paths as int)),
            ("unread_paths"@, JsonModel::Whole(self.unread_paths as int)),
            ("iteration"@, self.iteration.json_model()),
            (
                "findings"@,
                JsonModel::List(self.findings.map_values(|f: AgentFindingModel| f.json_model())),
            ),
            ("total_findings"@, JsonModel::Whole(self.total_findings as int)),
            (
                "reasons"@,
                JsonModel::List(self.reasons.map_values(|r: AgentReasonModel| r.json_model())),
            ),
            ("total_reasons"@, JsonModel::Whole(self.total_reasons as int)),
        ]
    }

    /// What a profile that can be carried says on the wire.
    pub open spec fn json_model(self) -> JsonModel {
        JsonModel::Members(self.rows().push(("truncated"@, JsonModel::Bool(self.truncated))))
    }

    /// How many bytes a profile takes on the wire. A profile that cannot be
    /// carried has no finite size and counts as over any budget.
    pub open spec fn encoded_size(self) -> nat {
        if self.carriable() {
            text::byte_len(canonical::encode(self.json_model()))
        } else {
            usize::MAX as nat
        }
    }
}

fn findings_json(findings: &Vec<AgentFinding>) -> (r: Result<Json, CanonicalError>)
    ensures
        r is Ok <==> forall|i: int|
            0 <= i < findings@.len() ==> (#[trigger] findings@[i])@.carriable(),
        r matches Ok(j) ==> j@ == JsonModel::List(
            findings@.map_values(|f: AgentFinding| f@).map_values(
                |f: AgentFindingModel| f.json_model(),
            ),
        ),
{
    let mut items: Vec<Json> = Vec::new();
    let mut i: usize = 0;
    while i < findings.len()
        invariant
            i <= findings.len(),
            items@.len() == i,
            forall|k: int| 0 <= k < i ==> (#[trigger] findings@[k])@.carriable(),
            forall|k: int|
                0 <= k < i ==> #[trigger] canonical::model(items@[k]) == findings@[k]@.json_model(),
        decreases findings.len() - i,
    {
        match findings[i].to_json() {
            Ok(j) => {
                items.push(j);
            },
            Err(e) => {
                proof {
                    assert(!findings@[i as int]@.carriable());
                }
                return Err(e);
            },
        }
        i = i + 1;
    }
    proof {
        assert(canonical::models(items@) =~= findings@.map_values(
            |f: AgentFinding| f@,
        ).map_values(|f: AgentFindingModel| f.json_model()));
    }
    Ok(array(items))
}

fn reasons_json(reasons: &Vec<AgentReason>) -> (j: Json)
    ensures
        j@ == JsonModel::List(
            reasons@.map_values(|r: AgentReason| r@).map_values(
                |r: AgentReasonModel| r.json_model(),
            ),
        ),
{
    let mut items: Vec<Json> = Vec::new();
    let mut i: usize = 0;
    while i < reasons.len()
        invariant
            i <= reasons.len(),
            items@.len() == i,
            forall|k: int|
                0 <= k < i ==> #[trigger] canonical::model(items@[k]) == reasons@[k]@.json_model(),
        decreases reasons.len() - i,
    {
        items.push(reasons[i].to_json());
        i = i + 1;
    }
    proof {
        assert(canonical::models(items@) =~= reasons@.map_values(|r: AgentReason| r@).map_values(
            |r: AgentReasonModel| r.json_model(),
        ));
    }
    array(items)
}

impl AgentProfile {
    /// This profile as it goes on the wire, where it can.
    pub fn to_json(&self) -> (r: Result<Json, CanonicalError>)
        ensures
            r is Ok <==> self@.carriable(),
            r matches Ok(j) ==> j@ == self@.json_model(),
    {
        let findings = findings_json(&self.findings);
        proof {
            let views = self.findings@.map_values(|f: AgentFinding| f@);
            if self@.carriable() {
                assert forall|i: int| 0 <= i < self.findings@.len() implies (
                #[trigger] self.findings@[i])@.carriable() by {
                    assert(views[i].carriable());
                }
            }
        }
        let findings = match findings {
            Ok(j) => j,
            Err(e) => {
                return Err(e);
            },
        };
        let members = vec![
            member("schema_version", Json::Unsigned(self.schema_version as u64)),
            member("profile", string(self.profile.as_str())),
            member("verdict", string(self.verdict.wire())),
            member("verdict_invalid", Json::Bool(self.verdict_invalid)),
            member("attestation", string(self.attestation.wire())),
            member("counts_downstream", Json::Bool(self.counts_downstream)),
            member("completeness", string(self.completeness.wire())),
            member("base_oid", string(self.base_oid.as_str())),
            member("head_oid", string(self.head_oid.as_str())),
            member("head_kind", string(self.head_kind.wire())),
            member("measured_instead", optional_string(&self.measured_instead)),
            member("withheld_paths", Json::Unsigned(self.withheld_paths as u64)),
            member("unread_paths", Json::Unsigned(self.unread_paths as u64)),
            member("iteration", self.iteration.to_json()),
            member("findings", findings),
            member("total_findings", Json::Unsigned(self.total_findings as u64)),
            member("reasons", reasons_json(&self.reasons)),
            member("total_reasons", Json::Unsigned(self.total_reasons as u64)),
            member("truncated", Json::Bool(self.truncated)),
        ];
        proof {
            assert(canonical::member_models(members@) =~= self@.json_model()->Members_0);
        }
        Ok(object(members))
    }
}

/// Size of a profile in its canonical encoding.
pub fn encoded_len(profile: &AgentProfile) -> (r: usize)
    ensures
        r == profile@.encoded_size(),
{
    match profile.to_json() {
        Ok(json) => canonical::to_canonical_string(&json).as_str().as_bytes().len(),
        Err(_) => usize::MAX,
    }
}

// --- trimming -------------------------------------------------------------

/// A line span as a reader sees it.
pub open spec fn span_text(scope: ResultScope) -> Option<Seq<char>> {
    match scope.line_span {
        Some(span) => Some(
            text::decimal(span.start as nat) + "-"@ + text::decimal(span.end as nat),
        ),
        None => None,
    }
}

/// Where a finding is, as a reader sees it: path, span, symbol, as far as the
/// scope has them. The span sits between path and symbol so that the prefix
/// stays an editor-clickable reference.
pub open spec fn scope_label(scope: ResultScope) -> Seq<char> {
    match scope.path {
        Some(path) => path@ + (match span_text(scope) {
            Some(span) => ":"@ + span,
            None => Seq::empty(),
        }) + (match scope.symbol {
            Some(symbol) => ":"@ + symbol@,
            None => Seq::empty(),
        }),
        None => match scope.symbol {
            Some(symbol) => symbol@,
            None => scope.kind.lower_variant_name(),
        },
    }
}

fn render_scope(scope: &ResultScope) -> (r: String)
    ensures
        r@ == scope_label(*scope),
{
    match &scope.path {
        Some(path) => {
            let mut out = path.clone();
            let mut span_part = String::new();
            if let Some(span) = &scope.line_span {
                span_part.append(":");
                let mut range = text::decimal_text(span.start as u64);
                range.append("-");
                range.append(text::decimal_text(span.end as u64).as_str());
                span_part.append(range.as_str());
                proof {
                    assert(span_part@ =~= ":"@ + range@);
                }
            }
            let mut symbol_part = String::new();
            if let Some(symbol) = &scope.symbol {
                symbol_part.append(":");
                symbol_part.append(symbol.as_str());
                proof {
                    assert(symbol_part@ =~= ":"@ + symbol@);
                }
            }
            out.append(span_part.as_str());
            out.append(symbol_part.as_str());
            out
        },
        None => match &scope.symbol {
            Some(symbol) => symbol.clone(),
            None => scope.kind.lower_name().to_owned(),
        },
    }
}

/// A reason, trimmed.
pub open spec fn trimmed_reason(
    reason: VerdictReason,
    bounds: AgentProfileBounds,
) -> AgentReasonModel {
    AgentReasonModel {
        code: text::clipped(reason.code@, bounds.max_string_bytes as int),
        severity: reason.severity,
        message: text::clipped(reason.message@, bounds.max_hint_bytes as int),
    }
}

fn trim_reason(reason: &VerdictReason, bounds: &AgentProfileBounds) -> (r: AgentReason)
    ensures
        r@ == trimmed_reason(*reason, *bounds),
{
    AgentReason {
        code: truncate_bytes(reason.code.as_str(), bounds.max_string_bytes),
        severity: reason.severity,
        message: truncate_bytes(reason.message.as_str(), bounds.max_hint_bytes),
    }
}

/// A result, trimmed to a finding.
pub open spec fn trimmed_finding(
    result: MeasurementResult,
    bounds: AgentProfileBounds,
) -> AgentFindingModel {
    AgentFindingModel {
        metric_id: text::clipped(result.metric_id@, bounds.max_string_bytes as int),
        claim_id: text::clipped(result.claim_id@, bounds.max_string_bytes as int),
        scope: text::clipped(scope_label(result.scope), bounds.max_hint_bytes as int),
        severity: result.severity,
        value: result.value,
        delta: result.delta,
        evidence_tier: result.evidence.tier,
        evidence_stale: result.evidence.stale,
        diff_actionable: result.metric_class == MetricClass::DiffActionable,
    }
}

fn trim_finding(result: &MeasurementResult, bounds: &AgentProfileBounds) -> (r: AgentFinding)
    ensures
        r@ == trimmed_finding(*result, *bounds),
{
    AgentFinding {
        metric_id: truncate_bytes(result.metric_id.as_str(), bounds.max_string_bytes),
        claim_id: truncate_bytes(result.claim_id.as_str(), bounds.max_string_bytes),
        scope: truncate_bytes(render_scope(&result.scope).as_str(), bounds.max_hint_bytes),
        severity: result.severity,
        value: result.value.clone(),
        delta: match &result.delta {
            Some(delta) => Some(delta.clone()),
            None => None,
        },
        evidence_tier: result.evidence.tier,
        evidence_stale: result.evidence.stale,
        diff_actionable: result.metric_class == MetricClass::DiffActionable,
    }
}

/// Worst first, and where two are equally serious, by name.
pub open spec fn worse(a: Severity, a_name: Seq<char>, b: Severity, b_name: Seq<char>) -> bool {
    a.rank() > b.rank() || (a.rank() == b.rank() && text::text_less(a_name, b_name))
}

fn is_worse(a: Severity, a_name: &str, b: Severity, b_name: &str) -> (r: bool)
    ensures
        r == worse(a, a_name@, b, b_name@),
{
    a.level() > b.level() || (a.level() == b.level() && text::text_before(a_name, b_name))
}

/// The order of reasons in a profile.
pub open spec fn reason_order() -> spec_fn(VerdictReason, VerdictReason) -> bool {
    |a: VerdictReason, b: VerdictReason| worse(a.severity, a.code@, b.severity, b.code@)
}

/// The order of findings in a profile.
pub open spec fn finding_order() -> spec_fn(MeasurementResult, MeasurementResult) -> bool {
    |a: MeasurementResult, b: MeasurementResult|
        worse(a.severity, a.metric_id@, b.severity, b.metric_id@)
}

/// The first `cap` of a sequence, or all of it.
pub open spec fn at_most<T>(s: Seq<T>, cap: usize) -> Seq<T> {
    if s.len() <= cap {
        s
    } else {
        s.take(cap as int)
    }
}

/// The reasons a profile has room for by count, worst first.
pub open spec fn candidate_reasons(
    record: MeasurementRecord,
    bounds: AgentProfileBounds,
) -> Seq<AgentReasonModel> {
    at_most(
        sorting::sorted(record.verdict.reasons@, reason_order()).map_values(
            |r: VerdictReason| trimmed_reason(r, bounds),
        ),
        bounds.max_reasons,
    )
}

/// The findings a profile has room for by count, worst first.
pub open spec fn candidate_findings(
    record: MeasurementRecord,
    bounds: AgentProfileBounds,
) -> Seq<AgentFindingModel> {
    at_most(
        sorting::sorted(record.results@, finding_order()).map_values(
            |r: MeasurementResult| trimmed_finding(r, bounds),
        ),
        bounds.max_findings,
    )
}

// --- the budget -----------------------------------------------------------

impl AgentProfileModel {
    /// A profile with one more reason.
    pub open spec fn with_reason(self, reason: AgentReasonModel) -> AgentProfileModel {
        AgentProfileModel { reasons: self.reasons.push(reason), ..self }
    }

    /// A profile with one more finding.
    pub open spec fn with_finding(self, finding: AgentFindingModel) -> AgentProfileModel {
        AgentProfileModel { findings: self.findings.push(finding), ..self }
    }

    /// A profile that says whether something was dropped.
    pub open spec fn marked(self, truncated: bool) -> AgentProfileModel {
        AgentProfileModel { truncated, ..self }
    }
}

/// A profile with as many leading reasons as the budget takes.
pub open spec fn filled_with_reasons(
    p: AgentProfileModel,
    reasons: Seq<AgentReasonModel>,
    budget: nat,
) -> AgentProfileModel
    decreases reasons.len(),
{
    if reasons.len() == 0 {
        p
    } else if p.with_reason(reasons[0]).encoded_size() > budget {
        p.marked(true)
    } else {
        filled_with_reasons(p.with_reason(reasons[0]), reasons.drop_first(), budget)
    }
}

/// A profile with as many leading findings as the budget takes.
pub open spec fn filled_with_findings(
    p: AgentProfileModel,
    findings: Seq<AgentFindingModel>,
    budget: nat,
) -> AgentProfileModel
    decreases findings.len(),
{
    if findings.len() == 0 {
        p
    } else if p.with_finding(findings[0]).encoded_size() > budget {
        p.marked(true)
    } else {
        filled_with_findings(p.with_finding(findings[0]), findings.drop_first(), budget)
    }
}

/// A profile before any reason or finding.
pub open spec fn header(record: MeasurementRecord, bounds: AgentProfileBounds) -> AgentProfileModel {
    AgentProfileModel {
        schema_version: SCHEMA_VERSION,
        profile: PROFILE_NAME@,
        verdict: record.verdict.verdict,
        verdict_invalid: verdict::contradicted(record),
        attestation: record.attestation.value,
        counts_downstream: record.attestation.value.is_pass(),
        completeness: record.completeness,
        base_oid: text::clipped(
            record.compare_context.base_oid@,
            bounds.max_string_bytes as int,
        ),
        head_oid: text::clipped(
            record.compare_context.head_oid@,
            bounds.max_string_bytes as int,
        ),
        head_kind: record.compare_context.head_kind,
        measured_instead: match record.substitution {
            Some(s) => Some(text::clipped(s.measured@, bounds.max_hint_bytes as int)),
            None => None,
        },
        withheld_paths: match record.self_measure {
            Some(p) => p.excluded_paths@.len() as u32,
            None => 0,
        },
        unread_paths: record.unreadable_paths@.len() as u32,
        iteration: record.verdict.iteration,
        findings: Seq::empty(),
        truncated: false,
        total_findings: record.results@.len() as u32,
        reasons: Seq::empty(),
        total_reasons: record.verdict.reasons@.len() as u32,
    }
}

/// A profile once its reasons are in.
pub open spec fn explained(
    record: MeasurementRecord,
    bounds: AgentProfileBounds,
) -> AgentProfileModel {
    let filled = filled_with_reasons(
        header(record, bounds),
        candidate_reasons(record, bounds),
        bounds.budget_bytes as nat,
    );
    filled.marked(filled.truncated || record.verdict.reasons@.len() > bounds.max_reasons)
}

/// The profile of a record. Reasons go in before findings: a squeezed budget
/// spends detail before it spends the explanation.
pub open spec fn profile_of(
    record: MeasurementRecord,
    bounds: AgentProfileBounds,
) -> AgentProfileModel {
    let filled = filled_with_findings(
        explained(record, bounds),
        candidate_findings(record, bounds),
        bounds.budget_bytes as nat,
    );
    filled.marked(filled.truncated || record.results@.len() > bounds.max_findings)
}

fn start_profile(record: &MeasurementRecord, bounds: &AgentProfileBounds) -> (p: AgentProfile)
    ensures
        p@ == header(*record, *bounds),
{
    let p = AgentProfile {
        schema_version: SCHEMA_VERSION,
        profile: PROFILE_NAME.to_owned(),
        verdict: record.verdict.verdict,
        verdict_invalid: verdict::stored_verdict_is_contradicted(record),
        attestation: record.attestation.value,
        counts_downstream: record.attestation.value.counts_downstream(),
        completeness: record.completeness,
        base_oid: truncate_bytes(
            record.compare_context.base_oid.as_str(),
            bounds.max_string_bytes,
        ),
        head_oid: truncate_bytes(
            record.compare_context.head_oid.as_str(),
            bounds.max_string_bytes,
        ),
        head_kind: record.compare_context.head_kind,
        measured_instead: match &record.substitution {
            Some(s) => Some(truncate_bytes(s.measured.as_str(), bounds.max_hint_bytes)),
            None => None,
        },
        withheld_paths: match &record.self_measure {
            Some(p) => p.excluded_paths.len() as u32,
            None => 0,
        },
        unread_paths: record.unreadable_paths.len() as u32,
        iteration: record.verdict.iteration,
        findings: Vec::new(),
        truncated: false,
        total_findings: record.results.len() as u32,
        reasons: Vec::new(),
        total_reasons: record.verdict.reasons.len() as u32,
    };
    proof {
        assert(p@.findings =~= Seq::empty());
        assert(p@.reasons =~= Seq::empty());
    }
    p
}

fn sorted_reasons<'r>(reasons: &'r Vec<VerdictReason>) -> (r: Vec<&'r VerdictReason>)
    ensures
        r@.map_values(|x: &VerdictReason| *x) == sorting::sorted(reasons@, reason_order()),
{
    let ghost f = |x: &VerdictReason| *x;
    let ghost lt = |a: &VerdictReason, b: &VerdictReason|
        worse(a.severity, a.code@, b.severity, b.code@);
    let mut all: Vec<&'r VerdictReason> = Vec::new();
    let mut i: usize = 0;
    while i < reasons.len()
        invariant
            i <= reasons.len(),
            all@.len() == i,
            forall|k: int| 0 <= k < i ==> *#[trigger] all@[k] == reasons@[k],
        decreases reasons.len() - i,
    {
        all.push(&reasons[i]);
        i = i + 1;
    }
    let less = |a: &&VerdictReason, b: &&VerdictReason| -> (r: bool)
        ensures
            r == worse(a.severity, a.code@, b.severity, b.code@),
        { is_worse(a.severity, a.code.as_str(), b.severity, b.code.as_str()) };
    proof {
        assert(all@.map_values(f) =~= reasons@);
        sorting::lemma_sorted_map(all@, f, lt, reason_order());
    }
    sorting::stable_sort(all, less, Ghost(lt))
}

fn sorted_findings<'r>(results: &'r Vec<MeasurementResult>) -> (r: Vec<&'r MeasurementResult>)
    ensures
        r@.map_values(|x: &MeasurementResult| *x) == sorting::sorted(results@, finding_order()),
{
    let ghost f = |x: &MeasurementResult| *x;
    let ghost lt = |a: &MeasurementResult, b: &MeasurementResult|
        worse(a.severity, a.metric_id@, b.severity, b.metric_id@);
    let mut all: Vec<&'r MeasurementResult> = Vec::new();
    let mut i: usize = 0;
    while i < results.len()
        invariant
            i <= results.len(),
            all@.len() == i,
            forall|k: int| 0 <= k < i ==> *#[trigger] all@[k] == results@[k],
        decreases results.len() - i,
    {
        all.push(&results[i]);
        i = i + 1;
    }
    let less = |a: &&MeasurementResult, b: &&MeasurementResult| -> (r: bool)
        ensures
            r == worse(a.severity, a.metric_id@, b.severity, b.metric_id@),
        { is_worse(a.severity, a.metric_id.as_str(), b.severity, b.metric_id.as_str()) };
    proof {
        assert(all@.map_values(f) =~= results@);
        sorting::lemma_sorted_map(all@, f, lt, finding_order());
    }
    sorting::stable_sort(all, less, Ghost(lt))
}

fn add_reasons(
    profile: &mut AgentProfile,
    record: &MeasurementRecord,
    bounds: &AgentProfileBounds,
)
    ensures
        final(profile)@ == filled_with_reasons(
            old(profile)@,
            candidate_reasons(*record, *bounds),
            bounds.budget_bytes as nat,
        ),
{
    let ordered = sorted_reasons(&record.verdict.reasons);
    let ghost all = candidate_reasons(*record, *bounds);
    let n = if ordered.len() <= bounds.max_reasons {
        ordered.len()
    } else {
        bounds.max_reasons
    };
    let ghost goal = filled_with_reasons(profile@, all, bounds.budget_bytes as nat);
    proof {
        let sorted = sorting::sorted(record.verdict.reasons@, reason_order());
        assert(sorted == ordered@.map_values(|x: &VerdictReason| *x));
        assert(all.len() == n);
        assert forall|k: int| 0 <= k < n implies all[k] == trimmed_reason(
            *#[trigger] ordered@[k],
            *bounds,
        ) by {
            assert(sorted[k] == *ordered@[k]);
        }
        assert(all.skip(0) =~= all);
    }
    let mut i: usize = 0;
    while i < n
        invariant_except_break
            goal == filled_with_reasons(
                profile@,
                all.skip(i as int),
                bounds.budget_bytes as nat,
            ),
        invariant
            i <= n,
            n <= ordered@.len(),
            all.len() == n,
            forall|k: int|
                0 <= k < n ==> all[k] == trimmed_reason(*#[trigger] ordered@[k], *bounds),
        ensures
            goal == profile@,
        decreases n - i,
    {
        let ghost before = profile@;
        let ghost rest = all.skip(i as int);
        let reason = trim_reason(ordered[i], bounds);
        profile.reasons.push(reason);
        proof {
            assert(rest[0] == all[i as int]);
            assert(rest.drop_first() =~= all.skip(i + 1));
            assert(profile@.reasons =~= before.reasons.push(rest[0]));
            assert(profile@ == before.with_reason(rest[0]));
        }
        if encoded_len(profile) > bounds.budget_bytes {
            // This reason pushed the profile over; drop it and stop.
            profile.reasons.pop();
            profile.truncated = true;
            proof {
                assert(profile@.reasons =~= before.reasons);
                assert(profile@ == before.marked(true));
            }
            break ;
        }
        i = i + 1;
        proof {
            if i == n {
                assert(all.skip(i as int) =~= Seq::empty());
            }
        }
    }
}

fn add_findings(
    profile: &mut AgentProfile,
    record: &MeasurementRecord,
    bounds: &AgentProfileBounds,
)
    ensures
        final(profile)@ == filled_with_findings(
            old(profile)@,
            candidate_findings(*record, *bounds),
            bounds.budget_bytes as nat,
        ),
{
    let ordered = sorted_findings(&record.results);
    let ghost all = candidate_findings(*record, *bounds);
    let n = if ordered.len() <= bounds.max_findings {
        ordered.len()
    } else {
        bounds.max_findings
    };
    let ghost goal = filled_with_findings(profile@, all, bounds.budget_bytes as nat);
    proof {
        let sorted = sorting::sorted(record.results@, finding_order());
        assert(sorted == ordered@.map_values(|x: &MeasurementResult| *x));
        assert(all.len() == n);
        assert forall|k: int| 0 <= k < n implies all[k] == trimmed_finding(
            *#[trigger] ordered@[k],
            *bounds,
        ) by {
            assert(sorted[k] == *ordered@[k]);
        }
        assert(all.skip(0) =~= all);
    }
    let mut i: usize = 0;
    while i < n
        invariant_except_break
            goal == filled_with_findings(
                profile@,
                all.skip(i as int),
                bounds.budget_bytes as nat,
            ),
        invariant
            i <= n,
            n <= ordered@.len(),
            all.len() == n,
            forall|k: int|
                0 <= k < n ==> all[k] == trimmed_finding(*#[trigger] ordered@[k], *bounds),
        ensures
            goal == profile@,
        decreases n - i,
    {
        let ghost before = profile@;
        let ghost rest = all.skip(i as int);
        let finding = trim_finding(ordered[i], bounds);
        profile.findings.push(finding);
        proof {
            assert(rest[0] == all[i as int]);
            assert(rest.drop_first() =~= all.skip(i + 1));
            assert(profile@.findings =~= before.findings.push(rest[0]));
            assert(profile@ == before.with_finding(rest[0]));
        }
        if encoded_len(profile) > bounds.budget_bytes {
            // This finding pushed the profile over; drop it and stop.
            profile.findings.pop();
            profile.truncated = true;
            proof {
                assert(profile@.findings =~= before.findings);
                assert(profile@ == before.marked(true));
            }
            break ;
        }
        i = i + 1;
        proof {
            if i == n {
                assert(all.skip(i as int) =~= Seq::empty());
            }
        }
    }
}

/// Project a record into the bounded agent view.
///
/// Findings and reasons are ordered worst-first before truncation, so what gets
/// dropped under a tight budget is always the least serious.
pub fn build_agent_profile(record: &MeasurementRecord, bounds: &AgentProfileBounds) -> (r:
    AgentProfile)
    ensures
        r@ == profile_of(*record, *bounds),
{
    let mut profile = start_profile(record, bounds);
    add_reasons(&mut profile, record, bounds);
    profile.truncated = profile.truncated || record.verdict.reasons.len() > bounds.max_reasons;
    add_findings(&mut profile, record, bounds);
    profile.truncated = profile.truncated || record.results.len() > bounds.max_findings;
    profile
}

// --- laws -----------------------------------------------------------------

proof fn lemma_marking_shrinks(p: AgentProfileModel)
    requires
        !p.truncated,
    ensures
        p.marked(true).encoded_size() <= p.encoded_size(),
{
    let q = p.marked(true);
    assert(p.rows() =~= q.rows());
    assert(p.carriable() == q.carriable());
    let a = q.rows().push(("truncated"@, JsonModel::Bool(true)));
    let b = p.rows().push(("truncated"@, JsonModel::Bool(false)));
    let yes = seq!['t', 'r', 'u', 'e'];
    let no = seq!['f', 'a', 'l', 's', 'e'];
    assert(text::byte_len(yes) <= text::byte_len(no)) by {
        lemma_ascii_len(yes);
        lemma_ascii_len(no);
    }
    assert forall|i: int| 0 <= i < a.len() implies (#[trigger] a[i]).0 == b[i].0 && text::byte_len(
        canonical::encode(a[i].1),
    ) <= text::byte_len(canonical::encode(b[i].1)) by {
        if i < p.rows().len() {
            assert(a[i] == b[i]);
        }
    }
    canonical::lemma_members_no_longer(a, b);
}

proof fn lemma_ascii_len(s: Seq<char>)
    requires
        forall|i: int| 0 <= i < s.len() ==> (#[trigger] s[i]) as u32 <= 0x7f,
    ensures
        text::byte_len(s) == s.len(),
    decreases s.len(),
{
    if s.len() > 0 {
        lemma_ascii_len(s.drop_first());
    }
}

proof fn lemma_reasons_filled(p: AgentProfileModel, reasons: Seq<AgentReasonModel>, budget: nat)
    requires
        !p.truncated,
    ensures
        ({
            let q = filled_with_reasons(p, reasons, budget);
            let k = q.reasons.len() - p.reasons.len();
            &&& 0 <= k <= reasons.len()
            &&& q == AgentProfileModel {
                reasons: p.reasons + reasons.take(k),
                truncated: k < reasons.len(),
                ..p
            }
            &&& k > 0 ==> q.encoded_size() <= budget
            &&& k == 0 && p.encoded_size() <= budget ==> q.encoded_size() <= budget
        }),
    decreases reasons.len(),
{
    let q = filled_with_reasons(p, reasons, budget);
    if reasons.len() == 0 {
        assert(p.reasons + reasons.take(0) =~= p.reasons);
    } else {
        let next = p.with_reason(reasons[0]);
        if next.encoded_size() > budget {
            assert(p.reasons + reasons.take(0) =~= p.reasons);
            lemma_marking_shrinks(p);
        } else {
            let rest = reasons.drop_first();
            lemma_reasons_filled(next, rest, budget);
            let k = q.reasons.len() - p.reasons.len();
            assert(next.reasons + rest.take(k - 1) =~= p.reasons + reasons.take(k));
        }
    }
}

proof fn lemma_findings_filled(p: AgentProfileModel, findings: Seq<AgentFindingModel>, budget: nat)
    ensures
        ({
            let q = filled_with_findings(p, findings, budget);
            let k = q.findings.len() - p.findings.len();
            &&& 0 <= k <= findings.len()
            &&& q == AgentProfileModel {
                findings: p.findings + findings.take(k),
                truncated: p.truncated || k < findings.len(),
                ..p
            }
            &&& k > 0 ==> q.encoded_size() <= budget
            &&& p.encoded_size() <= budget ==> q.encoded_size() <= budget
        }),
    decreases findings.len(),
{
    let q = filled_with_findings(p, findings, budget);
    if findings.len() == 0 {
        assert(p.findings + findings.take(0) =~= p.findings);
    } else {
        let next = p.with_finding(findings[0]);
        if next.encoded_size() > budget {
            assert(p.findings + findings.take(0) =~= p.findings);
            if p.truncated {
                assert(p.marked(true) == p);
            } else {
                lemma_marking_shrinks(p);
            }
        } else {
            let rest = findings.drop_first();
            lemma_findings_filled(next, rest, budget);
            let k = q.findings.len() - p.findings.len();
            assert(next.findings + rest.take(k - 1) =~= p.findings + findings.take(k));
        }
    }
}

/// What a profile keeps: the leading reasons and the leading findings, worst
/// first, and whether anything was left out.
proof fn lemma_kept(record: MeasurementRecord, bounds: AgentProfileBounds)
    ensures
        ({
            let p = profile_of(record, bounds);
            let reasons = candidate_reasons(record, bounds);
            let findings = candidate_findings(record, bounds);
            &&& p.reasons.len() <= reasons.len()
            &&& p.reasons == reasons.take(p.reasons.len() as int)
            &&& p.findings.len() <= findings.len()
            &&& p.findings == findings.take(p.findings.len() as int)
            &&& p.truncated == (p.reasons.len() < reasons.len() || p.findings.len()
                < findings.len() || record.verdict.reasons@.len() > bounds.max_reasons
                || record.results@.len() > bounds.max_findings)
            &&& p.reasons.len() > 0 || p.findings.len() > 0 ==> p.encoded_size()
                <= bounds.budget_bytes
        }),
{
    let budget = bounds.budget_bytes as nat;
    let head = header(record, bounds);
    let reasons = candidate_reasons(record, bounds);
    let findings = candidate_findings(record, bounds);
    let first = filled_with_reasons(head, reasons, budget);
    lemma_reasons_filled(head, reasons, budget);
    assert(first.reasons =~= reasons.take(first.reasons.len() as int));
    let said = explained(record, bounds);
    if said.truncated && !first.truncated {
        lemma_marking_shrinks(first);
    } else {
        assert(said == first);
    }
    let second = filled_with_findings(said, findings, budget);
    lemma_findings_filled(said, findings, budget);
    assert(second.findings =~= findings.take(second.findings.len() as int));
    let p = profile_of(record, bounds);
    if p.truncated && !second.truncated {
        lemma_marking_shrinks(second);
    } else {
        assert(p == second);
    }
}

/// A profile that carries anything is inside its budget, whatever the record.
/// Only a header that is over the budget by itself can exceed it.
pub proof fn lemma_profile_stays_inside_its_budget(
    record: MeasurementRecord,
    bounds: AgentProfileBounds,
)
    ensures
        profile_of(record, bounds).encoded_size() <= bounds.budget_bytes || (profile_of(
            record,
            bounds,
        ).reasons.len() == 0 && profile_of(record, bounds).findings.len() == 0),
{
    lemma_kept(record, bounds);
}

/// A profile says that it was truncated exactly when a reason or a finding of
/// the record is missing from it.
pub proof fn lemma_truncation_is_announced(record: MeasurementRecord, bounds: AgentProfileBounds)
    ensures
        profile_of(record, bounds).truncated <==> (profile_of(record, bounds).reasons.len()
            < record.verdict.reasons@.len() || profile_of(record, bounds).findings.len()
            < record.results@.len()),
{
    lemma_kept(record, bounds);
    sorting::lemma_sorted_keeps_items(record.verdict.reasons@, reason_order());
    sorting::lemma_sorted_keeps_items(record.results@, finding_order());
}

proof fn lemma_worse_orders<T>(
    lt: spec_fn(T, T) -> bool,
    severity: spec_fn(T) -> Severity,
    name: spec_fn(T) -> Seq<char>,
)
    requires
        forall|a: T, b: T| #[trigger]
            lt(a, b) == worse(severity(a), name(a), severity(b), name(b)),
    ensures
        sorting::strict_weak_order(lt),
{
    let key = |x: T| seq![-severity(x).rank()] + text::byte_key(name(x));
    assert forall|a: T, b: T| #[trigger] lt(a, b) == text::lex_less(key(a), key(b)) by {
        text::lemma_lex_first(
            -severity(a).rank(),
            -severity(b).rank(),
            text::byte_key(name(a)),
            text::byte_key(name(b)),
        );
    }
    sorting::lemma_order_by_key(lt, key);
}

/// What a profile shows is the worst of what the record holds: the findings it
/// keeps come worst first, and no result it leaves out is more severe than one it
/// keeps. The same holds of reasons.
pub proof fn lemma_the_worst_survives(record: MeasurementRecord, bounds: AgentProfileBounds)
    ensures
        ({
            let p = profile_of(record, bounds);
            let results = sorting::sorted(record.results@, finding_order());
            let reasons = sorting::sorted(record.verdict.reasons@, reason_order());
            &&& results.to_multiset() =~= record.results@.to_multiset()
            &&& reasons.to_multiset() =~= record.verdict.reasons@.to_multiset()
            &&& p.findings.len() <= results.len()
            &&& p.reasons.len() <= reasons.len()
            &&& forall|i: int|
                0 <= i < p.findings.len() ==> #[trigger] p.findings[i] == trimmed_finding(
                    results[i],
                    bounds,
                )
            &&& forall|i: int|
                0 <= i < p.reasons.len() ==> #[trigger] p.reasons[i] == trimmed_reason(
                    reasons[i],
                    bounds,
                )
            &&& forall|i: int, j: int|
                0 <= i < p.findings.len() && i < j < results.len() ==> (
                #[trigger] results[i]).severity.rank() >= (#[trigger] results[j]).severity.rank()
            &&& forall|i: int, j: int|
                0 <= i < p.reasons.len() && i < j < reasons.len() ==> (
                #[trigger] reasons[i]).severity.rank() >= (#[trigger] reasons[j]).severity.rank()
        }),
{
    lemma_kept(record, bounds);
    let p = profile_of(record, bounds);
    let results = sorting::sorted(record.results@, finding_order());
    let reasons = sorting::sorted(record.verdict.reasons@, reason_order());
    sorting::lemma_sorted_keeps_items(record.verdict.reasons@, reason_order());
    sorting::lemma_sorted_keeps_items(record.results@, finding_order());
    lemma_worse_orders(
        finding_order(),
        |r: MeasurementResult| r.severity,
        |r: MeasurementResult| r.metric_id@,
    );
    lemma_worse_orders(
        reason_order(),
        |r: VerdictReason| r.severity,
        |r: VerdictReason| r.code@,
    );
    sorting::lemma_sorted_ascending(record.results@, finding_order());
    sorting::lemma_sorted_ascending(record.verdict.reasons@, reason_order());
    assert forall|i: int, j: int| 0 <= i < p.findings.len() && i < j
        < results.len() implies (
    #[trigger] results[i]).severity.rank() >= (#[trigger] results[j]).severity.rank() by {
        assert(!finding_order()(results[j], results[i]));
    }
    assert forall|i: int, j: int| 0 <= i < p.reasons.len() && i < j
        < reasons.len() implies (
    #[trigger] reasons[i]).severity.rank() >= (#[trigger] reasons[j]).severity.rank() by {
        assert(!reason_order()(reasons[j], reasons[i]));
    }
}

// --- what a profile says --------------------------------------------------

/// Whether a text is another cut to a number of bytes: as much of its front as
/// fits.
pub open spec fn cut_to(short: Seq<char>, full: Seq<char>, max: int) -> bool {
    &&& short.len() <= full.len()
    &&& short == full.take(short.len() as int)
    &&& text::byte_len(short) <= max
    &&& short.len() < full.len() ==> text::byte_len(full.take(short.len() as int + 1)) > max
}

proof fn lemma_cut(full: Seq<char>, max: int)
    requires
        max >= 0,
    ensures
        cut_to(text::clipped(full, max), full, max),
{
    text::lemma_clipped(full, max);
}

/// Whether a finding says of a result what an agent needs to know of it.
pub open spec fn tells_of(
    f: AgentFindingModel,
    r: MeasurementResult,
    bounds: AgentProfileBounds,
) -> bool {
    &&& cut_to(f.metric_id, r.metric_id@, bounds.max_string_bytes as int)
    &&& cut_to(f.claim_id, r.claim_id@, bounds.max_string_bytes as int)
    &&& f.severity == r.severity
    &&& f.value == r.value
    &&& f.delta == r.delta
    &&& f.evidence_tier == r.evidence.tier
    &&& f.evidence_stale <==> r.evidence.stale
    &&& f.diff_actionable <==> r.metric_class == MetricClass::DiffActionable
    &&& exists|place: Seq<char>| #[trigger]
        located(place, r.scope) && cut_to(f.scope, place, bounds.max_hint_bytes as int)
}

/// Whether a text says where a result is: the path, the lines and the symbol, as
/// far as there are any, with a colon between them, and the kind of scope where
/// there is neither path nor symbol.
pub open spec fn located(place: Seq<char>, scope: ResultScope) -> bool {
    match (scope.path, scope.line_span, scope.symbol) {
        (Some(path), Some(span), Some(symbol)) => place == path@ + ":"@ + text::decimal(
            span.start as nat,
        ) + "-"@ + text::decimal(span.end as nat) + ":"@ + symbol@,
        (Some(path), Some(span), None) => place == path@ + ":"@ + text::decimal(span.start as nat)
            + "-"@ + text::decimal(span.end as nat),
        (Some(path), None, Some(symbol)) => place == path@ + ":"@ + symbol@,
        (Some(path), None, None) => place == path@,
        (None, _, Some(symbol)) => place == symbol@,
        (None, _, None) => match scope.kind {
            payload::ScopeKind::Repository => place == "repository"@,
            payload::ScopeKind::Change => place == "change"@,
            payload::ScopeKind::File => place == "file"@,
            payload::ScopeKind::Function => place == "function"@,
        },
    }
}

proof fn lemma_located(scope: ResultScope)
    ensures
        located(scope_label(scope), scope),
{
    let label = scope_label(scope);
    match (scope.path, scope.line_span, scope.symbol) {
        (Some(path), Some(span), Some(symbol)) => {
            assert(label =~= path@ + ":"@ + text::decimal(span.start as nat) + "-"@ + text::decimal(
                span.end as nat,
            ) + ":"@ + symbol@);
        },
        (Some(path), Some(span), None) => {
            assert(label =~= path@ + ":"@ + text::decimal(span.start as nat) + "-"@ + text::decimal(
                span.end as nat,
            ));
        },
        (Some(path), None, Some(symbol)) => {
            assert(label =~= path@ + ":"@ + symbol@);
        },
        (Some(path), None, None) => {
            assert(label =~= path@);
        },
        _ => {},
    }
}

/// Whether results stand worst first, by metric where they are equally serious.
pub open spec fn results_worst_first(s: Seq<MeasurementResult>) -> bool {
    forall|i: int, j: int|
        0 <= i < j < s.len() ==> {
            let (a, b) = (#[trigger] s[i], #[trigger] s[j]);
            a.severity.rank() > b.severity.rank() || (a.severity == b.severity
                && !text::text_less(b.metric_id@, a.metric_id@))
        }
}

/// Whether reasons stand worst first, by code where they are equally serious.
pub open spec fn reasons_worst_first(s: Seq<VerdictReason>) -> bool {
    forall|i: int, j: int|
        0 <= i < j < s.len() ==> {
            let (a, b) = (#[trigger] s[i], #[trigger] s[j]);
            a.severity.rank() > b.severity.rank() || (a.severity == b.severity
                && !text::text_less(b.code@, a.code@))
        }
}

/// A profile tells of the results of its record, worst first: put in that order,
/// the results are the ones its findings tell of one by one, field by field.
pub proof fn lemma_findings_tell_of_results(record: MeasurementRecord, bounds: AgentProfileBounds)
    ensures
        exists|ordered: Seq<MeasurementResult>|
            {
                &&& #[trigger] results_worst_first(ordered)
                &&& ordered.to_multiset() =~= record.results@.to_multiset()
                &&& profile_of(record, bounds).findings.len() <= ordered.len()
                &&& forall|i: int|
                    0 <= i < profile_of(record, bounds).findings.len() ==> tells_of(
                        #[trigger] profile_of(record, bounds).findings[i],
                        ordered[i],
                        bounds,
                    )
            },
{
    lemma_the_worst_survives(record, bounds);
    let p = profile_of(record, bounds);
    let ordered = sorting::sorted(record.results@, finding_order());
    lemma_worse_orders(
        finding_order(),
        |r: MeasurementResult| r.severity,
        |r: MeasurementResult| r.metric_id@,
    );
    sorting::lemma_sorted_ascending(record.results@, finding_order());
    assert forall|i: int, j: int| 0 <= i < j < ordered.len() implies {
        let (a, b) = (#[trigger] ordered[i], #[trigger] ordered[j]);
        a.severity.rank() > b.severity.rank() || (a.severity == b.severity && !text::text_less(
            b.metric_id@,
            a.metric_id@,
        ))
    } by {
        assert(!finding_order()(ordered[j], ordered[i]));
    }
    assert(results_worst_first(ordered));
    assert forall|i: int| 0 <= i < p.findings.len() implies tells_of(
        #[trigger] p.findings[i],
        ordered[i],
        bounds,
    ) by {
        let r = ordered[i];
        assert(p.findings[i] == trimmed_finding(r, bounds));
        lemma_cut(r.metric_id@, bounds.max_string_bytes as int);
        lemma_cut(r.claim_id@, bounds.max_string_bytes as int);
        lemma_cut(scope_label(r.scope), bounds.max_hint_bytes as int);
        lemma_located(r.scope);
    }
}

/// A profile gives the reasons of its record, worst first: put in that order, the
/// reasons are the ones it gives one by one.
pub proof fn lemma_reasons_are_the_records(record: MeasurementRecord, bounds: AgentProfileBounds)
    ensures
        exists|ordered: Seq<VerdictReason>|
            {
                &&& #[trigger] reasons_worst_first(ordered)
                &&& ordered.to_multiset() =~= record.verdict.reasons@.to_multiset()
                &&& profile_of(record, bounds).reasons.len() <= ordered.len()
                &&& forall|i: int|
                    0 <= i < profile_of(record, bounds).reasons.len() ==> {
                        let said = #[trigger] profile_of(record, bounds).reasons[i];
                        &&& said.severity == ordered[i].severity
                        &&& cut_to(said.code, ordered[i].code@, bounds.max_string_bytes as int)
                        &&& cut_to(said.message, ordered[i].message@, bounds.max_hint_bytes as int)
                    }
            },
{
    lemma_the_worst_survives(record, bounds);
    let p = profile_of(record, bounds);
    let ordered = sorting::sorted(record.verdict.reasons@, reason_order());
    lemma_worse_orders(
        reason_order(),
        |r: VerdictReason| r.severity,
        |r: VerdictReason| r.code@,
    );
    sorting::lemma_sorted_ascending(record.verdict.reasons@, reason_order());
    assert forall|i: int, j: int| 0 <= i < j < ordered.len() implies {
        let (a, b) = (#[trigger] ordered[i], #[trigger] ordered[j]);
        a.severity.rank() > b.severity.rank() || (a.severity == b.severity && !text::text_less(
            b.code@,
            a.code@,
        ))
    } by {
        assert(!reason_order()(ordered[j], ordered[i]));
    }
    assert(reasons_worst_first(ordered));
    assert forall|i: int| 0 <= i < p.reasons.len() implies {
        let said = #[trigger] p.reasons[i];
        &&& said.severity == ordered[i].severity
        &&& cut_to(said.code, ordered[i].code@, bounds.max_string_bytes as int)
        &&& cut_to(said.message, ordered[i].message@, bounds.max_hint_bytes as int)
    } by {
        assert(p.reasons[i] == trimmed_reason(ordered[i], bounds));
        lemma_cut(ordered[i].code@, bounds.max_string_bytes as int);
        lemma_cut(ordered[i].message@, bounds.max_hint_bytes as int);
    }
}

proof fn lemma_head_kept(record: MeasurementRecord, bounds: AgentProfileBounds)
    ensures
        ({
            let p = profile_of(record, bounds);
            p == AgentProfileModel {
                reasons: p.reasons,
                findings: p.findings,
                truncated: p.truncated,
                ..header(record, bounds)
            }
        }),
{
    let budget = bounds.budget_bytes as nat;
    lemma_reasons_filled(
        header(record, bounds),
        candidate_reasons(record, bounds),
        budget,
    );
    lemma_findings_filled(
        explained(record, bounds),
        candidate_findings(record, bounds),
        budget,
    );
}

/// What stands at the head of a profile is what the record says: its verdict, and
/// whether the record's own unread paths contradict it; its trust, and whether
/// that counts; how complete it is, what was measured, and how much was left out.
pub proof fn lemma_the_head_is_the_records(record: MeasurementRecord, bounds: AgentProfileBounds)
    ensures
        ({
            let p = profile_of(record, bounds);
            &&& p.schema_version == SCHEMA_VERSION
            &&& p.profile == "agent-mode"@
            &&& p.verdict == record.verdict.verdict
            &&& p.verdict_invalid <==> record.verdict.verdict == Verdict::Pass
                && record.unreadable_paths@.len() > 0
            &&& p.attestation == record.attestation.value
            &&& p.counts_downstream <==> record.attestation.value == Attestation::Confirmed
                || record.attestation.value == Attestation::ConfirmedStatic
            &&& p.completeness == record.completeness
            &&& cut_to(
                p.base_oid,
                record.compare_context.base_oid@,
                bounds.max_string_bytes as int,
            )
            &&& cut_to(
                p.head_oid,
                record.compare_context.head_oid@,
                bounds.max_string_bytes as int,
            )
            &&& p.head_kind == record.compare_context.head_kind
            &&& p.measured_instead is Some <==> record.substitution is Some
            &&& record.substitution matches Some(s) ==> cut_to(
                p.measured_instead->Some_0,
                s.measured@,
                bounds.max_hint_bytes as int,
            )
            &&& record.self_measure is None ==> p.withheld_paths == 0
            &&& record.self_measure matches Some(m) ==> (m.excluded_paths@.len() <= u32::MAX
                ==> p.withheld_paths == m.excluded_paths@.len())
            &&& record.unreadable_paths@.len() <= u32::MAX ==> p.unread_paths
                == record.unreadable_paths@.len()
            &&& p.iteration == record.verdict.iteration
            &&& record.results@.len() <= u32::MAX ==> p.total_findings == record.results@.len()
            &&& record.verdict.reasons@.len() <= u32::MAX ==> p.total_reasons
                == record.verdict.reasons@.len()
        }),
{
    lemma_head_kept(record, bounds);
    lemma_cut(record.compare_context.base_oid@, bounds.max_string_bytes as int);
    lemma_cut(record.compare_context.head_oid@, bounds.max_string_bytes as int);
    if let Some(s) = record.substitution {
        lemma_cut(s.measured@, bounds.max_hint_bytes as int);
    }
}

proof fn lemma_findings_stop_at_the_budget(
    p: AgentProfileModel,
    findings: Seq<AgentFindingModel>,
    budget: nat,
)
    ensures
        ({
            let q = filled_with_findings(p, findings, budget);
            let k = q.findings.len() - p.findings.len();
            0 <= k < findings.len() ==> (AgentProfileModel {
                findings: q.findings.push(findings[k]),
                truncated: p.truncated,
                ..q
            }).encoded_size() > budget
        }),
    decreases findings.len(),
{
    lemma_findings_filled(p, findings, budget);
    if findings.len() > 0 {
        let next = p.with_finding(findings[0]);
        if next.encoded_size() > budget {
            let q = filled_with_findings(p, findings, budget);
            assert(AgentProfileModel {
                findings: q.findings.push(findings[0]),
                truncated: p.truncated,
                ..q
            } == next);
        } else {
            let rest = findings.drop_first();
            let q = filled_with_findings(next, rest, budget);
            let k = q.findings.len() - p.findings.len();
            lemma_findings_filled(next, rest, budget);
            lemma_findings_stop_at_the_budget(next, rest, budget);
            if k < findings.len() {
                assert(rest[k - 1] == findings[k]);
            }
        }
    }
}

proof fn lemma_reasons_stop_at_the_budget(
    p: AgentProfileModel,
    reasons: Seq<AgentReasonModel>,
    budget: nat,
)
    requires
        !p.truncated,
    ensures
        ({
            let q = filled_with_reasons(p, reasons, budget);
            let k = q.reasons.len() - p.reasons.len();
            0 <= k < reasons.len() ==> (AgentProfileModel {
                reasons: q.reasons.push(reasons[k]),
                truncated: p.truncated,
                ..q
            }).encoded_size() > budget
        }),
    decreases reasons.len(),
{
    lemma_reasons_filled(p, reasons, budget);
    if reasons.len() > 0 {
        let next = p.with_reason(reasons[0]);
        if next.encoded_size() > budget {
            let q = filled_with_reasons(p, reasons, budget);
            assert(AgentProfileModel {
                reasons: q.reasons.push(reasons[0]),
                truncated: p.truncated,
                ..q
            } == next);
        } else {
            let rest = reasons.drop_first();
            let q = filled_with_reasons(next, rest, budget);
            let k = q.reasons.len() - p.reasons.len();
            lemma_reasons_filled(next, rest, budget);
            lemma_reasons_stop_at_the_budget(next, rest, budget);
            if k < reasons.len() {
                assert(rest[k - 1] == reasons[k]);
            }
        }
    }
}

/// A profile leaves a reason or a finding out only where it has to. Below the cap
/// on their number, one finding more would be over the budget. One reason more
/// would be over it before any finding is told.
pub proof fn lemma_what_fits_is_kept(record: MeasurementRecord, bounds: AgentProfileBounds)
    ensures
        ({
            let p = profile_of(record, bounds);
            let k = p.findings.len();
            k < record.results@.len() && k < bounds.max_findings ==> (AgentProfileModel {
                findings: p.findings.push(candidate_findings(record, bounds)[k as int]),
                truncated: false,
                ..p
            }).encoded_size() > bounds.budget_bytes
        }),
        ({
            let p = profile_of(record, bounds);
            let k = p.reasons.len();
            k < record.verdict.reasons@.len() && k < bounds.max_reasons ==> (AgentProfileModel {
                reasons: p.reasons.push(candidate_reasons(record, bounds)[k as int]),
                findings: Seq::empty(),
                truncated: false,
                ..p
            }).encoded_size() > bounds.budget_bytes
        }),
{
    let budget = bounds.budget_bytes as nat;
    let start = header(record, bounds);
    let causes = candidate_reasons(record, bounds);
    let said = explained(record, bounds);
    let all = candidate_findings(record, bounds);
    let p = profile_of(record, bounds);
    lemma_head_kept(record, bounds);
    lemma_reasons_filled(start, causes, budget);
    lemma_reasons_stop_at_the_budget(start, causes, budget);
    lemma_findings_filled(said, all, budget);
    lemma_findings_stop_at_the_budget(said, all, budget);
    sorting::lemma_sorted_keeps_items(record.results@, finding_order());
    sorting::lemma_sorted_keeps_items(record.verdict.reasons@, reason_order());
    let k = p.findings.len();
    if k < record.results@.len() && k < bounds.max_findings {
        let more = AgentProfileModel {
            findings: p.findings.push(all[k as int]),
            truncated: false,
            ..p
        };
        if said.truncated {
            lemma_marking_shrinks(more);
        }
        let q = filled_with_findings(said, all, budget);
        assert(AgentProfileModel {
            findings: q.findings.push(all[k as int]),
            truncated: said.truncated,
            ..q
        } == more.marked(said.truncated));
        assert(more.marked(false) == more);
    }
    let m = p.reasons.len();
    if m < record.verdict.reasons@.len() && m < bounds.max_reasons {
        let q = filled_with_reasons(start, causes, budget);
        assert(AgentProfileModel {
            reasons: q.reasons.push(causes[m as int]),
            truncated: start.truncated,
            ..q
        } == AgentProfileModel {
            reasons: p.reasons.push(causes[m as int]),
            findings: Seq::empty(),
            truncated: false,
            ..p
        });
    }
}

/// A profile holds no more reasons and findings than its caps, nor than there are.
pub proof fn lemma_the_caps_hold(record: MeasurementRecord, bounds: AgentProfileBounds)
    ensures
        profile_of(record, bounds).findings.len() <= bounds.max_findings,
        profile_of(record, bounds).findings.len() <= record.results@.len(),
        profile_of(record, bounds).reasons.len() <= bounds.max_reasons,
        profile_of(record, bounds).reasons.len() <= record.verdict.reasons@.len(),
{
    lemma_kept(record, bounds);
    sorting::lemma_sorted_keeps_items(record.verdict.reasons@, reason_order());
    sorting::lemma_sorted_keeps_items(record.results@, finding_order());
}

/// What a token budget buys: so many bytes for each token, and nothing else. The caps
/// on findings, on reasons and on the length of a text are the same under every budget.
pub proof fn lemma_what_a_token_budget_buys(tokens: u32, bytes_per_token: u32)
    requires
        tokens * bytes_per_token <= usize::MAX,
    ensures
        ({
            let bounds = AgentProfileBounds::for_tokens(tokens, bytes_per_token);
            &&& bounds.budget_bytes == tokens * bytes_per_token
            &&& bounds.max_findings == 12
            &&& bounds.max_reasons == 20
            &&& bounds.max_string_bytes == 64
            &&& bounds.max_hint_bytes == 128
        }),
{
}

} // verus!
