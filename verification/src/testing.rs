//! Sample values for tests.
//!
//! These fixtures supply a shape and never a finding. The identity is one no
//! engine has, and the severity is `Info`, the floor a result carries before
//! anything has evaluated it: a test that needs a finding states the severity
//! itself. The claim id is a real one, because assembly resolves evidence by
//! claim.
use vstd::prelude::*;

use crate::policy::DEFAULT_ITERATION_CAP;
use crate::schema::enums::{
    Attestation, Completeness, EngineClass, EngineFamily, EvidenceTier, InvocationSource, Lane,
    MetricClass, RecordKind, Severity, Verdict,
};
use crate::schema::payload::{
    AttestationBlock, CacheState, CompareContext, EvidenceRef, Freshness, HeadKind, Invocation,
    IterationState, LineSpan, MeasurementRecord, MeasurementResult, MetricValue, Reserved,
    ResultScope, ScopeKind, ToolIdentity, VerdictReason, VerdictSummary, SCHEMA_VERSION,
};
use crate::schema::regime::MeasurementRegime;
use crate::strmap;
use crate::strmap::StrMap;
use crate::text;

verus! {

/// The engine id every fixture here carries. No engine has it.
pub const SAMPLE_ENGINE_ID: &'static str = "sample-engine";

/// The metric id every fixture here carries. No registry declares it.
pub const SAMPLE_METRIC_ID: &'static str = "sample.metric";

/// The claim every fixture here cites.
pub const SAMPLE_CLAIM_ID: &'static str = "andon.static.cognitive@1|typescript|comprehension-time";

/// A character written `n` times.
pub open spec fn repeated(c: char, n: nat) -> Seq<char> {
    Seq::new(n, |i: int| c)
}

fn repeat(c: char, n: usize) -> (r: String)
    ensures
        r@ == repeated(c, n as nat),
{
    let mut out = String::new();
    let mut i: usize = 0;
    proof {
        assert(out@ =~= repeated(c, 0));
    }
    while i < n
        invariant
            i <= n,
            out@ == repeated(c, i as nat),
        decreases n - i,
    {
        out.push(c);
        i = i + 1;
        proof {
            assert(out@ =~= repeated(c, i as nat));
        }
    }
    out
}

/// Whether a regime is the sample one.
pub open spec fn is_sample_regime(regime: MeasurementRegime) -> bool {
    regime matches MeasurementRegime::Static { engine_version, spec_revision, grammars } && {
        &&& engine_version@ == "0.1.0"@
        &&& spec_revision@ == "2026-08-16"@
        &&& grammars@ == strmap::inserted(Seq::empty(), "typescript"@, "0.21.0"@)
    }
}

/// A regime for the static family, for tests that need any valid one.
pub fn sample_regime() -> (r: MeasurementRegime)
    ensures
        is_sample_regime(r),
{
    let mut grammars: StrMap<String> = StrMap::new();
    proof {
        assert(grammars@ =~= Seq::empty());
    }
    grammars.insert("typescript".to_owned(), "0.21.0".to_owned());
    MeasurementRegime::Static {
        engine_version: "0.1.0".to_owned(),
        spec_revision: "2026-08-16".to_owned(),
        grammars,
    }
}

/// Whether a compare context is the sample one.
pub open spec fn is_sample_context(ctx: CompareContext) -> bool {
    &&& ctx.base_oid@ == repeated('1', 40)
    &&& ctx.head_oid@ == repeated('2', 40)
    &&& ctx.head_kind == HeadKind::Commit
    &&& ctx.git_version@ == "2.39.0"@
    &&& ctx.base_resolution@ == "merge-base"@
}

/// A compare context with well-formed object ids.
pub fn sample_compare_context() -> (r: CompareContext)
    ensures
        is_sample_context(r),
{
    CompareContext {
        base_oid: repeat('1', 40),
        head_oid: repeat('2', 40),
        head_kind: HeadKind::Commit,
        git_version: "2.39.0".to_owned(),
        base_resolution: "merge-base".to_owned(),
    }
}

/// Whether a scope is the sample one.
pub open spec fn is_sample_scope(scope: ResultScope) -> bool {
    &&& scope.kind == ScopeKind::Function
    &&& scope.path matches Some(path) && path@ == "src/index.ts"@
    &&& scope.blob_oid matches Some(oid) && oid@ == repeated('3', 40)
    &&& scope.symbol matches Some(symbol) && symbol@ == "handleRequest"@
    &&& scope.line_span == Some(LineSpan { start: 10, end: 48 })
}

/// Whether evidence is the sample one.
pub open spec fn is_sample_evidence(evidence: EvidenceRef) -> bool {
    &&& evidence.claim_id@ == SAMPLE_CLAIM_ID@
    &&& evidence.tier == EvidenceTier::B
    &&& evidence.citation@ == "Munoz Baron, Wyrich & Wagner, ESEM 2020"@
    &&& text::texts(evidence.does_not_predict@) == seq!["defect density"@, "correctness"@]
    &&& !evidence.stale
}

/// Whether a result is the sample one, sealed against the sample context.
pub open spec fn is_sample_result(r: MeasurementResult) -> bool {
    &&& r.metric_id@ == SAMPLE_METRIC_ID@
    &&& r.claim_id@ == SAMPLE_CLAIM_ID@
    &&& r.engine_id@ == SAMPLE_ENGINE_ID@
    &&& r.family == EngineFamily::Static
    &&& r.engine_class == EngineClass::StaticSafe
    &&& r.metric_class == MetricClass::DiffActionable
    &&& is_sample_scope(r.scope)
    &&& r.value == MetricValue::Count(17)
    &&& r.delta == Some(MetricValue::Integer(4))
    &&& r.severity == Severity::Info
    &&& r.completeness == Completeness::Complete
    &&& is_sample_regime(r.measurement_regime)
    &&& is_sample_evidence(r.evidence)
    &&& r.deterministic
    &&& forall|ctx: CompareContext|
        is_sample_context(ctx) ==> r.digest@ == #[trigger] r.digest_against(ctx)
    &&& r.freshness.measured_at@ == "2026-08-17T09:00:00Z"@
    &&& r.freshness.duration_ms == 42
    &&& r.freshness.lane == Lane::Fast
    &&& r.freshness.cache == CacheState::Warm
}

fn sample_evidence() -> (r: EvidenceRef)
    ensures
        is_sample_evidence(r),
{
    let does_not_predict = vec!["defect density".to_owned(), "correctness".to_owned()];
    proof {
        assert(text::texts(does_not_predict@) =~= seq!["defect density"@, "correctness"@]);
    }
    EvidenceRef {
        claim_id: SAMPLE_CLAIM_ID.to_owned(),
        tier: EvidenceTier::B,
        citation: "Munoz Baron, Wyrich & Wagner, ESEM 2020".to_owned(),
        does_not_predict,
        stale: false,
    }
}

/// One sealed result, in a shape no engine claims.
pub fn sample_result() -> (r: MeasurementResult)
    ensures
        is_sample_result(r),
        r.digest@.len() == 64,
{
    let context = sample_compare_context();
    let mut result = MeasurementResult {
        metric_id: SAMPLE_METRIC_ID.to_owned(),
        claim_id: SAMPLE_CLAIM_ID.to_owned(),
        engine_id: SAMPLE_ENGINE_ID.to_owned(),
        family: EngineFamily::Static,
        engine_class: EngineClass::StaticSafe,
        metric_class: MetricClass::DiffActionable,
        scope: ResultScope {
            kind: ScopeKind::Function,
            path: Some("src/index.ts".to_owned()),
            blob_oid: Some(repeat('3', 40)),
            symbol: Some("handleRequest".to_owned()),
            line_span: Some(LineSpan { start: 10, end: 48 }),
        },
        value: MetricValue::Count(17),
        delta: Some(MetricValue::Integer(4)),
        severity: Severity::Info,
        completeness: Completeness::Complete,
        measurement_regime: sample_regime(),
        evidence: sample_evidence(),
        deterministic: true,
        digest: String::new(),
        freshness: Freshness {
            measured_at: "2026-08-17T09:00:00Z".to_owned(),
            duration_ms: 42,
            lane: Lane::Fast,
            cache: CacheState::Warm,
        },
    };
    let ghost unsealed = result;
    let sealed = result.seal(&context);
    proof {
        assert(sealed is Ok);
        assert forall|ctx: CompareContext| is_sample_context(ctx) implies result.digest@
            == #[trigger] result.digest_against(ctx) by {
            assert(result.digest_facts(ctx)->Members_0 =~= unsealed.digest_facts(
                context,
            )->Members_0);
        }
    }
    result
}

/// Whether a verdict is the sample one.
pub open spec fn is_sample_verdict(v: VerdictSummary) -> bool {
    &&& v.verdict == Verdict::Advise
    &&& v.reasons@.len() == 1
    &&& v.reasons@[0].code@ == "metric-delta"@
    &&& v.reasons@[0].severity == Severity::Low
    &&& v.reasons@[0].message@ == "the sample metric rose by 4"@
    &&& text::texts(v.reasons@[0].metric_ids@) == seq![SAMPLE_METRIC_ID@]
    &&& v.iteration == (IterationState {
        count: 1,
        cap: DEFAULT_ITERATION_CAP,
        escalated: false,
    })
}

fn sample_verdict() -> (r: VerdictSummary)
    ensures
        is_sample_verdict(r),
{
    let metric_ids = vec![SAMPLE_METRIC_ID.to_owned()];
    proof {
        assert(text::texts(metric_ids@) =~= seq![SAMPLE_METRIC_ID@]);
    }
    VerdictSummary {
        verdict: Verdict::Advise,
        reasons: vec![
            VerdictReason {
                code: "metric-delta".to_owned(),
                severity: Severity::Low,
                message: "the sample metric rose by 4".to_owned(),
                metric_ids,
            },
        ],
        iteration: IterationState { count: 1, cap: DEFAULT_ITERATION_CAP, escalated: false },
    }
}

/// Whether an invocation is the sample one.
pub open spec fn is_sample_invocation(i: Invocation) -> bool {
    &&& i.source == InvocationSource::Hook
    &&& i.harness matches Some(harness) && harness@ == "sample-harness"@
    &&& i.model matches Some(model) && model@ == "test-model"@
    &&& i.author matches Some(author) && author@ == "gtm-k"@
    &&& i.iteration == 1
}

/// A complete self-reported record, unwitnessed as every fresh record is.
pub fn sample_record() -> (r: MeasurementRecord)
    ensures
        r.schema_version == SCHEMA_VERSION,
        r.record_kind == RecordKind::SelfReport,
        r.tool.name@ == "andon"@,
        r.tool.version@ == "0.1.0"@,
        r.tool.build_oid@ == repeated('4', 40),
        !r.tool.attested_release,
        is_sample_context(r.compare_context),
        is_sample_invocation(r.invocation),
        r.reserved.run_id is None,
        r.reserved.workspace_id is None,
        r.reserved.package_scope is None,
        r.policy_hash@ == repeated('5', 64),
        r.substitution is None,
        r.unreadable_paths@.len() == 0,
        r.self_measure is None,
        r.results@.len() == 1,
        is_sample_result(r.results@[0]),
        r.completeness == Completeness::Complete,
        is_sample_verdict(r.verdict),
        r.attestation.value == Attestation::Unwitnessed,
        r.attestation.tamper_signals@.len() == 0,
        r.attestation.verifier is None,
        r.attestation.compare is None,
{
    MeasurementRecord {
        schema_version: SCHEMA_VERSION,
        record_kind: RecordKind::SelfReport,
        tool: ToolIdentity {
            name: "andon".to_owned(),
            version: "0.1.0".to_owned(),
            build_oid: repeat('4', 40),
            attested_release: false,
        },
        compare_context: sample_compare_context(),
        invocation: Invocation {
            source: InvocationSource::Hook,
            harness: Some("sample-harness".to_owned()),
            model: Some("test-model".to_owned()),
            author: Some("gtm-k".to_owned()),
            iteration: 1,
        },
        reserved: Reserved::default(),
        policy_hash: repeat('5', 64),
        substitution: None,
        unreadable_paths: Vec::new(),
        self_measure: None,
        results: vec![sample_result()],
        completeness: Completeness::Complete,
        verdict: sample_verdict(),
        attestation: AttestationBlock::default(),
    }
}

} // verus!
