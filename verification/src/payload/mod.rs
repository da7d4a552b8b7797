//! Payload assembly: the engines' results become one record.
//!
//! Each engine produces sealed results and knows nothing about the others. This
//! is where they meet, and the place for the checks that are about the set
//! rather than about any one number:
//!
//! - Nothing enters a payload without evidence: every result's claim must be the
//!   one the merged registry declares for its metric, with the same
//!   actionability and the same determinism.
//! - Every digest is recomputed, from the result's own contents against this
//!   payload's tuple.
//! - No result may be stamped with a family it did not come from.
//! - Nothing pairs twice: the verifier pairs results on metric and scope.
//! - Every engine the registry declares is accounted for, exactly once, as an
//!   output or as a named failure.
//!
//! Results are grouped by engine, never by family: family is not a partition of
//! engines. And assembly does not attest. A record leaves here `unwitnessed`,
//! with the fired tamper signals attached and nothing else.
pub mod laws;
pub mod messages;
pub mod registry_load;
pub mod tamper_signals;

use vstd::prelude::*;

use crate::canonical;
use crate::canonical::CanonicalError;
use crate::engine::EngineDescriptor;
use crate::parse_health;
use crate::policy::Policy;
use crate::registry;
use crate::registry::{MetricDecl, ResolvedClaim, ResolvedModel};
use crate::schema::enums::{Attestation, Completeness, EngineFamily, RecordKind};
use crate::schema::payload::{
    AttestationBlock, CompareContext, Invocation, MeasurementRecord, MeasurementResult, Reserved,
    ResultScope, Substitution, ToolIdentity, SCHEMA_VERSION,
};
use crate::selfmeasure::SelfMeasureProvenance;
use crate::sorting;
use crate::strmap;
use crate::strmap::{StrMap, StrSet};
use crate::text;
use crate::text::same_text;
use crate::verdict;
use crate::verdict::iteration::{Advance, LoopOutcome};
use crate::verdict::policy_change::PolicyChange;
use crate::verdict::severity;
use crate::verdict::{ContextModel, EngineFailure, VerdictContext};
use registry_load::LoadedRegistry;

verus! {

/// One engine's contribution to a payload.
#[derive(Debug, Clone, PartialEq, Eq)]
pub struct EngineOutput {
    /// Who produced these, from the engine's own descriptor.
    pub descriptor: EngineDescriptor,
    /// Sealed results, in the order the engine emitted them. Assembly preserves
    /// that order.
    pub results: Vec<MeasurementResult>,
}

/// Why a set of engine outputs could not become a payload.
///
/// Every variant is a defect in a producer, not a property of the change being
/// measured.
#[derive(Debug, Clone, PartialEq, Eq)]
pub enum AssemblyError {
    /// Two outputs claim the same engine id.
    DuplicateEngine {
        /// The engine named twice.
        engine_id: String,
    },
    /// A result does not name the engine that produced it.
    EngineMismatch {
        /// The metric.
        metric_id: String,
        /// What the result claims.
        claimed: String,
        /// What the descriptor says.
        actual: String,
    },
    /// A result's family, its engine's family, and its regime's family disagree.
    FamilyMismatch {
        /// The engine.
        engine_id: String,
        /// The metric.
        metric_id: String,
        /// Family on the result.
        result: EngineFamily,
        /// Family on the descriptor.
        descriptor: EngineFamily,
        /// Family implied by the regime.
        regime: EngineFamily,
    },
    /// A result reached assembly without a digest.
    Unsealed {
        /// The engine.
        engine_id: String,
        /// The metric.
        metric_id: String,
    },
    /// Two results share a `(metric_id, scope)` pair.
    DuplicateResult {
        /// The metric.
        metric_id: String,
        /// The scope both claim.
        scope: Box<ResultScope>,
    },
    /// A result cites a claim the merged registry does not declare.
    UnknownClaim {
        /// The metric.
        metric_id: String,
        /// The claim it cites.
        claim_id: String,
    },
    /// A tamper flag's metric id does not name a signal.
    UnknownTamperSignal {
        /// The metric.
        metric_id: String,
    },
    /// A result's digest is not the digest of what it carries, against the
    /// tuple this payload is being assembled for.
    DigestMismatch {
        /// The engine.
        engine_id: String,
        /// The metric.
        metric_id: String,
        /// The base this payload is for.
        base_oid: String,
        /// The head this payload is for.
        head_oid: String,
    },
    /// A result reports a metric no registry file declares.
    UndeclaredMetric {
        /// The engine.
        engine_id: String,
        /// The metric.
        metric_id: String,
    },
    /// A result cites a claim other than the one its metric declares.
    MetricRebound {
        /// The metric.
        metric_id: String,
        /// What the registry declares for it.
        declared: String,
        /// What the result cited instead.
        cited: String,
    },
    /// A result disagrees with the registry about what kind of metric it is.
    MetricDeclarationMismatch {
        /// The metric.
        metric_id: String,
        /// Which property disagrees: `class` or `deterministic`.
        field: &'static str,
        /// What the registry declares.
        declared: String,
        /// What the result carries.
        carried: String,
    },
    /// A result's top-level claim and its resolved evidence name different
    /// claims.
    EvidenceClaimMismatch {
        /// The metric.
        metric_id: String,
        /// The top-level claim.
        claim_id: String,
        /// The claim the evidence names.
        evidence_claim_id: String,
    },
    /// An engine the registry declares contributed neither results nor a
    /// failure.
    MissingEngine {
        /// The engine nobody accounted for.
        engine_id: String,
    },
    /// An output or failure names an engine this measurement does not expect.
    UnknownEngine {
        /// The engine nobody declared.
        engine_id: String,
    },
    /// Two failure entries name the same engine.
    DuplicateFailure {
        /// The engine named twice.
        engine_id: String,
    },
    /// One engine both produced results and reported a failure.
    EngineSucceededAndFailed {
        /// The engine in both lists.
        engine_id: String,
    },
    /// A self-report carried a justification marked as verified.
    UnverifiableJustification {
        /// The reference the justification claimed.
        reference: String,
    },
    /// Something that has to be hashed has no canonical text.
    PolicyHash(String),
}

/// What an assembly error says.
pub enum AssemblyErrorModel {
    DuplicateEngine(Seq<char>),
    EngineMismatch { metric_id: Seq<char>, claimed: Seq<char>, actual: Seq<char> },
    FamilyMismatch {
        engine_id: Seq<char>,
        metric_id: Seq<char>,
        result: EngineFamily,
        descriptor: EngineFamily,
        regime: EngineFamily,
    },
    Unsealed { engine_id: Seq<char>, metric_id: Seq<char> },
    DuplicateResult { metric_id: Seq<char>, scope: ResultScope },
    UnknownClaim { metric_id: Seq<char>, claim_id: Seq<char> },
    UnknownTamperSignal(Seq<char>),
    DigestMismatch {
        engine_id: Seq<char>,
        metric_id: Seq<char>,
        base_oid: Seq<char>,
        head_oid: Seq<char>,
    },
    UndeclaredMetric { engine_id: Seq<char>, metric_id: Seq<char> },
    MetricRebound { metric_id: Seq<char>, declared: Seq<char>, cited: Seq<char> },
    MetricDeclarationMismatch {
        metric_id: Seq<char>,
        field: Seq<char>,
        declared: Seq<char>,
        carried: Seq<char>,
    },
    EvidenceClaimMismatch {
        metric_id: Seq<char>,
        claim_id: Seq<char>,
        evidence_claim_id: Seq<char>,
    },
    MissingEngine(Seq<char>),
    UnknownEngine(Seq<char>),
    DuplicateFailure(Seq<char>),
    EngineSucceededAndFailed(Seq<char>),
    UnverifiableJustification(Seq<char>),
    PolicyHash(Seq<char>),
}

impl View for AssemblyError {
    type V = AssemblyErrorModel;

    open spec fn view(&self) -> AssemblyErrorModel {
        match *self {
            AssemblyError::DuplicateEngine { engine_id } => AssemblyErrorModel::DuplicateEngine(
                engine_id@,
            ),
            AssemblyError::EngineMismatch { metric_id, claimed, actual } =>
            AssemblyErrorModel::EngineMismatch {
                metric_id: metric_id@,
                claimed: claimed@,
                actual: actual@,
            },
            AssemblyError::FamilyMismatch { engine_id, metric_id, result, descriptor, regime } =>
            AssemblyErrorModel::FamilyMismatch {
                engine_id: engine_id@,
                metric_id: metric_id@,
                result,
                descriptor,
                regime,
            },
            AssemblyError::Unsealed { engine_id, metric_id } => AssemblyErrorModel::Unsealed {
                engine_id: engine_id@,
                metric_id: metric_id@,
            },
            AssemblyError::DuplicateResult { metric_id, scope } =>
            AssemblyErrorModel::DuplicateResult { metric_id: metric_id@, scope: *scope },
            AssemblyError::UnknownClaim { metric_id, claim_id } =>
            AssemblyErrorModel::UnknownClaim { metric_id: metric_id@, claim_id: claim_id@ },
            AssemblyError::UnknownTamperSignal { metric_id } =>
            AssemblyErrorModel::UnknownTamperSignal(metric_id@),
            AssemblyError::DigestMismatch { engine_id, metric_id, base_oid, head_oid } =>
            AssemblyErrorModel::DigestMismatch {
                engine_id: engine_id@,
                metric_id: metric_id@,
                base_oid: base_oid@,
                head_oid: head_oid@,
            },
            AssemblyError::UndeclaredMetric { engine_id, metric_id } =>
            AssemblyErrorModel::UndeclaredMetric { engine_id: engine_id@, metric_id: metric_id@ },
            AssemblyError::MetricRebound { metric_id, declared, cited } =>
            AssemblyErrorModel::MetricRebound {
                metric_id: metric_id@,
                declared: declared@,
                cited: cited@,
            },
            AssemblyError::MetricDeclarationMismatch { metric_id, field, declared, carried } =>
            AssemblyErrorModel::MetricDeclarationMismatch {
                metric_id: metric_id@,
                field: field@,
                declared: declared@,
                carried: carried@,
            },
            AssemblyError::EvidenceClaimMismatch { metric_id, claim_id, evidence_claim_id } =>
            AssemblyErrorModel::EvidenceClaimMismatch {
                metric_id: metric_id@,
                claim_id: claim_id@,
                evidence_claim_id: evidence_claim_id@,
            },
            AssemblyError::MissingEngine { engine_id } => AssemblyErrorModel::MissingEngine(
                engine_id@,
            ),
            AssemblyError::UnknownEngine { engine_id } => AssemblyErrorModel::UnknownEngine(
                engine_id@,
            ),
            AssemblyError::DuplicateFailure { engine_id } => AssemblyErrorModel::DuplicateFailure(
                engine_id@,
            ),
            AssemblyError::EngineSucceededAndFailed { engine_id } =>
            AssemblyErrorModel::EngineSucceededAndFailed(engine_id@),
            AssemblyError::UnverifiableJustification { reference } =>
            AssemblyErrorModel::UnverifiableJustification(reference@),
            AssemblyError::PolicyHash(reason) => AssemblyErrorModel::PolicyHash(reason@),
        }
    }
}

/// What a payload is being assembled from.
#[derive(Debug, Clone)]
pub struct AssembleRequest<'a> {
    /// Which binary produced this.
    pub tool: ToolIdentity,
    /// Self-report or verifier attestation.
    pub record_kind: RecordKind,
    /// The tuple every result was sealed against.
    pub compare_context: CompareContext,
    /// Ledger dimensions.
    pub invocation: Invocation,
    /// Monorepo and orchestrator fields.
    pub reserved: Reserved,
    /// What was measured in place of what was asked for, if anything was.
    pub substitution: Option<Substitution>,
    /// Changed paths nothing could read.
    pub unreadable_paths: Vec<String>,
    /// Which binary measured, when the tool measured itself.
    pub self_measure: Option<SelfMeasureProvenance>,
    /// Policy in force. A verifier's copy comes from the base commit.
    pub policy: &'a Policy,
    /// The merged registry, already linted.
    pub registry: &'a LoadedRegistry,
    /// Every engine that produced results.
    pub engines: Vec<EngineOutput>,
    /// Every engine that was asked and could not.
    pub engine_failures: Vec<EngineFailure>,
    /// The policy edit inside this change, if any.
    pub policy_change: Option<PolicyChange>,
}

// --- the roster -----------------------------------------------------------

/// Whether the code-exec lane is switched on.
pub open spec fn runs_tests(policy: Policy) -> bool {
    policy.sandbox.enabled && policy.sandbox.test_command is Some
}

/// Whether a declared engine belongs to the code-exec lane.
pub open spec fn in_test_lane(
    families: Seq<(Seq<char>, EngineFamily)>,
    engine_id: Seq<char>,
) -> bool {
    strmap::lookup(families, engine_id) == Some(EngineFamily::Tests)
}

/// The first `n` declared engines that this measurement expects.
pub open spec fn expected_among(
    declared: Seq<(Seq<char>, ())>,
    families: Seq<(Seq<char>, EngineFamily)>,
    policy: Policy,
    n: int,
) -> Seq<(Seq<char>, ())>
    decreases n,
{
    if n <= 0 {
        Seq::empty()
    } else {
        let before = expected_among(declared, families, policy, n - 1);
        if in_test_lane(families, declared[n - 1].0) && !runs_tests(policy) {
            before
        } else {
            strmap::inserted(before, declared[n - 1].0, ())
        }
    }
}

/// The engines this measurement expects: every declared one, with the code-exec
/// lane only where policy switches it on.
pub open spec fn roster(registry: LoadedRegistry, policy: Policy) -> Seq<(Seq<char>, ())> {
    expected_among(
        registry.expected_engines@,
        registry.engine_families@,
        policy,
        registry.expected_engines@.len() as int,
    )
}

fn expected_engines(registry: &LoadedRegistry, policy: &Policy) -> (r: StrSet)
    ensures
        r@ == roster(*registry, *policy),
{
    let declared = &registry.expected_engines;
    let families = &registry.engine_families;
    let tests = policy.sandbox.enabled && policy.sandbox.test_command.is_some();
    let n = declared.len();
    let mut out = StrSet::new();
    let mut i: usize = 0;
    proof {
        assert(out@ =~= Seq::empty());
    }
    while i < n
        invariant
            i <= n,
            n == declared@.len(),
            tests == runs_tests(*policy),
            out@ == expected_among(declared@, families@, *policy, i as int),
        decreases n - i,
    {
        let id = declared.key_at(i);
        let in_lane = match families.get(id.as_str()) {
            Some(family) => *family == EngineFamily::Tests,
            None => false,
        };
        if !in_lane || tests {
            out.insert(id.clone(), ());
        }
        i = i + 1;
    }
    out
}

/// The engine ids of the first `n` outputs: once each, in order.
pub open spec fn output_ids(engines: Seq<EngineOutput>, n: int) -> Seq<(Seq<char>, ())>
    decreases n,
{
    if n <= 0 {
        Seq::empty()
    } else {
        strmap::inserted(output_ids(engines, n - 1), engines[n - 1].descriptor.engine_id@, ())
    }
}

/// The engine ids of the first `n` failures: once each, in order.
pub open spec fn failure_ids(failures: Seq<EngineFailure>, n: int) -> Seq<(Seq<char>, ())>
    decreases n,
{
    if n <= 0 {
        Seq::empty()
    } else {
        strmap::inserted(failure_ids(failures, n - 1), failures[n - 1].engine_id@, ())
    }
}

/// The first output from `i` on whose engine was named before.
pub open spec fn repeated_output(engines: Seq<EngineOutput>, i: int) -> Option<AssemblyErrorModel>
    decreases engines.len() - i,
{
    if i < 0 || i >= engines.len() {
        None
    } else {
        let id = engines[i].descriptor.engine_id@;
        if strmap::has_key(output_ids(engines, i), id) {
            Some(AssemblyErrorModel::DuplicateEngine(id))
        } else {
            repeated_output(engines, i + 1)
        }
    }
}

/// The first failure from `i` on whose engine failed before or has results.
pub open spec fn contradicting_failure(
    succeeded: Seq<(Seq<char>, ())>,
    failures: Seq<EngineFailure>,
    i: int,
) -> Option<AssemblyErrorModel>
    decreases failures.len() - i,
{
    if i < 0 || i >= failures.len() {
        None
    } else {
        let id = failures[i].engine_id@;
        if strmap::has_key(failure_ids(failures, i), id) {
            Some(AssemblyErrorModel::DuplicateFailure(id))
        } else if strmap::has_key(succeeded, id) {
            Some(AssemblyErrorModel::EngineSucceededAndFailed(id))
        } else {
            contradicting_failure(succeeded, failures, i + 1)
        }
    }
}

/// The first engine from `i` on that is not expected.
pub open spec fn unexpected(
    named: Seq<(Seq<char>, ())>,
    expected: Seq<(Seq<char>, ())>,
    i: int,
) -> Option<AssemblyErrorModel>
    decreases named.len() - i,
{
    if i < 0 || i >= named.len() {
        None
    } else if !strmap::has_key(expected, named[i].0) {
        Some(AssemblyErrorModel::UnknownEngine(named[i].0))
    } else {
        unexpected(named, expected, i + 1)
    }
}

/// The first expected engine from `i` on that neither succeeded nor failed.
pub open spec fn unaccounted(
    expected: Seq<(Seq<char>, ())>,
    succeeded: Seq<(Seq<char>, ())>,
    failed: Seq<(Seq<char>, ())>,
    i: int,
) -> Option<AssemblyErrorModel>
    decreases expected.len() - i,
{
    if i < 0 || i >= expected.len() {
        None
    } else if !strmap::has_key(succeeded, expected[i].0) && !strmap::has_key(
        failed,
        expected[i].0,
    ) {
        Some(AssemblyErrorModel::MissingEngine(expected[i].0))
    } else {
        unaccounted(expected, succeeded, failed, i + 1)
    }
}

/// The first of two problems.
pub open spec fn first_of(
    a: Option<AssemblyErrorModel>,
    b: Option<AssemblyErrorModel>,
) -> Option<AssemblyErrorModel> {
    if a is Some {
        a
    } else {
        b
    }
}

/// What is wrong with the set of engines, if anything: an engine twice, a
/// failure twice or beside results, an engine nobody expects, an engine nobody
/// accounts for.
pub open spec fn roster_problem(
    engines: Seq<EngineOutput>,
    failures: Seq<EngineFailure>,
    expected: Seq<(Seq<char>, ())>,
) -> Option<AssemblyErrorModel> {
    let succeeded = output_ids(engines, engines.len() as int);
    let failed = failure_ids(failures, failures.len() as int);
    first_of(
        repeated_output(engines, 0),
        first_of(
            contradicting_failure(succeeded, failures, 0),
            first_of(
                unexpected(succeeded, expected, 0),
                first_of(
                    unexpected(failed, expected, 0),
                    unaccounted(expected, succeeded, failed, 0),
                ),
            ),
        ),
    )
}

fn first_unexpected(named: &StrSet, expected: &StrSet) -> (r: Result<(), AssemblyError>)
    ensures
        match unexpected(named@, expected@, 0) {
            Some(e) => r matches Err(x) && x@ == e,
            None => r is Ok,
        },
{
    let n = named.len();
    let mut i: usize = 0;
    while i < n
        invariant
            i <= n,
            n == named@.len(),
            unexpected(named@, expected@, 0) == unexpected(named@, expected@, i as int),
        decreases n - i,
    {
        let id = named.key_at(i);
        if !expected.contains_key(id.as_str()) {
            return Err(AssemblyError::UnknownEngine { engine_id: id.clone() });
        }
        i = i + 1;
    }
    Ok(())
}

fn succeeded_engines(engines: &Vec<EngineOutput>) -> (r: Result<StrSet, AssemblyError>)
    ensures
        match repeated_output(engines@, 0) {
            Some(e) => r matches Err(x) && x@ == e,
            None => r matches Ok(s) && s@ == output_ids(engines@, engines@.len() as int),
        },
{
    let mut succeeded = StrSet::new();
    let mut i: usize = 0;
    proof {
        assert(succeeded@ =~= Seq::empty());
    }
    while i < engines.len()
        invariant
            i <= engines.len(),
            succeeded@ == output_ids(engines@, i as int),
            repeated_output(engines@, 0) == repeated_output(engines@, i as int),
        decreases engines.len() - i,
    {
        let id = &engines[i].descriptor.engine_id;
        if succeeded.contains_key(id.as_str()) {
            return Err(AssemblyError::DuplicateEngine { engine_id: id.clone() });
        }
        succeeded.insert(id.clone(), ());
        i = i + 1;
    }
    Ok(succeeded)
}

fn failed_engines(failures: &Vec<EngineFailure>, succeeded: &StrSet) -> (r: Result<
    StrSet,
    AssemblyError,
>)
    ensures
        match contradicting_failure(succeeded@, failures@, 0) {
            Some(e) => r matches Err(x) && x@ == e,
            None => r matches Ok(s) && s@ == failure_ids(failures@, failures@.len() as int),
        },
{
    let mut failed = StrSet::new();
    let mut i: usize = 0;
    proof {
        assert(failed@ =~= Seq::empty());
    }
    while i < failures.len()
        invariant
            i <= failures.len(),
            failed@ == failure_ids(failures@, i as int),
            contradicting_failure(succeeded@, failures@, 0) == contradicting_failure(
                succeeded@,
                failures@,
                i as int,
            ),
        decreases failures.len() - i,
    {
        let id = &failures[i].engine_id;
        if failed.contains_key(id.as_str()) {
            return Err(AssemblyError::DuplicateFailure { engine_id: id.clone() });
        }
        if succeeded.contains_key(id.as_str()) {
            // One of the two statements is false and assembly cannot tell which.
            return Err(AssemblyError::EngineSucceededAndFailed { engine_id: id.clone() });
        }
        failed.insert(id.clone(), ());
        i = i + 1;
    }
    Ok(failed)
}

/// Every engine this measurement expects appears exactly once, and nothing else
/// appears at all.
fn account_for_every_engine(
    engines: &Vec<EngineOutput>,
    failures: &Vec<EngineFailure>,
    expected: &StrSet,
) -> (r: Result<(), AssemblyError>)
    ensures
        match roster_problem(engines@, failures@, expected@) {
            Some(e) => r matches Err(x) && x@ == e,
            None => r is Ok,
        },
{
    let succeeded = match succeeded_engines(engines) {
        Ok(s) => s,
        Err(e) => {
            return Err(e);
        },
    };
    let failed = match failed_engines(failures, &succeeded) {
        Ok(s) => s,
        Err(e) => {
            return Err(e);
        },
    };
    if let Err(e) = first_unexpected(&succeeded, expected) {
        return Err(e);
    }
    if let Err(e) = first_unexpected(&failed, expected) {
        return Err(e);
    }
    let n = expected.len();
    let mut i: usize = 0;
    while i < n
        invariant
            i <= n,
            n == expected@.len(),
            succeeded@ == output_ids(engines@, engines@.len() as int),
            failed@ == failure_ids(failures@, failures@.len() as int),
            roster_problem(engines@, failures@, expected@) == unaccounted(
                expected@,
                succeeded@,
                failed@,
                i as int,
            ),
        decreases n - i,
    {
        let id = expected.key_at(i);
        if !succeeded.contains_key(id.as_str()) && !failed.contains_key(id.as_str()) {
            return Err(AssemblyError::MissingEngine { engine_id: id.clone() });
        }
        i = i + 1;
    }
    Ok(())
}

// --- one result -----------------------------------------------------------

/// What is wrong with the identity of a result, if anything: its engine, its
/// family, its digest.
pub open spec fn identity_problem(
    result: MeasurementResult,
    d: EngineDescriptor,
    ctx: CompareContext,
) -> Option<AssemblyErrorModel> {
    let regime = result.measurement_regime.family_of();
    if result.engine_id@ != d.engine_id@ {
        Some(
            AssemblyErrorModel::EngineMismatch {
                metric_id: result.metric_id@,
                claimed: result.engine_id@,
                actual: d.engine_id@,
            },
        )
    } else if result.family != d.family || result.family != regime {
        Some(
            AssemblyErrorModel::FamilyMismatch {
                engine_id: d.engine_id@,
                metric_id: result.metric_id@,
                result: result.family,
                descriptor: d.family,
                regime,
            },
        )
    } else if result.digest@.len() == 0 {
        Some(
            AssemblyErrorModel::Unsealed { engine_id: d.engine_id@, metric_id: result.metric_id@ },
        )
    } else if !result.sealable() {
        Some(
            AssemblyErrorModel::PolicyHash(
                "digest: "@ + CanonicalError::UncarriableRatio.message(),
            ),
        )
    } else if result.digest@ != result.digest_against(ctx) {
        Some(
            AssemblyErrorModel::DigestMismatch {
                engine_id: d.engine_id@,
                metric_id: result.metric_id@,
                base_oid: ctx.base_oid@,
                head_oid: ctx.head_oid@,
            },
        )
    } else {
        None
    }
}

/// What is wrong with a result against the declaration of its metric, if
/// anything: its claim, its class, its determinism, its evidence, its signal.
pub open spec fn declaration_problem(
    result: MeasurementResult,
    decl: MetricDecl,
) -> Option<AssemblyErrorModel> {
    if decl.claim_id@ != result.claim_id@ {
        Some(
            AssemblyErrorModel::MetricRebound {
                metric_id: result.metric_id@,
                declared: decl.claim_id@,
                cited: result.claim_id@,
            },
        )
    } else if decl.class != result.metric_class {
        Some(
            AssemblyErrorModel::MetricDeclarationMismatch {
                metric_id: result.metric_id@,
                field: "class"@,
                declared: decl.class.variant_name(),
                carried: result.metric_class.variant_name(),
            },
        )
    } else if decl.deterministic != result.deterministic {
        Some(
            AssemblyErrorModel::MetricDeclarationMismatch {
                metric_id: result.metric_id@,
                field: "deterministic"@,
                declared: registry::bool_text(decl.deterministic),
                carried: registry::bool_text(result.deterministic),
            },
        )
    } else if result.evidence.claim_id@ != result.claim_id@ {
        Some(
            AssemblyErrorModel::EvidenceClaimMismatch {
                metric_id: result.metric_id@,
                claim_id: result.claim_id@,
                evidence_claim_id: result.evidence.claim_id@,
            },
        )
    } else if tamper_signals::detector_flag(result) && tamper_signals::signal_named(
        result.metric_id@,
    ) is None {
        Some(AssemblyErrorModel::UnknownTamperSignal(result.metric_id@))
    } else {
        None
    }
}

/// What is wrong with one result, if anything.
pub open spec fn result_problem(
    result: MeasurementResult,
    d: EngineDescriptor,
    ctx: CompareContext,
    metrics: Seq<(Seq<char>, MetricDecl)>,
    claims: Seq<(Seq<char>, ResolvedModel)>,
) -> Option<AssemblyErrorModel> {
    if identity_problem(result, d, ctx) is Some {
        identity_problem(result, d, ctx)
    } else {
        match strmap::lookup(metrics, result.metric_id@) {
            None => Some(
                AssemblyErrorModel::UndeclaredMetric {
                    engine_id: d.engine_id@,
                    metric_id: result.metric_id@,
                },
            ),
            Some(decl) => if declaration_problem(result, decl) is Some {
                declaration_problem(result, decl)
            } else if !strmap::has_key(claims, result.claim_id@) {
                Some(
                    AssemblyErrorModel::UnknownClaim {
                        metric_id: result.metric_id@,
                        claim_id: result.claim_id@,
                    },
                )
            } else {
                None
            },
        }
    }
}

fn check_identity(result: &MeasurementResult, d: &EngineDescriptor, ctx: &CompareContext) -> (r:
    Result<(), AssemblyError>)
    ensures
        match identity_problem(*result, *d, *ctx) {
            Some(e) => r matches Err(x) && x@ == e,
            None => r is Ok,
        },
{
    if !same_text(result.engine_id.as_str(), d.engine_id.as_str()) {
        return Err(
            AssemblyError::EngineMismatch {
                metric_id: result.metric_id.clone(),
                claimed: result.engine_id.clone(),
                actual: d.engine_id.clone(),
            },
        );
    }
    let regime = result.measurement_regime.family();
    if result.family != d.family || result.family != regime {
        return Err(
            AssemblyError::FamilyMismatch {
                engine_id: d.engine_id.clone(),
                metric_id: result.metric_id.clone(),
                result: result.family,
                descriptor: d.family,
                regime,
            },
        );
    }
    if result.digest.as_str().is_empty() {
        return Err(
            AssemblyError::Unsealed {
                engine_id: d.engine_id.clone(),
                metric_id: result.metric_id.clone(),
            },
        );
    }
    let recomputed = match result.digest_input(ctx).digest() {
        Ok(digest) => digest,
        Err(e) => {
            let mut reason = "digest: ".to_owned();
            reason.append(e.describe().as_str());
            return Err(AssemblyError::PolicyHash(reason));
        },
    };
    if !same_text(recomputed.as_str(), result.digest.as_str()) {
        return Err(
            AssemblyError::DigestMismatch {
                engine_id: d.engine_id.clone(),
                metric_id: result.metric_id.clone(),
                base_oid: ctx.base_oid.clone(),
                head_oid: ctx.head_oid.clone(),
            },
        );
    }
    Ok(())
}

fn check_declaration(result: &MeasurementResult, decl: &MetricDecl) -> (r: Result<
    (),
    AssemblyError,
>)
    ensures
        match declaration_problem(*result, *decl) {
            Some(e) => r matches Err(x) && x@ == e,
            None => r is Ok,
        },
{
    if !same_text(decl.claim_id.as_str(), result.claim_id.as_str()) {
        return Err(
            AssemblyError::MetricRebound {
                metric_id: result.metric_id.clone(),
                declared: decl.claim_id.clone(),
                cited: result.claim_id.clone(),
            },
        );
    }
    if decl.class != result.metric_class {
        return Err(
            AssemblyError::MetricDeclarationMismatch {
                metric_id: result.metric_id.clone(),
                field: "class",
                declared: decl.class.name().to_owned(),
                carried: result.metric_class.name().to_owned(),
            },
        );
    }
    if decl.deterministic != result.deterministic {
        return Err(
            AssemblyError::MetricDeclarationMismatch {
                metric_id: result.metric_id.clone(),
                field: "deterministic",
                declared: registry::bool_name(decl.deterministic).to_owned(),
                carried: registry::bool_name(result.deterministic).to_owned(),
            },
        );
    }
    // The two statements of the claim have to agree before the honesty lines of
    // one of them are attached to the number of the other.
    if !same_text(result.evidence.claim_id.as_str(), result.claim_id.as_str()) {
        return Err(
            AssemblyError::EvidenceClaimMismatch {
                metric_id: result.metric_id.clone(),
                claim_id: result.claim_id.clone(),
                evidence_claim_id: result.evidence.claim_id.clone(),
            },
        );
    }
    if tamper_signals::is_tamper_flag(result) && tamper_signals::signal_for(
        result.metric_id.as_str(),
    ).is_none() {
        return Err(
            AssemblyError::UnknownTamperSignal { metric_id: result.metric_id.clone() },
        );
    }
    Ok(())
}

/// Every check that is about one result, and the claim it stands on.
fn validate<'r>(
    result: &MeasurementResult,
    descriptor: &EngineDescriptor,
    ctx: &CompareContext,
    registry: &'r LoadedRegistry,
) -> (r: Result<&'r ResolvedClaim, AssemblyError>)
    ensures
        match result_problem(
            *result,
            *descriptor,
            *ctx,
            registry.registry.metrics@,
            registry.registry.claims@,
        ) {
            Some(e) => r matches Err(x) && x@ == e,
            None => r matches Ok(resolved) && strmap::lookup(
                registry.registry.claims@,
                result.claim_id@,
            ) == Some(resolved@),
        },
{
    if let Err(e) = check_identity(result, descriptor, ctx) {
        return Err(e);
    }
    let declared = match registry.registry.metrics.get(result.metric_id.as_str()) {
        Some(declared) => declared,
        None => {
            return Err(
                AssemblyError::UndeclaredMetric {
                    engine_id: descriptor.engine_id.clone(),
                    metric_id: result.metric_id.clone(),
                },
            );
        },
    };
    if let Err(e) = check_declaration(result, declared) {
        return Err(e);
    }
    match registry.registry.claims.get(result.claim_id.as_str()) {
        Some(resolved) => Ok(resolved),
        None => Err(
            AssemblyError::UnknownClaim {
                metric_id: result.metric_id.clone(),
                claim_id: result.claim_id.clone(),
            },
        ),
    }
}

// --- evidence -------------------------------------------------------------

/// `lines` with the first `n` of `extra` appended that are not there yet.
pub open spec fn merged(lines: Seq<Seq<char>>, extra: Seq<Seq<char>>, n: int) -> Seq<Seq<char>>
    decreases n,
{
    if n <= 0 {
        lines
    } else {
        let before = merged(lines, extra, n - 1);
        if before.contains(extra[n - 1]) {
            before
        } else {
            before.push(extra[n - 1])
        }
    }
}

/// Whether `out` is `result` with its evidence reconciled against a claim: the
/// registry decides staleness and adds its honesty lines, and everything else
/// stays as the engine left it.
pub open spec fn is_reconciled(
    out: MeasurementResult,
    result: MeasurementResult,
    claim: ResolvedModel,
) -> bool {
    &&& out == (MeasurementResult { evidence: out.evidence, ..result })
    &&& out.evidence.claim_id == result.evidence.claim_id
    &&& out.evidence.tier == result.evidence.tier
    &&& out.evidence.citation == result.evidence.citation
    &&& out.evidence.stale == claim.stale
    &&& text::texts(out.evidence.does_not_predict@) == merged(
        text::texts(result.evidence.does_not_predict@),
        claim.claim.does_not_predict,
        claim.claim.does_not_predict.len() as int,
    )
}

/// Reconcile a result's evidence against the claim it stands on.
///
/// The array is added to and not overwritten: engines insert a caveat at the
/// front, and replacing the array would erase the one line that tells a reader
/// the number came off a partial tree.
fn resolve_evidence(result: &mut MeasurementResult, resolved: &ResolvedClaim)
    ensures
        is_reconciled(*final(result), *old(result), resolved@),
{
    result.evidence.stale = resolved.stale;
    let ghost lines = text::texts(old(result).evidence.does_not_predict@);
    let ghost extra = resolved@.claim.does_not_predict;
    let mut i: usize = 0;
    proof {
        assert(extra.len() == resolved.claim.does_not_predict@.len());
    }
    while i < resolved.claim.does_not_predict.len()
        invariant
            i <= resolved.claim.does_not_predict.len(),
            extra == text::texts(resolved.claim.does_not_predict@),
            extra.len() == resolved.claim.does_not_predict@.len(),
            text::texts(result.evidence.does_not_predict@) == merged(lines, extra, i as int),
            *result == (MeasurementResult { evidence: result.evidence, ..*old(result) }),
            result.evidence.claim_id == old(result).evidence.claim_id,
            result.evidence.tier == old(result).evidence.tier,
            result.evidence.citation == old(result).evidence.citation,
            result.evidence.stale == resolved.stale,
        decreases resolved.claim.does_not_predict.len() - i,
    {
        let line = &resolved.claim.does_not_predict[i];
        if !text::holds_text(result.evidence.does_not_predict.as_slice(), line.as_str()) {
            let ghost before = result.evidence.does_not_predict@;
            result.evidence.does_not_predict.push(line.clone());
            proof {
                assert(text::texts(result.evidence.does_not_predict@) =~= text::texts(before).push(
                    line@,
                ));
            }
        }
        i = i + 1;
    }
}

/// How a claim graded two ways is reported.
pub open spec fn skew_line(result: MeasurementResult, claim: ResolvedModel) -> Seq<char> {
    result.claim_id@ + " is tier "@ + result.evidence.tier.wire_name() + " here and tier "@
        + claim.claim.tier.wire_name() + " in the registry"@
}

/// Whether the engine and the registry grade a result's claim differently.
pub open spec fn is_skewed(result: MeasurementResult, claims: Seq<(Seq<char>, ResolvedModel)>) -> bool {
    strmap::lookup(claims, result.claim_id@) matches Some(claim) && claim.claim.tier
        != result.evidence.tier
}

/// The claims that the first `n` results grade otherwise than the registry: a
/// line each, in order.
pub open spec fn skew_lines(
    results: Seq<MeasurementResult>,
    claims: Seq<(Seq<char>, ResolvedModel)>,
    n: int,
) -> Seq<(Seq<char>, ())>
    decreases n,
{
    if n <= 0 {
        Seq::empty()
    } else {
        let before = skew_lines(results, claims, n - 1);
        let result = results[n - 1];
        if is_skewed(result, claims) {
            strmap::inserted(
                before,
                skew_line(result, strmap::lookup(claims, result.claim_id@)->Some_0),
                (),
            )
        } else {
            before
        }
    }
}

fn registry_skew(results: &[MeasurementResult], claims: &StrMap<ResolvedClaim>) -> (r: Vec<String>)
    ensures
        text::texts(r@) == verdict::key_list(
            skew_lines(results@, claims@, results@.len() as int),
        ),
{
    let mut lines = StrSet::new();
    let mut i: usize = 0;
    proof {
        assert(lines@ =~= Seq::empty());
    }
    while i < results.len()
        invariant
            i <= results.len(),
            lines@ == skew_lines(results@, claims@, i as int),
        decreases results.len() - i,
    {
        let result = &results[i];
        if let Some(resolved) = claims.get(result.claim_id.as_str()) {
            if resolved.claim.tier != result.evidence.tier {
                let mut line = result.claim_id.clone();
                line.append(" is tier ");
                line.append(result.evidence.tier.wire());
                line.append(" here and tier ");
                line.append(resolved.claim.tier.wire());
                line.append(" in the registry");
                lines.insert(line, ());
            }
        }
        i = i + 1;
    }
    verdict::listed(&lines)
}

// --- the record as a whole ------------------------------------------------

/// The record-level completeness: the weakest of the results', and never
/// stronger than `partial` when an engine failed outright.
pub open spec fn completeness_of(results: Seq<MeasurementResult>, failures: nat) -> Completeness {
    let weakest = parse_health::weakest_of(results, results.len() as int);
    if failures == 0 {
        weakest
    } else {
        parse_health::weaker(Completeness::Partial, weakest)
    }
}

fn record_completeness(results: &[MeasurementResult], failures: &Vec<EngineFailure>) -> (r:
    Completeness)
    ensures
        r == completeness_of(results@, failures@.len()),
{
    let weakest = parse_health::weakest(results);
    if failures.len() == 0 {
        return weakest;
    }
    if parse_health::weakness_rank(weakest) < parse_health::weakness_rank(Completeness::Partial) {
        weakest
    } else {
        Completeness::Partial
    }
}

/// The scope half of the verifier's pairing key.
pub open spec fn scope_text(scope: ResultScope) -> Seq<char> {
    canonical::encode(scope.json_model())
}

/// The scope half of the verifier's pairing key, as a comparable string.
pub fn scope_key(scope: &ResultScope) -> (r: String)
    ensures
        r@ == scope_text(*scope),
{
    canonical::to_canonical_string(&scope.to_json())
}

/// Whether the verifier could not tell two results apart.
pub open spec fn pairs_with(a: MeasurementResult, b: MeasurementResult) -> bool {
    a.metric_id@ == b.metric_id@ && scope_text(a.scope) == scope_text(b.scope)
}

/// A result and who produced it.
pub struct Item {
    pub descriptor: EngineDescriptor,
    pub result: MeasurementResult,
}

/// The results of one engine, each with its engine.
pub open spec fn items_of(output: EngineOutput) -> Seq<Item> {
    Seq::new(
        output.results@.len(),
        |i: int| Item { descriptor: output.descriptor, result: output.results@[i] },
    )
}

/// The results of the first `n` engines, in order, each with its engine.
pub open spec fn items_among(engines: Seq<EngineOutput>, n: int) -> Seq<Item>
    decreases n,
{
    if n <= 0 {
        Seq::empty()
    } else {
        items_among(engines, n - 1) + items_of(engines[n - 1])
    }
}

/// The order of engines in a record: by engine id.
pub open spec fn engine_order() -> spec_fn(EngineOutput, EngineOutput) -> bool {
    |a: EngineOutput, b: EngineOutput|
        text::text_less(a.descriptor.engine_id@, b.descriptor.engine_id@)
}

/// Every result of a request, in record order, each with its engine.
pub open spec fn all_items(engines: Seq<EngineOutput>) -> Seq<Item> {
    let ordered = sorting::sorted(engines, engine_order());
    items_among(ordered, ordered.len() as int)
}

/// Whether an earlier result has the pairing key of the one at `i`.
pub open spec fn is_shadowed(items: Seq<Item>, i: int) -> bool {
    exists|j: int| 0 <= j < i && pairs_with((#[trigger] items[j]).result, items[i].result)
}

/// What is wrong with the result at `i`, if anything.
pub open spec fn item_problem(
    items: Seq<Item>,
    i: int,
    ctx: CompareContext,
    registry: LoadedRegistry,
) -> Option<AssemblyErrorModel> {
    let item = items[i];
    first_of(
        result_problem(
            item.result,
            item.descriptor,
            ctx,
            registry.registry.metrics@,
            registry.registry.claims@,
        ),
        if is_shadowed(items, i) {
            Some(
                AssemblyErrorModel::DuplicateResult {
                    metric_id: item.result.metric_id@,
                    scope: item.result.scope,
                },
            )
        } else {
            None
        },
    )
}

/// The first problem from the result at `i` on.
pub open spec fn items_problem(
    items: Seq<Item>,
    i: int,
    ctx: CompareContext,
    registry: LoadedRegistry,
) -> Option<AssemblyErrorModel>
    decreases items.len() - i,
{
    if i < 0 || i >= items.len() {
        None
    } else if item_problem(items, i, ctx, registry) is Some {
        item_problem(items, i, ctx, registry)
    } else {
        items_problem(items, i + 1, ctx, registry)
    }
}

/// What is wrong with the justification a request carries, if anything: the
/// binary under measurement cannot mark its own excuse as checked.
pub open spec fn justification_problem(
    kind: RecordKind,
    change: Option<PolicyChange>,
) -> Option<AssemblyErrorModel> {
    match change {
        Some(c) => match c.justification {
            Some(j) => if kind == RecordKind::SelfReport && j is Verified {
                Some(AssemblyErrorModel::UnverifiableJustification(j.source()))
            } else {
                None
            },
            None => None,
        },
        None => None,
    }
}

/// Why a request cannot become a payload, if it cannot.
pub open spec fn request_problem(request: AssembleRequest) -> Option<AssemblyErrorModel> {
    let ordered = sorting::sorted(request.engines@, engine_order());
    first_of(
        roster_problem(
            ordered,
            request.engine_failures@,
            roster(*request.registry, *request.policy),
        ),
        first_of(
            justification_problem(request.record_kind, request.policy_change),
            items_problem(
                all_items(request.engines@),
                0,
                request.compare_context,
                *request.registry,
            ),
        ),
    )
}

/// Whether `out` is an item's result as it enters the record: evidence
/// reconciled, severity capped by policy.
pub open spec fn is_assembled(
    out: MeasurementResult,
    item: Item,
    registry: LoadedRegistry,
    policy: Policy,
) -> bool {
    let claim = strmap::lookup(registry.registry.claims@, item.result.claim_id@)->Some_0;
    &&& is_reconciled(
        MeasurementResult { severity: item.result.severity, ..out },
        item.result,
        claim,
    )
    &&& out.severity == item.result.severity.weaker(
        severity::ceiling_of(item.result, policy.severity),
    )
}

/// Whether a record's results are a request's results, in record order.
pub open spec fn are_assembled(
    out: Seq<MeasurementResult>,
    items: Seq<Item>,
    registry: LoadedRegistry,
    policy: Policy,
) -> bool {
    &&& out.len() == items.len()
    &&& forall|i: int|
        0 <= i < items.len() ==> is_assembled(#[trigger] out[i], items[i], registry, policy)
}

/// Whether every question was answered: no engine failed, no path went unread,
/// and no result covers only part of what it is about. An honest absence is an
/// answer.
pub open spec fn all_answered(
    results: Seq<MeasurementResult>,
    failures: nat,
    unread: nat,
) -> bool {
    &&& failures == 0
    &&& unread == 0
    &&& forall|i: int|
        0 <= i < results.len() ==> (#[trigger] results[i]).completeness != Completeness::Partial
            && results[i].completeness != Completeness::ParseDegraded
}

/// What a measurement says about the loop it is part of.
pub open spec fn outcome_of(
    countable: bool,
    results: Seq<MeasurementResult>,
    failures: nat,
    unread: nat,
) -> LoopOutcome {
    if countable {
        LoopOutcome::Countable
    } else if all_answered(results, failures, unread) {
        LoopOutcome::Finished
    } else {
        LoopOutcome::Inconclusive
    }
}

/// A validated payload, waiting only on the iteration counter.
///
/// Two steps rather than one because the counter needs an answer this step
/// produces: whether the run found anything an agent can act on.
#[derive(Debug, Clone)]
pub struct Prepared<'a> {
    tool: ToolIdentity,
    record_kind: RecordKind,
    compare_context: CompareContext,
    invocation: Invocation,
    reserved: Reserved,
    substitution: Option<Substitution>,
    unreadable_paths: Vec<String>,
    self_measure: Option<SelfMeasureProvenance>,
    policy: &'a Policy,
    policy_hash: String,
    results: Vec<MeasurementResult>,
    engine_failures: Vec<EngineFailure>,
    policy_change: Option<PolicyChange>,
    stale_claim_ids: Vec<String>,
    skew: Vec<String>,
    completeness: Completeness,
    countable: bool,
}

/// What was prepared.
pub struct PreparedModel {
    pub tool: ToolIdentity,
    pub record_kind: RecordKind,
    pub compare_context: CompareContext,
    pub invocation: Invocation,
    pub reserved: Reserved,
    pub substitution: Option<Substitution>,
    pub unreadable_paths: Seq<String>,
    pub self_measure: Option<SelfMeasureProvenance>,
    pub policy: Policy,
    pub policy_hash: Seq<char>,
    pub results: Seq<MeasurementResult>,
    pub engine_failures: Seq<EngineFailure>,
    pub policy_change: Option<PolicyChange>,
    pub stale_claim_ids: Seq<Seq<char>>,
    pub registry_skew: Seq<Seq<char>>,
    pub completeness: Completeness,
    pub countable: bool,
}

impl PreparedModel {
    /// The context the payload is judged in.
    pub open spec fn judged_in(self, recovered: bool) -> ContextModel {
        ContextModel {
            completeness: self.completeness,
            policy: self.policy,
            policy_change: self.policy_change,
            engine_failures: self.engine_failures,
            stale_claim_ids: self.stale_claim_ids,
            iteration_state_recovered: recovered,
            registry_skew: self.registry_skew,
            unreadable_paths: text::texts(self.unreadable_paths),
        }
    }

    /// What the measurement says about the loop it is part of.
    pub open spec fn outcome(self) -> LoopOutcome {
        outcome_of(
            self.countable,
            self.results,
            self.engine_failures.len(),
            self.unreadable_paths.len(),
        )
    }
}

/// Whether what was prepared is what a request asked for.
pub open spec fn is_prepared(p: PreparedModel, request: AssembleRequest) -> bool {
    &&& p.tool == request.tool
    &&& p.record_kind == request.record_kind
    &&& p.compare_context == request.compare_context
    &&& p.invocation == request.invocation
    &&& p.reserved == request.reserved
    &&& p.substitution == request.substitution
    &&& p.unreadable_paths == request.unreadable_paths@
    &&& p.self_measure == request.self_measure
    &&& p.policy == *request.policy
    &&& p.policy_hash == canonical::digest_of(request.policy.json_model())
    &&& are_assembled(
        p.results,
        all_items(request.engines@),
        *request.registry,
        *request.policy,
    )
    &&& p.engine_failures == request.engine_failures@
    &&& p.policy_change == request.policy_change
    &&& p.stale_claim_ids == registry_load::stale_ids(request.registry.registry.claims@)
    &&& p.registry_skew == verdict::key_list(
        skew_lines(p.results, request.registry.registry.claims@, p.results.len() as int),
    )
    &&& p.completeness == completeness_of(p.results, request.engine_failures@.len())
    &&& p.countable == verdict::countable(p.results, p.judged_in(false))
}

impl<'a> View for Prepared<'a> {
    type V = PreparedModel;

    closed spec fn view(&self) -> PreparedModel {
        PreparedModel {
            tool: self.tool,
            record_kind: self.record_kind,
            compare_context: self.compare_context,
            invocation: self.invocation,
            reserved: self.reserved,
            substitution: self.substitution,
            unreadable_paths: self.unreadable_paths@,
            self_measure: self.self_measure,
            policy: *self.policy,
            policy_hash: self.policy_hash@,
            results: self.results@,
            engine_failures: self.engine_failures@,
            policy_change: self.policy_change,
            stale_claim_ids: text::texts(self.stale_claim_ids@),
            registry_skew: text::texts(self.skew@),
            completeness: self.completeness,
            countable: self.countable,
        }
    }
}

impl<'a> Prepared<'a> {
    /// Whether this run gives an agent something to act on.
    pub fn has_countable_finding(&self) -> (r: bool)
        ensures
            r == self@.countable,
    {
        self.countable
    }

    /// The results as they will appear in the record.
    pub fn results(&self) -> (r: &[MeasurementResult])
        ensures
            r@ == self@.results,
    {
        self.results.as_slice()
    }

    /// Record-level completeness: the weakest of the results', demoted to
    /// `partial` when an engine could not run at all.
    pub fn completeness(&self) -> (r: Completeness)
        ensures
            r == self@.completeness,
    {
        self.completeness
    }

    /// What this run says about the loop it is part of.
    pub fn loop_outcome(&self) -> (r: LoopOutcome)
        ensures
            r == self@.outcome(),
    {
        if self.countable {
            return LoopOutcome::Countable;
        }
        if self.engine_failures.len() > 0 || self.unreadable_paths.len() > 0 {
            return LoopOutcome::Inconclusive;
        }
        let mut i: usize = 0;
        while i < self.results.len()
            invariant
                i <= self.results.len(),
                !self.countable,
                forall|k: int|
                    0 <= k < i ==> (#[trigger] self.results@[k]).completeness
                        != Completeness::Partial && self.results@[k].completeness
                        != Completeness::ParseDegraded,
            decreases self.results.len() - i,
        {
            let c = self.results[i].completeness;
            if c == Completeness::Partial || c == Completeness::ParseDegraded {
                return LoopOutcome::Inconclusive;
            }
            i = i + 1;
        }
        LoopOutcome::Finished
    }

    /// Reach a verdict and emit the record.
    ///
    /// The counter is the only writer of the pass number, and the record leaves
    /// unwitnessed: a record that set its own attestation value could pass
    /// itself.
    pub fn finish(self, iteration: Advance) -> (record: MeasurementRecord)
        ensures
            record.schema_version == SCHEMA_VERSION,
            record.record_kind == self@.record_kind,
            record.tool == self@.tool,
            record.compare_context == self@.compare_context,
            record.invocation == (Invocation {
                iteration: iteration.state.count,
                ..self@.invocation
            }),
            record.reserved == self@.reserved,
            record.policy_hash@ == self@.policy_hash,
            record.substitution == self@.substitution,
            record.unreadable_paths@ == self@.unreadable_paths,
            record.self_measure == self@.self_measure,
            record.results@ == self@.results,
            record.completeness == self@.completeness,
            record.verdict.verdict == verdict::verdict_of(
                self@.results,
                self@.judged_in(iteration.recovered),
                iteration.state,
            ),
            verdict::reasons_of(record.verdict.reasons@) == verdict::all_reasons(
                self@.results,
                self@.judged_in(iteration.recovered),
                iteration.state,
            ),
            record.verdict.iteration == iteration.state,
            !verdict::contradicted(record),
            record.attestation.value == Attestation::Unwitnessed,
            record.attestation.tamper_signals@ == tamper_signals::fired_set(self@.results),
            record.attestation.verifier is None,
            record.attestation.compare is None,
    {
        let context = VerdictContext {
            completeness: self.completeness,
            policy: self.policy,
            policy_change: self.policy_change.as_ref(),
            engine_failures: self.engine_failures.as_slice(),
            stale_claim_ids: self.stale_claim_ids.as_slice(),
            iteration_state_recovered: iteration.recovered,
            registry_skew: self.skew.as_slice(),
            unreadable_paths: self.unreadable_paths.as_slice(),
        };
        let verdict = verdict::evaluate(self.results.as_slice(), &context, iteration.state);
        let signals = tamper_signals::fired_signals(self.results.as_slice());
        proof {
            assert(context@ == self@.judged_in(iteration.recovered));
        }
        proof {
            if context.unreadable_paths@.len() > 0 {
                verdict::lemma_unanswered_change_never_passes(
                    self.results@,
                    context@,
                    iteration.state,
                );
            }
        }
        let mut invocation = self.invocation;
        invocation.iteration = iteration.state.count;
        MeasurementRecord {
            schema_version: SCHEMA_VERSION,
            record_kind: self.record_kind,
            tool: self.tool,
            compare_context: self.compare_context,
            invocation,
            reserved: self.reserved,
            policy_hash: self.policy_hash,
            substitution: self.substitution,
            unreadable_paths: self.unreadable_paths,
            self_measure: self.self_measure,
            completeness: self.completeness,
            verdict,
            attestation: AttestationBlock {
                value: Attestation::Unwitnessed,
                tamper_signals: signals,
                verifier: None,
                compare: None,
            },
            results: self.results,
        }
    }
}


// --- assembling -----------------------------------------------------------

/// Whether `out` are the results of the first items, evidence reconciled.
spec fn are_reconciled(
    out: Seq<MeasurementResult>,
    items: Seq<Item>,
    claims: Seq<(Seq<char>, ResolvedModel)>,
) -> bool {
    &&& out.len() <= items.len()
    &&& forall|i: int|
        #![trigger out[i]]
        0 <= i < out.len() ==> is_reconciled(
            out[i],
            items[i].result,
            strmap::lookup(claims, items[i].result.claim_id@)->Some_0,
        )
}

/// Whether `keys` are the pairing keys of the first items.
spec fn are_keys(keys: Seq<(String, String)>, items: Seq<Item>) -> bool {
    &&& keys.len() <= items.len()
    &&& forall|i: int|
        #![trigger keys[i]]
        0 <= i < keys.len() ==> keys[i].0@ == items[i].result.metric_id@ && keys[i].1@
            == scope_text(items[i].result.scope)
}

proof fn lemma_items_prefix(engines: Seq<EngineOutput>, k: int, n: int)
    requires
        0 <= k <= n <= engines.len(),
    ensures
        items_among(engines, k).len() <= items_among(engines, n).len(),
        forall|i: int|
            0 <= i < items_among(engines, k).len() ==> #[trigger] items_among(engines, n)[i]
                == items_among(engines, k)[i],
    decreases n - k,
{
    if k < n {
        lemma_items_prefix(engines, k, n - 1);
    }
}

fn holds_key(keys: &Vec<(String, String)>, metric_id: &str, scope: &str) -> (r: bool)
    ensures
        r == exists|i: int|
            #![trigger keys@[i]]
            0 <= i < keys@.len() && keys@[i].0@ == metric_id@ && keys@[i].1@ == scope@,
{
    let mut i: usize = 0;
    while i < keys.len()
        invariant
            i <= keys.len(),
            forall|k: int|
                #![trigger keys@[k]]
                0 <= k < i ==> !(keys@[k].0@ == metric_id@ && keys@[k].1@ == scope@),
        decreases keys.len() - i,
    {
        if same_text(keys[i].0.as_str(), metric_id) && same_text(keys[i].1.as_str(), scope) {
            return true;
        }
        i = i + 1;
    }
    false
}

fn take_results(engines: Vec<EngineOutput>, ctx: &CompareContext, registry: &LoadedRegistry) -> (r:
    Result<Vec<MeasurementResult>, AssemblyError>)
    ensures
        match items_problem(
            items_among(engines@, engines@.len() as int),
            0,
            *ctx,
            *registry,
        ) {
            Some(e) => r matches Err(x) && x@ == e,
            None => r matches Ok(out) && out@.len() == items_among(
                engines@,
                engines@.len() as int,
            ).len() && are_reconciled(
                out@,
                items_among(engines@, engines@.len() as int),
                registry.registry.claims@,
            ),
        },
{
    let ghost all = engines@;
    let ghost items = items_among(all, all.len() as int);
    let mut out: Vec<MeasurementResult> = Vec::new();
    let mut keys: Vec<(String, String)> = Vec::new();
    for output in it: engines
        invariant
            it.seq() == all,
            all == engines@,
            items == items_among(all, all.len() as int),
            out@.len() == items_among(all, it.index() as int).len(),
            keys@.len() == out@.len(),
            are_reconciled(out@, items, registry.registry.claims@),
            are_keys(keys@, items),
            items_problem(items, 0, *ctx, *registry) == items_problem(
                items,
                out@.len() as int,
                *ctx,
                *registry,
            ),
    {
        let ghost at = it.index() as int;
        let ghost off = out@.len() as int;
        let descriptor = output.descriptor;
        proof {
            lemma_items_prefix(all, at + 1, all.len() as int);
        }
        for taken in inner: output.results
            invariant
                inner.seq() == output.results@,
                all == engines@,
                0 <= at < all.len(),
                items_among(all, at + 1) == items_among(all, at) + items_of(all[at]),
                off == items_among(all, at).len(),
                all[at].descriptor == descriptor,
                all[at].results@ == output.results@,
                items_among(all, at + 1).len() <= items.len(),
                forall|i: int|
                    0 <= i < items_among(all, at + 1).len() ==> #[trigger] items[i] == items_among(
                        all,
                        at + 1,
                    )[i],
                items == items_among(all, all.len() as int),
                out@.len() == off + inner.index(),
                keys@.len() == out@.len(),
                are_reconciled(out@, items, registry.registry.claims@),
                are_keys(keys@, items),
                items_problem(items, 0, *ctx, *registry) == items_problem(
                    items,
                    out@.len() as int,
                    *ctx,
                    *registry,
                ),
        {
            let ghost m = out@.len() as int;
            let mut result = taken;
            proof {
                assert(items[m] == items_of(all[at])[inner.index() as int]);
                assert(items[m].result == result);
                assert(items[m].descriptor == descriptor);
            }
            let resolved = match validate(&result, &descriptor, ctx, registry) {
                Ok(resolved) => resolved,
                Err(e) => {
                    return Err(e);
                },
            };
            // The verifier pairs on exactly this key, so a duplicate could
            // shadow an honest result and the compare would never see it.
            let scope = scope_key(&result.scope);
            if holds_key(&keys, result.metric_id.as_str(), scope.as_str()) {
                proof {
                    let j = choose|j: int|
                        #![trigger keys@[j]]
                        0 <= j < keys@.len() && keys@[j].0@ == result.metric_id@ && keys@[j].1@
                            == scope@;
                    assert(pairs_with(items[j].result, items[m].result));
                    assert(is_shadowed(items, m));
                }
                return Err(
                    AssemblyError::DuplicateResult {
                        metric_id: result.metric_id.clone(),
                        scope: Box::new(result.scope.clone()),
                    },
                );
            }
            proof {
                assert forall|j: int| 0 <= j < m implies !pairs_with(
                    (#[trigger] items[j]).result,
                    items[m].result,
                ) by {
                    assert(keys@[j].0@ == items[j].result.metric_id@);
                }
                assert(!is_shadowed(items, m));
                assert(item_problem(items, m, *ctx, *registry) is None);
            }
            keys.push((result.metric_id.clone(), scope));
            resolve_evidence(&mut result, resolved);
            out.push(result);
        }
    }
    Ok(out)
}

/// Validate a set of engine outputs and settle everything except the iteration
/// counter.
///
/// Engine order is sorted so that the record does not depend on the order a
/// caller happened to register engines in. Within an engine, emission order is
/// preserved. Policy is applied after sealing, because the verifier applies its
/// own policy to the same sealed numbers.
pub fn prepare<'a>(request: AssembleRequest<'a>) -> (r: Result<Prepared<'a>, AssemblyError>)
    ensures
        match request_problem(request) {
            Some(e) => r matches Err(x) && x@ == e,
            None => r matches Ok(p) && is_prepared(p@, request),
        },
{
    let less = |a: &EngineOutput, b: &EngineOutput| -> (r: bool)
        ensures
            r == text::text_less(a.descriptor.engine_id@, b.descriptor.engine_id@),
        {
            text::text_before(a.descriptor.engine_id.as_str(), b.descriptor.engine_id.as_str())
        };
    let engines = sorting::stable_sort(request.engines, less, Ghost(engine_order()));
    let expected = expected_engines(request.registry, request.policy);
    if let Err(e) = account_for_every_engine(&engines, &request.engine_failures, &expected) {
        return Err(e);
    }
    // The binary under measurement cannot mark its own excuse as checked.
    if request.record_kind == RecordKind::SelfReport {
        if let Some(change) = &request.policy_change {
            if let Some(justification) = &change.justification {
                if justification.is_verified() {
                    return Err(
                        AssemblyError::UnverifiableJustification {
                            reference: justification.reference().to_owned(),
                        },
                    );
                }
            }
        }
    }
    let mut results = match take_results(engines, &request.compare_context, request.registry) {
        Ok(results) => results,
        Err(e) => {
            return Err(e);
        },
    };
    severity::apply(results.as_mut_slice(), request.policy);
    let completeness = record_completeness(results.as_slice(), &request.engine_failures);
    let stale_claim_ids = request.registry.stale_claim_ids();
    let skew = registry_skew(results.as_slice(), &request.registry.registry.claims);
    // Whether the counter restarted is not known yet. What there is to act on
    // does not depend on it.
    let context = VerdictContext {
        completeness,
        policy: request.policy,
        policy_change: request.policy_change.as_ref(),
        engine_failures: request.engine_failures.as_slice(),
        stale_claim_ids: stale_claim_ids.as_slice(),
        iteration_state_recovered: false,
        registry_skew: skew.as_slice(),
        unreadable_paths: request.unreadable_paths.as_slice(),
    };
    let ghost judged = context@;
    let countable = verdict::has_countable_finding(results.as_slice(), &context);
    let policy_hash = match request.policy.policy_hash() {
        Ok(hash) => hash,
        Err(e) => {
            return Err(AssemblyError::PolicyHash(e.describe()));
        },
    };
    let prepared = Prepared {
        tool: request.tool,
        record_kind: request.record_kind,
        compare_context: request.compare_context,
        invocation: request.invocation,
        reserved: request.reserved,
        substitution: request.substitution,
        unreadable_paths: request.unreadable_paths,
        self_measure: request.self_measure,
        policy: request.policy,
        policy_hash,
        results,
        engine_failures: request.engine_failures,
        policy_change: request.policy_change,
        stale_claim_ids,
        skew,
        completeness,
        countable,
    };
    proof {
        assert(judged == prepared@.judged_in(false));
    }
    Ok(prepared)
}

// --- grouping -------------------------------------------------------------

/// The results of one engine among the first `n`, in record order.
pub open spec fn of_engine<'r>(
    results: Seq<MeasurementResult>,
    engine_id: Seq<char>,
    n: int,
) -> Seq<&'r MeasurementResult>
    decreases n,
{
    if n <= 0 {
        Seq::empty()
    } else if results[n - 1].engine_id@ == engine_id {
        of_engine(results, engine_id, n - 1).push(&results[n - 1])
    } else {
        of_engine(results, engine_id, n - 1)
    }
}

/// Results keyed by the engine that produced them.
///
/// The only correct grouping key. Family is not one: two engines share a family
/// and one engine measures several.
pub fn group_by_engine<'r>(results: &'r [MeasurementResult]) -> (r: StrMap<
    Vec<&'r MeasurementResult>,
>)
    ensures
        strmap::keys_ascend(r@),
        forall|engine_id: Seq<char>|
            {
                let group = of_engine(results@, engine_id, results@.len() as int);
                #[trigger] strmap::lookup(r@, engine_id) == if group.len() == 0 {
                    None::<Seq<&MeasurementResult>>
                } else {
                    Some(group)
                }
            },
{
    let mut out: StrMap<Vec<&'r MeasurementResult>> = StrMap::new();
    let mut i: usize = 0;
    while i < results.len()
        invariant
            i <= results.len(),
            strmap::keys_ascend(out@),
            forall|engine_id: Seq<char>|
                {
                    let group = of_engine(results@, engine_id, i as int);
                    #[trigger] strmap::lookup(out@, engine_id) == if group.len() == 0 {
                        None::<Seq<&MeasurementResult>>
                    } else {
                        Some(group)
                    }
                },
        decreases results.len() - i,
    {
        let result = &results[i];
        let ghost before = out@;
        let mut group = match out.remove(result.engine_id.as_str()) {
            Some(group) => group,
            None => Vec::new(),
        };
        let ghost without = out@;
        proof {
            strmap::lemma_removed(before, result.engine_id@);
            strmap::lemma_inserted(without, result.engine_id@, group@.push(result));
            assert(group@ =~= of_engine(results@, result.engine_id@, i as int));
        }
        group.push(result);
        out.insert(result.engine_id.clone(), group);
        proof {
            assert forall|engine_id: Seq<char>|
                {
                    let grown = of_engine(results@, engine_id, i + 1);
                    #[trigger] strmap::lookup(out@, engine_id) == if grown.len() == 0 {
                        None::<Seq<&MeasurementResult>>
                    } else {
                        Some(grown)
                    }
                } by {
                if engine_id != result.engine_id@ {
                    assert(strmap::lookup(out@, engine_id) == strmap::lookup(without, engine_id));
                    assert(strmap::lookup(without, engine_id) == strmap::lookup(before, engine_id));
                }
            }
        }
        i = i + 1;
    }
    out
}

} // verus!
