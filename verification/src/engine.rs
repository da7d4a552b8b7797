//! The boundary every engine runs behind.
//!
//! An engine measures; the boundary decides whether it may run, what its
//! results are ranked as, and that each of them leaves sealed.
use vstd::prelude::*;

use crate::canonical;
use crate::canonical::CanonicalError;
use crate::parse_health;
use crate::policy::Policy;
use crate::schema::enums::{Completeness, EngineClass, EngineFamily, MetricClass, Severity};
use crate::schema::payload::{CompareContext, MeasurementResult, MetricValue};
use crate::schema::regime::MeasurementRegime;
use crate::strmap;
use crate::strmap::StrMap;
use crate::verdict::ladder::{LadderError, LadderErrorModel, SeverityLadder};

verus! {

/// Who an engine is.
#[derive(Debug, Clone, PartialEq, Eq)]
pub struct EngineDescriptor {
    /// Stable engine id.
    pub engine_id: String,
    /// The family every result of this engine belongs to.
    pub family: EngineFamily,
    /// Whether running it executes repository code.
    pub class: EngineClass,
    /// Version of the engine.
    pub version: String,
}

/// One metric an engine emits.
#[derive(Debug, Clone, PartialEq, Eq)]
pub struct MetricDescriptor {
    /// Stable metric id.
    pub metric_id: String,
    /// The claim the metric cites.
    pub claim_id: String,
    /// Whether the agent can act on it inside its own change.
    pub class: MetricClass,
    /// Whether it belongs in the digest compare set.
    pub deterministic: bool,
}

impl View for MetricDescriptor {
    type V = Self;

    open spec fn view(&self) -> Self {
        *self
    }
}

/// What an engine is asked to measure.
#[derive(Debug, Clone)]
pub struct MeasureContext {
    /// The tuple every result is sealed against.
    pub compare_context: CompareContext,
    /// Policy in force.
    pub policy: Policy,
    /// Paths the change touches.
    pub changed_paths: Vec<String>,
    /// Whether a sandbox is there for engines that execute code.
    pub sandbox_available: bool,
}

/// Why an engine contributed nothing.
#[derive(Debug, Clone, PartialEq, Eq)]
pub enum EngineError {
    /// The engine executes repository code and no sandbox is available.
    SandboxRequired {
        /// The engine.
        engine_id: String,
    },
    /// A result is stamped with a family its engine does not have.
    FamilyMismatch {
        /// The metric.
        metric_id: String,
        /// Family on the result.
        result: EngineFamily,
        /// Family on the descriptor.
        descriptor: EngineFamily,
        /// Family implied by the regime.
        regime: EngineFamily,
    },
    /// A result's metric declares no severity ladder.
    NoLadder {
        /// The metric.
        metric_id: String,
    },
    /// A declared ladder cannot be applied to the value it met.
    Ladder {
        /// The metric.
        metric_id: String,
        /// Why not.
        error: LadderError,
    },
    /// A result could not be sealed.
    Canonical {
        /// The metric.
        metric_id: String,
        /// Why not.
        error: CanonicalError,
    },
    /// The engine itself failed.
    Failed {
        /// The engine.
        engine_id: String,
        /// What it said, in its own words.
        reason: String,
    },
}

/// Why the boundary refuses a result.
pub enum Refusal {
    Family { result: EngineFamily, descriptor: EngineFamily, regime: EngineFamily },
    NoLadder,
    Ladder(LadderErrorModel),
    Canonical(CanonicalError),
}

impl EngineError {
    /// Whether this error is a given refusal of a given metric.
    pub open spec fn is_refusal(self, metric_id: Seq<char>, refusal: Refusal) -> bool {
        match self {
            EngineError::FamilyMismatch { metric_id: m, result, descriptor, regime } => m@
                == metric_id && refusal == (Refusal::Family { result, descriptor, regime }),
            EngineError::NoLadder { metric_id: m } => m@ == metric_id && refusal
                == Refusal::NoLadder,
            EngineError::Ladder { metric_id: m, error } => m@ == metric_id && refusal
                == Refusal::Ladder(error@),
            EngineError::Canonical { metric_id: m, error } => m@ == metric_id && refusal
                == Refusal::Canonical(error),
            _ => false,
        }
    }
}

/// Something that measures a change.
///
/// Implemented by engines, which live outside this library. Nothing is promised
/// of what an implementation answers.
pub trait MeasureEngine {
    /// Who this engine is.
    fn descriptor(&self) -> EngineDescriptor;

    /// Every metric it emits.
    fn metrics(&self) -> Vec<MetricDescriptor>;

    /// The severity ladder of every metric it emits, by metric id.
    fn severity_ladders(&self) -> StrMap<SeverityLadder>;

    /// The regime it measures under.
    fn regime(&self) -> MeasurementRegime;

    /// Measure a change. Results come back unsealed.
    fn measure(&self, ctx: &MeasureContext) -> Result<Vec<MeasurementResult>, EngineError>;
}

/// The severity a ladder leaves a result at, before completeness caps it.
pub open spec fn ranked(result: MeasurementResult, assigned: Option<Severity>) -> Severity {
    match assigned {
        Some(severity) => severity,
        None => result.severity,
    }
}

/// Why the boundary refuses a result, where it does: a wrong family first, then
/// a missing ladder, then a ladder that does not apply, then a value that cannot
/// be sealed.
pub open spec fn refusal_of(
    result: MeasurementResult,
    family: EngineFamily,
    ladders: Seq<(Seq<char>, SeverityLadder)>,
) -> Option<Refusal> {
    if result.family != family || result.measurement_regime.family_of() != family {
        Some(
            Refusal::Family {
                result: result.family,
                descriptor: family,
                regime: result.measurement_regime.family_of(),
            },
        )
    } else {
        match strmap::lookup(ladders, result.metric_id@) {
            None => Some(Refusal::NoLadder),
            Some(ladder) => match ladder.assigns(result.value) {
                Err(e) => Some(Refusal::Ladder(e)),
                Ok(_) => if result.sealable() {
                    None
                } else {
                    Some(Refusal::Canonical(CanonicalError::UncarriableRatio))
                },
            },
        }
    }
}

/// The severity a result the boundary admits leaves with.
pub open spec fn admitted_severity(
    result: MeasurementResult,
    ladders: Seq<(Seq<char>, SeverityLadder)>,
) -> Severity {
    let ladder = strmap::lookup(ladders, result.metric_id@)->Some_0;
    ranked(result, ladder.assigns(result.value)->Ok_0).weaker(
        parse_health::ceiling_for(result.completeness),
    )
}

/// Whether `out` is `result` as the boundary lets it through: ranked by its
/// ladder, capped by its completeness, sealed against the tuple, and otherwise
/// untouched.
pub open spec fn is_admitted(
    out: MeasurementResult,
    result: MeasurementResult,
    ladders: Seq<(Seq<char>, SeverityLadder)>,
    ctx: CompareContext,
) -> bool {
    &&& out == (MeasurementResult {
        severity: admitted_severity(result, ladders),
        digest: out.digest,
        ..result
    })
    &&& out.digest@ == result.digest_against(ctx)
    &&& out.digest@.len() == 64
}

/// Whether every result is admitted: the list of them, in order.
pub open spec fn all_admitted(
    out: Seq<MeasurementResult>,
    results: Seq<MeasurementResult>,
    family: EngineFamily,
    ladders: Seq<(Seq<char>, SeverityLadder)>,
    ctx: CompareContext,
) -> bool {
    &&& out.len() == results.len()
    &&& forall|i: int|
        0 <= i < results.len() ==> refusal_of(#[trigger] results[i], family, ladders) is None
            && is_admitted(out[i], results[i], ladders, ctx)
}

/// Whether `error` is the refusal of the first result the boundary refuses.
pub open spec fn first_refused(
    error: EngineError,
    results: Seq<MeasurementResult>,
    family: EngineFamily,
    ladders: Seq<(Seq<char>, SeverityLadder)>,
) -> bool {
    exists|i: int|
        {
            &&& 0 <= i < results.len()
            &&& refusal_of(#[trigger] results[i], family, ladders) matches Some(refusal)
            &&& error.is_refusal(results[i].metric_id@, refusal)
            &&& forall|k: int|
                0 <= k < i ==> refusal_of(#[trigger] results[k], family, ladders) is None
        }
}

fn let_through(
    result: MeasurementResult,
    family: EngineFamily,
    ladders: &StrMap<SeverityLadder>,
    ctx: &CompareContext,
) -> (r: Result<MeasurementResult, EngineError>)
    ensures
        match refusal_of(result, family, ladders@) {
            None => r matches Ok(out) && is_admitted(out, result, ladders@, *ctx),
            Some(refusal) => r matches Err(e) && e.is_refusal(result.metric_id@, refusal),
        },
{
    let regime = result.measurement_regime.family();
    if result.family != family || regime != family {
        return Err(
            EngineError::FamilyMismatch {
                metric_id: result.metric_id.clone(),
                result: result.family,
                descriptor: family,
                regime,
            },
        );
    }
    let ladder = match ladders.get(result.metric_id.as_str()) {
        Some(ladder) => *ladder,
        None => {
            return Err(EngineError::NoLadder { metric_id: result.metric_id.clone() });
        },
    };
    let severity = match ladder.severity_for(&result.value) {
        Ok(Some(severity)) => severity,
        Ok(None) => result.severity,
        Err(error) => {
            return Err(EngineError::Ladder { metric_id: result.metric_id.clone(), error });
        },
    };
    let mut out = result;
    out.severity = severity.capped_at(parse_health::severity_ceiling(out.completeness));
    let ghost before = out;
    match out.seal(ctx) {
        Ok(_) => {
            proof {
                assert(before.digest_facts(*ctx) == result.digest_facts(*ctx));
            }
            Ok(out)
        },
        Err(error) => {
            proof {
                assert(error == CanonicalError::UncarriableRatio);
            }
            Err(EngineError::Canonical { metric_id: out.metric_id.clone(), error })
        },
    }
}

/// Let an engine's results through: every one of them, or the first refusal.
pub fn admit_results(
    family: EngineFamily,
    ladders: &StrMap<SeverityLadder>,
    results: Vec<MeasurementResult>,
    ctx: &CompareContext,
) -> (r: Result<Vec<MeasurementResult>, EngineError>)
    ensures
        match r {
            Ok(out) => all_admitted(out@, results@, family, ladders@, *ctx),
            Err(e) => first_refused(e, results@, family, ladders@),
        },
{
    let ghost all = results@;
    let mut rest = results;
    let mut queue: Vec<MeasurementResult> = Vec::new();
    // Reversed, so that each result is taken off the end in emission order.
    while rest.len() > 0
        invariant
            rest@ == all.take(rest@.len() as int),
            rest@.len() + queue@.len() == all.len(),
            forall|k: int|
                0 <= k < queue@.len() ==> #[trigger] queue@[k] == all[all.len() - 1 - k],
        decreases rest.len(),
    {
        let ghost n = rest@.len();
        if let Some(result) = rest.pop() {
            proof {
                assert(all.take(n as int).drop_last() =~= all.take(n - 1));
            }
            queue.push(result);
        }
    }
    let mut out: Vec<MeasurementResult> = Vec::new();
    while queue.len() > 0
        invariant
            all == results@,
            out@.len() + queue@.len() == all.len(),
            forall|k: int|
                0 <= k < queue@.len() ==> #[trigger] queue@[k] == all[all.len() - 1 - k],
            forall|k: int|
                0 <= k < out@.len() ==> refusal_of(#[trigger] all[k], family, ladders@) is None
                    && is_admitted(out@[k], all[k], ladders@, *ctx),
        decreases queue.len(),
    {
        let ghost i = out@.len();
        if let Some(result) = queue.pop() {
            proof {
                assert(result == all[i as int]);
            }
            match let_through(result, family, ladders, ctx) {
                Ok(admitted) => {
                    out.push(admitted);
                },
                Err(e) => {
                    proof {
                        assert(refusal_of(all[i as int], family, ladders@) is Some);
                    }
                    return Err(e);
                },
            }
        }
    }
    Ok(out)
}

/// Whether `r` is what the boundary makes of an engine with this descriptor,
/// these ladders and this answer.
pub open spec fn boundary(
    d: EngineDescriptor,
    ladders: Seq<(Seq<char>, SeverityLadder)>,
    measured: Result<Vec<MeasurementResult>, EngineError>,
    ctx: MeasureContext,
    r: Result<Vec<MeasurementResult>, EngineError>,
) -> bool {
    match measured {
        Err(e) => r == Err::<Vec<MeasurementResult>, EngineError>(e),
        Ok(results) => match r {
            Ok(out) => all_admitted(out@, results@, d.family, ladders, ctx.compare_context),
            Err(e) => first_refused(e, results@, d.family, ladders),
        },
    }
}

/// Whether an engine may not run here.
pub open spec fn needs_sandbox(d: EngineDescriptor, ctx: MeasureContext) -> bool {
    d.class == EngineClass::CodeExec && !ctx.sandbox_available
}

/// Run an engine: the one supported way to invoke it.
///
/// An engine that executes repository code is refused without a sandbox, before
/// it is asked to measure anything.
pub fn run_engine<E: MeasureEngine>(engine: &E, ctx: &MeasureContext) -> (r: Result<
    Vec<MeasurementResult>,
    EngineError,
>)
    ensures
        exists|d: EngineDescriptor| #[trigger]
            call_ensures(E::descriptor, (engine,), d) && (if needs_sandbox(d, *ctx) {
                r matches Err(EngineError::SandboxRequired { engine_id }) && engine_id@
                    == d.engine_id@
            } else {
                exists|l: StrMap<SeverityLadder>, m: Result<Vec<MeasurementResult>, EngineError>|
                    #![trigger call_ensures(E::severity_ladders, (engine,), l), call_ensures(E::measure, (engine, ctx), m)]
                    {
                        &&& call_ensures(E::severity_ladders, (engine,), l)
                        &&& call_ensures(E::measure, (engine, ctx), m)
                        &&& boundary(d, l@, m, *ctx, r)
                    }
            }),
{
    let descriptor = engine.descriptor();
    if descriptor.class == EngineClass::CodeExec && !ctx.sandbox_available {
        let r = Err(EngineError::SandboxRequired { engine_id: descriptor.engine_id.clone() });
        proof {
            assert(call_ensures(E::descriptor, (engine,), descriptor));
        }
        return r;
    }
    let ladders = engine.severity_ladders();
    let measured = engine.measure(ctx);
    let ghost m = measured;
    let r = match measured {
        Ok(results) => admit_results(descriptor.family, &ladders, results, &ctx.compare_context),
        Err(e) => Err(e),
    };
    proof {
        assert(call_ensures(E::descriptor, (engine,), descriptor));
        assert(call_ensures(E::severity_ladders, (engine,), ladders));
        assert(call_ensures(E::measure, (engine, ctx), m));
        assert(boundary(descriptor, ladders@, m, *ctx, r));
    }
    r
}

// --- laws -----------------------------------------------------------------

/// What the boundary refuses: a result whose family is not its engine's, or whose
/// regime belongs to another family; a result whose metric declares no ladder; one
/// whose ladder does not apply to its value; and one that cannot be sealed. It
/// refuses nothing else.
pub proof fn lemma_what_the_boundary_refuses(
    result: MeasurementResult,
    family: EngineFamily,
    ladders: Seq<(Seq<char>, SeverityLadder)>,
)
    requires
        strmap::keys_ascend(ladders),
    ensures
        ({
            let at_home = result.family == family && (match result.measurement_regime {
                MeasurementRegime::Static { .. } => family == EngineFamily::Static,
                MeasurementRegime::Clones { .. } => family == EngineFamily::Clones,
                MeasurementRegime::Tamper { .. } => family == EngineFamily::Tamper,
                MeasurementRegime::Process { .. } => family == EngineFamily::Process,
                MeasurementRegime::Artifacts { .. } => family == EngineFamily::Artifacts,
                MeasurementRegime::Tests { .. } => family == EngineFamily::Tests,
            });
            let laddered = exists|i: int|
                0 <= i < ladders.len() && (#[trigger] ladders[i]).0 == result.metric_id@;
            let refusal = refusal_of(result, family, ladders);
            &&& (refusal matches Some(r) && r is Family) <==> !at_home
            &&& refusal matches Some(Refusal::Family { result: a, descriptor: b, regime: c }) ==> a
                == result.family && b == family && c == result.measurement_regime.family_of()
            &&& (refusal matches Some(r) && r is NoLadder) <==> at_home && !laddered
            &&& refusal is None <==> at_home && (exists|i: int|
                0 <= i < ladders.len() && (#[trigger] ladders[i]).0 == result.metric_id@
                    && ladders[i].1.assigns(result.value) is Ok) && fits(result.value) && (
            result.delta matches Some(d) ==> fits(d))
        }),
{
    strmap::lemma_lookup_iff(ladders, result.metric_id@);
    if strmap::lookup(ladders, result.metric_id@) is Some {
        let i = choose|i: int|
            0 <= i < ladders.len() && (#[trigger] ladders[i]).0 == result.metric_id@;
        strmap::lemma_lookup_row(ladders, i);
    }
    if exists|i: int|
        0 <= i < ladders.len() && (#[trigger] ladders[i]).0 == result.metric_id@
            && ladders[i].1.assigns(result.value) is Ok {
        let i = choose|i: int|
            0 <= i < ladders.len() && (#[trigger] ladders[i]).0 == result.metric_id@
                && ladders[i].1.assigns(result.value) is Ok;
        strmap::lemma_lookup_row(ladders, i);
    }
}

/// Whether a value fits on the wire: anything but a ratio does, and a ratio does
/// where it is a number within the largest that a double carries in millionths.
pub open spec fn fits(value: MetricValue) -> bool {
    value matches MetricValue::Ratio(x) ==> match x.millionths() {
        Some(n) => -most_millionths() <= n <= most_millionths(),
        None => false,
    }
}

/// The largest ratio that can be carried, in millionths.
pub open spec fn most_millionths() -> int {
    17976931348623154 * canonical::ten_to(292) as int
}

/// What an admitted result looks like. A complete one has the severity its ladder
/// gives its value, or the one its engine gave it where the ladder leaves it to
/// the engine. One that is not complete ranks no higher than that, and at most
/// low. Nothing else of it changes but the digest, which is its own.
pub proof fn lemma_what_the_boundary_admits(
    out: MeasurementResult,
    result: MeasurementResult,
    ladder: SeverityLadder,
    ladders: Seq<(Seq<char>, SeverityLadder)>,
    ctx: CompareContext,
)
    requires
        is_admitted(out, result, ladders, ctx),
        strmap::lookup(ladders, result.metric_id@) == Some(ladder),
        ladder.assigns(result.value) is Ok,
    ensures
        ({
            let given = match ladder.assigns(result.value)->Ok_0 {
                Some(severity) => severity,
                None => result.severity,
            };
            &&& out == (MeasurementResult { severity: out.severity, digest: out.digest, ..result })
            &&& result.completeness == Completeness::Complete ==> out.severity == given
            &&& result.completeness != Completeness::Complete ==> if given == Severity::Info {
                out.severity == Severity::Info
            } else {
                out.severity == Severity::Low
            }
            &&& out.digest@ == out.digest_against(ctx)
        }),
{
    assert(out.digest_facts(ctx)->Members_0 =~= result.digest_facts(ctx)->Members_0);
}

/// An engine that executes repository code runs only in a sandbox, and any other
/// engine runs with or without one.
pub proof fn lemma_code_runs_in_a_sandbox(d: EngineDescriptor, ctx: MeasureContext)
    ensures
        ctx.sandbox_available ==> !needs_sandbox(d, ctx),
        d.class != EngineClass::CodeExec ==> !needs_sandbox(d, ctx),
        d.class == EngineClass::CodeExec && !ctx.sandbox_available ==> needs_sandbox(d, ctx),
{
}

} // verus!
