//! Severity policy: how serious a finding is allowed to become.
//!
//! Engines set a severity in their own terms. This module applies the ceilings
//! policy declares, and the result is the severity every actor downstream
//! reads. Every rule here is a ceiling, never a floor: policy can lower a
//! severity and can never raise one.
//!
//! The one thing that stops the line without consulting a severity is a fired
//! flag. A detector that fires over a partly unreadable file has its severity
//! capped, and if line-stopping were keyed on the capped severity, one parked
//! parse error would silence the whole tamper suite. A firing over a degraded
//! view is a lower bound, and a lower bound above zero is still evidence.
//!
//! A fired threshold edit stops the line unless a verified justification covers
//! the change: a loosening a project can account for is policy evolution.
use vstd::prelude::*;

use super::{ContextModel, VerdictContext};
use crate::parse_health;
use crate::payload::tamper_signals;
use crate::policy::{Policy, SeverityPolicy};
use crate::schema::enums::{
    Completeness, EngineFamily, EvidenceTier, MetricClass, Severity, TamperSignal,
};
use crate::schema::payload::{CompareContext, MeasurementResult, MetricValue};
use crate::text::same_text;

verus! {

/// The tests engine's failure flag, the result `block_on_test_failure` keys on.
pub const SUITE_FAILURE_METRIC: &'static str = "tests.suite-failure";

/// The sentence result the tests engine emits beside the flag.
pub const SUITE_OUTCOME_METRIC: &'static str = "tests.suite-outcome";

/// Whether a result is the fired test-failure flag.
pub open spec fn suite_failed(result: MeasurementResult) -> bool {
    &&& result.family == EngineFamily::Tests
    &&& result.metric_id@ == SUITE_FAILURE_METRIC@
    &&& result.value == MetricValue::Flag(true)
}

/// The fired test-failure flag, if this result is one.
///
/// Keyed on family, metric id, and a `true` flag together.
pub fn fired_suite_failure(result: &MeasurementResult) -> (r: bool)
    ensures
        r == suite_failed(*result),
{
    result.family == EngineFamily::Tests && same_text(
        result.metric_id.as_str(),
        SUITE_FAILURE_METRIC,
    ) && matches!(result.value, MetricValue::Flag(true))
}

/// The strongest severity policy allows a result to reach: the minimum of every
/// ceiling that applies.
pub open spec fn ceiling_of(result: MeasurementResult, policy: SeverityPolicy) -> Severity {
    let by_completeness = parse_health::ceiling_for(result.completeness);
    let by_tier = if policy.med_plus_tiers@.contains(result.evidence.tier) {
        Severity::Critical
    } else {
        Severity::Low
    };
    let by_c_tier = if result.evidence.tier == EvidenceTier::C {
        policy.max_severity_for_c_tier
    } else {
        Severity::Critical
    };
    let by_class = if policy.med_plus_requires_diff_actionable && result.metric_class
        == MetricClass::ContextInformational {
        Severity::Low
    } else {
        Severity::Critical
    };
    by_completeness.weaker(by_tier).weaker(by_c_tier).weaker(by_class)
}

fn admits(tiers: &Vec<EvidenceTier>, tier: EvidenceTier) -> (r: bool)
    ensures
        r == tiers@.contains(tier),
{
    let mut i: usize = 0;
    while i < tiers.len()
        invariant
            i <= tiers.len(),
            forall|k: int| 0 <= k < i ==> tiers@[k] != tier,
        decreases tiers.len() - i,
    {
        if tiers[i] == tier {
            return true;
        }
        i = i + 1;
    }
    false
}

/// The strongest severity policy allows this result to reach.
pub fn ceiling(result: &MeasurementResult, policy: &SeverityPolicy) -> (r: Severity)
    ensures
        r == ceiling_of(*result, *policy),
{
    let mut ceiling = parse_health::severity_ceiling(result.completeness);
    // A tier the operator has not admitted to the MED+ band cannot reach it.
    if !admits(&policy.med_plus_tiers, result.evidence.tier) {
        ceiling = ceiling.capped_at(Severity::Low);
    }
    // The C-tier rule names one tier and a ceiling for it, so it applies even
    // where the band would have let that tier through.
    if result.evidence.tier == EvidenceTier::C {
        ceiling = ceiling.capped_at(policy.max_severity_for_c_tier);
    }
    if policy.med_plus_requires_diff_actionable && result.metric_class
        == MetricClass::ContextInformational {
        ceiling = ceiling.capped_at(Severity::Low);
    }
    ceiling
}

/// A result once policy has been applied to it.
pub open spec fn capped(result: MeasurementResult, policy: SeverityPolicy) -> MeasurementResult {
    MeasurementResult {
        severity: result.severity.weaker(ceiling_of(result, policy)),
        ..result
    }
}

/// Results once policy has been applied to each.
pub open spec fn capped_all(
    results: Seq<MeasurementResult>,
    policy: SeverityPolicy,
) -> Seq<MeasurementResult> {
    Seq::new(results.len(), |i: int| capped(results[i], policy))
}

/// Apply the ceilings to every result, in place.
///
/// Safe to run after sealing: severity is outside what a digest covers.
pub fn apply(results: &mut [MeasurementResult], policy: &Policy)
    ensures
        final(results)@ == capped_all(old(results)@, policy.severity),
{
    let n = results.len();
    let mut i: usize = 0;
    while i < n
        invariant
            i <= n,
            n == results@.len(),
            n == old(results)@.len(),
            forall|k: int|
                0 <= k < i ==> #[trigger] results@[k] == capped(old(results)@[k], policy.severity),
            forall|k: int| i <= k < n ==> #[trigger] results@[k] == old(results)@[k],
        decreases n - i,
    {
        let limit = ceiling(&results[i], &policy.severity);
        let severity = results[i].severity.capped_at(limit);
        results[i].severity = severity;
        i = i + 1;
    }
    proof {
        assert(results@ =~= capped_all(old(results)@, policy.severity));
    }
}

/// The signal a result reports as fired, where it is a fired tamper flag.
pub open spec fn signal_of(result: MeasurementResult) -> Option<TamperSignal> {
    if tamper_signals::detector_flag(result) && result.value == MetricValue::Flag(true) {
        tamper_signals::signal_named(result.metric_id@)
    } else {
        None
    }
}

/// The signal this result reports as fired, if it is a fired tamper flag.
pub fn fired_signal(result: &MeasurementResult) -> (r: Option<TamperSignal>)
    ensures
        r == signal_of(*result),
{
    if !tamper_signals::is_tamper_flag(result) || !matches!(result.value, MetricValue::Flag(true)) {
        return None;
    }
    tamper_signals::signal_for(result.metric_id.as_str())
}

/// Whether a verified justification covers the change.
pub open spec fn change_justified(ctx: ContextModel) -> bool {
    ctx.policy_change matches Some(c) && c.justified()
}

/// Whether a fired signal stops the line, in this change.
pub open spec fn signal_stops(signal: TamperSignal, ctx: ContextModel) -> bool {
    signal != TamperSignal::ThresholdConfigEdit || !change_justified(ctx)
}

/// Whether a fired signal is one that stops the line, in this change.
///
/// Every signal does unconditionally but one: a threshold edit stops the line
/// unless a **verified** justification covers the change.
pub fn signal_stops_the_line(signal: TamperSignal, ctx: &VerdictContext) -> (r: bool)
    ensures
        r == signal_stops(signal, ctx@),
{
    match signal {
        TamperSignal::SuppressionDensity
        | TamperSignal::TestRemoval
        | TamperSignal::CoverageExclusionDrift
        | TamperSignal::AssertionFreeTest
        | TamperSignal::LookupTableBlowup
        | TamperSignal::ParseErrorDelta
        | TamperSignal::BaseFabrication => true,
        TamperSignal::ThresholdConfigEdit => match ctx.policy_change {
            Some(change) => !change.is_justified(),
            None => true,
        },
    }
}

/// Whether a result, on its own, stops the line.
pub open spec fn stops(result: MeasurementResult, ctx: ContextModel) -> bool {
    match signal_of(result) {
        Some(signal) => ctx.policy.severity.block_on_tamper && signal_stops(signal, ctx),
        None => if suite_failed(result) {
            ctx.policy.severity.block_on_test_failure
        } else {
            result.severity.med_plus()
        },
    }
}

/// Whether this result, on its own, stops the line.
///
/// Three disjoint routes, and only the last consults the severity: a fired
/// tamper flag, a fired test-failure flag, and a MED+ finding.
pub fn stops_the_line(result: &MeasurementResult, ctx: &VerdictContext) -> (r: bool)
    ensures
        r == stops(*result, ctx@),
{
    if let Some(signal) = fired_signal(result) {
        return ctx.policy.severity.block_on_tamper && signal_stops_the_line(signal, ctx);
    }
    if fired_suite_failure(result) {
        return ctx.policy.severity.block_on_test_failure;
    }
    result.severity.is_med_plus()
}

/// Whether a result advances the iteration counter.
pub open spec fn counts(result: MeasurementResult, ctx: ContextModel) -> bool {
    let finding = if signal_of(result) is Some {
        stops(result, ctx)
    } else {
        result.severity != Severity::Info
    };
    let reachable = result.metric_class == MetricClass::DiffActionable
        || ctx.policy.loop_policy.count_context_informational;
    finding && reachable
}

/// Whether this result advances the per-branch iteration counter.
///
/// An agent must not burn its loop budget on findings it cannot act on inside
/// its own change. A fired flag counts when it stops the line, and not merely
/// when it fired.
pub fn counts_toward_iteration(result: &MeasurementResult, ctx: &VerdictContext) -> (r: bool)
    ensures
        r == counts(*result, ctx@),
{
    if fired_signal(result).is_some() {
        if !stops_the_line(result, ctx) {
            return false;
        }
    } else if result.severity == Severity::Info {
        return false;
    }
    match result.metric_class {
        MetricClass::DiffActionable => true,
        MetricClass::ContextInformational => ctx.policy.loop_policy.count_context_informational,
    }
}

// --- laws -----------------------------------------------------------------

/// Applying policy never raises a severity, changes nothing else, and done twice
/// is done once.
pub proof fn lemma_policy_only_caps(result: MeasurementResult, policy: SeverityPolicy)
    ensures
        capped(result, policy).severity.rank() <= result.severity.rank(),
        capped(result, policy).severity.rank() <= ceiling_of(result, policy).rank(),
        capped(capped(result, policy), policy) == capped(result, policy),
{
    assert(ceiling_of(capped(result, policy), policy) == ceiling_of(result, policy));
}

/// Applying policy leaves what a digest covers untouched.
pub proof fn lemma_policy_leaves_digests(
    result: MeasurementResult,
    policy: SeverityPolicy,
    ctx: CompareContext,
)
    ensures
        capped(result, policy).digest == result.digest,
        capped(result, policy).digest_facts(ctx) == result.digest_facts(ctx),
        capped(result, policy).digest_against(ctx) == result.digest_against(ctx),
{
    assert(capped(result, policy).digest_facts(ctx)->Members_0 =~= result.digest_facts(
        ctx,
    )->Members_0);
}

/// Whether a fired detector flag stops the line depends on neither its severity,
/// nor how complete it is, nor the evidence behind it.
pub proof fn lemma_a_firing_is_a_firing(
    result: MeasurementResult,
    other: MeasurementResult,
    ctx: ContextModel,
)
    requires
        signal_of(result) is Some,
        other == (MeasurementResult {
            severity: other.severity,
            completeness: other.completeness,
            evidence: other.evidence,
            ..result
        }),
    ensures
        signal_of(other) == signal_of(result),
        stops(other, ctx) == stops(result, ctx),
{
}

/// Under a policy that blocks on tampering, every fired signal stops the line
/// but a threshold edit with a verified justification.
pub proof fn lemma_firing_stops_the_line(result: MeasurementResult, ctx: ContextModel)
    requires
        ctx.policy.severity.block_on_tamper,
        signal_of(result) is Some,
    ensures
        stops(result, ctx) <==> !(signal_of(result) == Some(TamperSignal::ThresholdConfigEdit)
            && change_justified(ctx)),
{
}

/// Weak evidence never reaches MED+: an unadmitted tier, and a context metric
/// where policy asks for diff-actionable ones, are capped at low.
pub proof fn lemma_weak_evidence_only_advises(result: MeasurementResult, policy: SeverityPolicy)
    requires
        !policy.med_plus_tiers@.contains(result.evidence.tier) || (
        policy.med_plus_requires_diff_actionable && result.metric_class
            == MetricClass::ContextInformational),
    ensures
        !capped(result, policy).severity.med_plus(),
{
}

/// A result that is not complete is capped below MED+ as well.
pub proof fn lemma_partial_results_only_advise(result: MeasurementResult, policy: SeverityPolicy)
    requires
        result.completeness != Completeness::Complete,
    ensures
        !capped(result, policy).severity.med_plus(),
{
}

/// Whether policy has a reason to keep a result out of the band that may block:
/// it is not complete, its tier is not let in, or it is about context where only
/// what the change can fix is let in.
pub open spec fn kept_low(result: MeasurementResult, policy: SeverityPolicy) -> bool {
    ||| result.completeness != Completeness::Complete
    ||| !policy.med_plus_tiers@.contains(result.evidence.tier)
    ||| (policy.med_plus_requires_diff_actionable && result.metric_class
        != MetricClass::DiffActionable)
}

/// What applying policy does to a result. Nothing but the severity moves. A
/// result that policy has no reason to keep low, and whose tier is not C, keeps
/// its severity. One that is kept low ends at low where it was higher. A C-tier
/// result ends at no more than the C-tier setting. A severity moves to nothing
/// but one of those limits, and only down.
pub proof fn lemma_what_policy_does_to_a_severity(
    results: Seq<MeasurementResult>,
    policy: SeverityPolicy,
    i: int,
)
    requires
        0 <= i < results.len(),
    ensures
        capped_all(results, policy).len() == results.len(),
        ({
            let was = results[i];
            let now = capped_all(results, policy)[i];
            let c = was.evidence.tier == EvidenceTier::C;
            &&& now == (MeasurementResult { severity: now.severity, ..was })
            &&& !kept_low(was, policy) && !c ==> now.severity == was.severity
            &&& kept_low(was, policy) ==> now.severity == Severity::Info || now.severity
                == Severity::Low
            &&& kept_low(was, policy) && !c && was.severity != Severity::Info ==> now.severity
                == Severity::Low
            &&& c ==> now.severity.rank() <= policy.max_severity_for_c_tier.rank()
            &&& c && now.severity != was.severity && !kept_low(was, policy) ==> now.severity
                == policy.max_severity_for_c_tier
            &&& now.severity != was.severity ==> now.severity == Severity::Low || now.severity
                == policy.max_severity_for_c_tier
            &&& now.severity.rank() <= was.severity.rank()
        }),
{
}

/// A C-tier result that policy has no other reason to keep low, and that is
/// within the C-tier setting, keeps its severity; kept low, it ends at the lower
/// of the two limits where it was above both.
pub proof fn lemma_what_the_c_tier_setting_does(
    results: Seq<MeasurementResult>,
    policy: SeverityPolicy,
    i: int,
)
    requires
        0 <= i < results.len(),
        results[i].evidence.tier == EvidenceTier::C,
    ensures
        ({
            let was = results[i].severity;
            let now = capped_all(results, policy)[i].severity;
            let most = policy.max_severity_for_c_tier;
            &&& !kept_low(results[i], policy) && was.rank() <= most.rank() ==> now == was
            &&& was.rank() > most.rank() && most.rank() <= Severity::Low.rank() ==> now == most
            &&& kept_low(results[i], policy) && was.rank() > Severity::Low.rank() && most.rank()
                > Severity::Low.rank() ==> now == Severity::Low
        }),
{
}

/// The C-tier setting touches no result of another tier.
pub proof fn lemma_the_c_tier_setting_touches_c_only(
    results: Seq<MeasurementResult>,
    policy: SeverityPolicy,
    other: Severity,
    i: int,
)
    requires
        0 <= i < results.len(),
        results[i].evidence.tier != EvidenceTier::C,
    ensures
        capped_all(results, policy)[i] == capped_all(
            results,
            SeverityPolicy { max_severity_for_c_tier: other, ..policy },
        )[i],
{
}

} // verus!
