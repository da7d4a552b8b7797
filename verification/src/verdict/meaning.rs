//! What a verdict and its reasons mean, said of the results and the context
//! themselves.
use vstd::prelude::*;

use super::policy_change::{Direction, PolicyChange};
use super::severity;
use super::ContextModel;
use crate::payload::tamper_signals;
use crate::policy::Policy;
use crate::schema::enums::{
    Completeness, EngineFamily, MetricClass, Severity, TamperSignal, Verdict,
};
use crate::schema::payload::{IterationState, MeasurementResult, MetricValue, ReasonModel};
use crate::sorting;
use crate::strmap;
use crate::text;
use crate::verdict;

verus! {

// --- what a result is -----------------------------------------------------

/// Whether a result says that a detector fired on a signal: the tamper family's
/// metric of that signal's name, raised.
pub open spec fn fired(result: MeasurementResult, signal: TamperSignal) -> bool {
    &&& result.family == EngineFamily::Tamper
    &&& result.metric_id@ == "tamper."@ + signal.wire_name()
    &&& result.value == MetricValue::Flag(true)
}

/// Whether a result says that a detector fired at all.
pub open spec fn firing(result: MeasurementResult) -> bool {
    exists|signal: TamperSignal| #[trigger] fired(result, signal)
}

/// Whether a result says that the user's tests failed.
pub open spec fn suite_down(result: MeasurementResult) -> bool {
    &&& result.family == EngineFamily::Tests
    &&& result.metric_id@ == "tests.suite-failure"@
    &&& result.value == MetricValue::Flag(true)
}

/// Whether somebody in a position to check it vouched for the policy edit.
pub open spec fn vouched(change: Option<PolicyChange>) -> bool {
    change matches Some(c) && c.justification matches Some(j) && j is Verified
}

/// Whether the policy edit lowers the bar somewhere and nobody vouched for it.
pub open spec fn lowers_the_bar(change: Option<PolicyChange>) -> bool {
    change matches Some(c) && !vouched(change) && exists|i: int|
        0 <= i < c.deltas@.len() && (#[trigger] c.deltas@[i]).direction == Direction::Loosening
}

/// Whether a result by itself is enough to stop the line.
pub open spec fn enough_to_stop(
    result: MeasurementResult,
    policy: Policy,
    change: Option<PolicyChange>,
) -> bool {
    if firing(result) {
        policy.severity.block_on_tamper && !(fired(result, TamperSignal::ThresholdConfigEdit)
            && vouched(change))
    } else if suite_down(result) {
        policy.severity.block_on_test_failure
    } else {
        result.severity == Severity::Medium || result.severity == Severity::High
            || result.severity == Severity::Critical
    }
}

/// Whether a result is something the agent is counted on to fix.
pub open spec fn to_act_on(
    result: MeasurementResult,
    policy: Policy,
    change: Option<PolicyChange>,
) -> bool {
    &&& if firing(result) {
        enough_to_stop(result, policy, change)
    } else {
        result.severity != Severity::Info
    }
    &&& result.metric_class == MetricClass::DiffActionable
        || policy.loop_policy.count_context_informational
}

/// A metric names no signal but the one it is the flag of.
pub proof fn lemma_named_by_its_own(id: Seq<char>, i: int)
    requires
        0 <= i,
    ensures
        tamper_signals::signal_named_from(id, i) matches Some(signal) ==> id
            == tamper_signals::flag_metric(signal),
    decreases 8 - i,
{
    if i < 8 {
        lemma_named_by_its_own(id, i + 1);
    }
}

proof fn lemma_not_a_magnitude(signal: TamperSignal)
    ensures
        !text::ends_in(tamper_signals::flag_metric(signal), ".magnitude"@),
{
    reveal_strlit("tamper.");
    reveal_strlit(".magnitude");
    reveal_strlit("suppression-density");
    reveal_strlit("test-removal");
    reveal_strlit("coverage-exclusion-drift");
    reveal_strlit("assertion-free-test");
    reveal_strlit("threshold-config-edit");
    reveal_strlit("lookup-table-blowup");
    reveal_strlit("parse-error-delta");
    reveal_strlit("base-fabrication");
    let id = tamper_signals::flag_metric(signal);
    assert(id.last() == signal.wire_name().last());
    assert(".magnitude"@.last() == 'e');
    assert(id.last() != 'e');
    if text::ends_in(id, ".magnitude"@) {
        assert(id.last() == ".magnitude"@.last());
    }
}

/// A result names the signal it is read as, and no other.
pub proof fn lemma_signals_are_read_off_the_name(result: MeasurementResult, signal: TamperSignal)
    ensures
        severity::signal_of(result) == Some(signal) <==> fired(result, signal),
        severity::signal_of(result) is Some <==> firing(result),
{
    lemma_named_by_its_own(result.metric_id@, 0);
    if fired(result, signal) {
        tamper_signals::lemma_flags_name_their_signals(signal);
        lemma_not_a_magnitude(signal);
    }
    if firing(result) {
        let s = choose|s: TamperSignal| #[trigger] fired(result, s);
        tamper_signals::lemma_flags_name_their_signals(s);
        lemma_not_a_magnitude(s);
    }
    if severity::signal_of(result) is Some {
        assert(fired(result, severity::signal_of(result)->Some_0));
    }
}

/// What stops the line, and what counts against the loop's budget.
pub proof fn lemma_what_stops_and_what_counts(result: MeasurementResult, ctx: ContextModel)
    ensures
        severity::stops(result, ctx) <==> enough_to_stop(result, ctx.policy, ctx.policy_change),
        severity::counts(result, ctx) <==> to_act_on(result, ctx.policy, ctx.policy_change),
{
    lemma_signals_are_read_off_the_name(result, TamperSignal::ThresholdConfigEdit);
    if severity::signal_of(result) is Some {
        lemma_signals_are_read_off_the_name(result, severity::signal_of(result)->Some_0);
    }
}

// --- the word -------------------------------------------------------------

/// Whether something in a run is enough to stop the line.
pub open spec fn line_stops(results: Seq<MeasurementResult>, ctx: ContextModel) -> bool {
    ||| lowers_the_bar(ctx.policy_change)
    ||| exists|i: int|
        0 <= i < results.len() && enough_to_stop(
            #[trigger] results[i],
            ctx.policy,
            ctx.policy_change,
        )
}

/// Whether a run leaves the agent something to fix.
pub open spec fn work_left(results: Seq<MeasurementResult>, ctx: ContextModel) -> bool {
    ||| lowers_the_bar(ctx.policy_change)
    ||| exists|i: int|
        0 <= i < results.len() && to_act_on(#[trigger] results[i], ctx.policy, ctx.policy_change)
}

/// Whether a run has anything above info to report.
pub open spec fn worth_a_word(results: Seq<MeasurementResult>, ctx: ContextModel) -> bool {
    ||| exists|i: int| 0 <= i < results.len() && (#[trigger] results[i]).severity != Severity::Info
    ||| (ctx.policy_change matches Some(c) && c.deltas@.len() > 0)
    ||| ctx.engine_failures.len() > 0
    ||| ctx.unreadable_paths.len() > 0
}

/// What stops a line, and what leaves work to do.
pub proof fn lemma_stops_and_counts(results: Seq<MeasurementResult>, ctx: ContextModel)
    ensures
        verdict::blocks(results, ctx) <==> line_stops(results, ctx),
        verdict::countable(results, ctx) <==> work_left(results, ctx),
{
    assert forall|r: MeasurementResult| #[trigger] severity::stops(r, ctx) == enough_to_stop(
        r,
        ctx.policy,
        ctx.policy_change,
    ) by {
        lemma_what_stops_and_what_counts(r, ctx);
    }
    assert forall|r: MeasurementResult| #[trigger] severity::counts(r, ctx) == to_act_on(
        r,
        ctx.policy,
        ctx.policy_change,
    ) by {
        lemma_what_stops_and_what_counts(r, ctx);
    }
    if let Some(c) = ctx.policy_change {
        assert(c.stops() == lowers_the_bar(ctx.policy_change));
    }
    if verdict::blocks(results, ctx) && !lowers_the_bar(ctx.policy_change) {
        let i = choose|i: int| 0 <= i < results.len() && severity::stops(#[trigger] results[i], ctx);
        assert(enough_to_stop(results[i], ctx.policy, ctx.policy_change));
    }
    if line_stops(results, ctx) && !lowers_the_bar(ctx.policy_change) {
        let i = choose|i: int|
            0 <= i < results.len() && enough_to_stop(
                #[trigger] results[i],
                ctx.policy,
                ctx.policy_change,
            );
        assert(severity::stops(results[i], ctx));
    }
    if verdict::countable(results, ctx) && !lowers_the_bar(ctx.policy_change) {
        let i = choose|i: int| 0 <= i < results.len() && severity::counts(#[trigger] results[i], ctx);
        assert(to_act_on(results[i], ctx.policy, ctx.policy_change));
    }
    if work_left(results, ctx) && !lowers_the_bar(ctx.policy_change) {
        let i = choose|i: int|
            0 <= i < results.len() && to_act_on(
                #[trigger] results[i],
                ctx.policy,
                ctx.policy_change,
            );
        assert(severity::counts(results[i], ctx));
    }
}

// --- the parts of a report ------------------------------------------------

/// Whether some reason is like this.
pub open spec fn any_like(reasons: Seq<ReasonModel>, like: spec_fn(ReasonModel) -> bool) -> bool {
    exists|i: int| 0 <= i < reasons.len() && like(#[trigger] reasons[i])
}

proof fn lemma_has_concat(
    a: Seq<ReasonModel>,
    b: Seq<ReasonModel>,
    like: spec_fn(ReasonModel) -> bool,
)
    ensures
        any_like(a + b, like) <==> any_like(a, like) || any_like(b, like),
{
    if any_like(a, like) {
        let i = choose|i: int| 0 <= i < a.len() && like(#[trigger] a[i]);
        assert((a + b)[i] == a[i]);
    }
    if any_like(b, like) {
        let i = choose|i: int| 0 <= i < b.len() && like(#[trigger] b[i]);
        assert((a + b)[a.len() + i] == b[i]);
    }
    if any_like(a + b, like) {
        let i = choose|i: int| 0 <= i < (a + b).len() && like(#[trigger] (a + b)[i]);
        if i < a.len() {
            assert(like(a[i]));
        } else {
            assert(like(b[i - a.len()]));
        }
    }
}

/// The reasons the policy edit of a context gives.
pub open spec fn edits(ctx: ContextModel) -> Seq<ReasonModel> {
    match ctx.policy_change {
        Some(change) => verdict::edit_reasons(change),
        None => Seq::empty(),
    }
}

/// A report has a reason like this exactly where one of its parts has.
pub proof fn lemma_parts(
    results: Seq<MeasurementResult>,
    ctx: ContextModel,
    iteration: IterationState,
    like: spec_fn(ReasonModel) -> bool,
)
    ensures
        any_like(verdict::all_reasons(results, ctx, iteration), like) <==> (any_like(
            verdict::flag_reasons(results, ctx),
            like,
        ) || any_like(verdict::suite_reasons(results, ctx, results.len() as int), like) || any_like(
            verdict::finding_reasons(results, ctx),
            like,
        ) || any_like(edits(ctx), like) || any_like(verdict::failure_reasons(ctx), like) || any_like(
            verdict::unread_reasons(ctx),
            like,
        ) || any_like(verdict::notice_reasons(results, ctx), like) || any_like(
            verdict::cap_reasons(results, ctx, iteration),
            like,
        )),
{
    let a = verdict::flag_reasons(results, ctx);
    let b = verdict::suite_reasons(results, ctx, results.len() as int);
    let c = verdict::finding_reasons(results, ctx);
    let d = edits(ctx);
    let e = verdict::failure_reasons(ctx);
    let f = verdict::unread_reasons(ctx);
    let g = verdict::notice_reasons(results, ctx);
    let h = verdict::cap_reasons(results, ctx, iteration);
    lemma_has_concat(a, b, like);
    lemma_has_concat(a + b, c, like);
    lemma_has_concat(a + b + c, d, like);
    lemma_has_concat(a + b + c + d, e, like);
    lemma_has_concat(a + b + c + d + e, f, like);
    lemma_has_concat(a + b + c + d + e + f, g, like);
    lemma_has_concat(a + b + c + d + e + f + g, h, like);
}

/// The codes are told apart by their length and first letter.
pub proof fn lemma_codes()
    ensures
        "tamper-signal"@.len() == 13 && "tamper-signal"@[0] == 't',
        "test-failure"@.len() == 12,
        "test-failure-advisory"@.len() == 21 && "test-failure-advisory"@[0] == 't',
        "tamper-signal-advisory"@.len() == 22 && "tamper-signal-advisory"@[0] == 't',
        "severity-med-plus"@.len() == 17,
        "finding-advisory"@.len() == 16,
        "policy-change"@.len() == 13 && "policy-change"@[0] == 'p',
        "policy-change-loosening"@.len() == 23,
        "iteration-cap"@.len() == 13 && "iteration-cap"@[0] == 'i',
        "engine-unavailable"@.len() == 18,
        "evidence-stale"@.len() == 14,
        "iteration-state-reset"@.len() == 21 && "iteration-state-reset"@[0] == 'i',
        "measurement-incomplete"@.len() == 22 && "measurement-incomplete"@[0] == 'm',
        "change-not-read"@.len() == 15,
        "evidence-registry-skew"@.len() == 22 && "evidence-registry-skew"@[0] == 'e',
{
    reveal_strlit("tamper-signal");
    reveal_strlit("test-failure");
    reveal_strlit("test-failure-advisory");
    reveal_strlit("tamper-signal-advisory");
    reveal_strlit("severity-med-plus");
    reveal_strlit("finding-advisory");
    reveal_strlit("policy-change");
    reveal_strlit("policy-change-loosening");
    reveal_strlit("iteration-cap");
    reveal_strlit("engine-unavailable");
    reveal_strlit("evidence-stale");
    reveal_strlit("iteration-state-reset");
    reveal_strlit("measurement-incomplete");
    reveal_strlit("change-not-read");
    reveal_strlit("evidence-registry-skew");
}

// --- reasons about results ------------------------------------------------

proof fn lemma_flag_is_reported(results: Seq<MeasurementResult>, ctx: ContextModel, k: int)
    requires
        0 <= k < results.len(),
        severity::signal_of(results[k]) is Some,
    ensures
        verdict::flag_reasons(results, ctx).contains(verdict::flag_reason(results[k], ctx)),
{
    broadcast use vstd::seq_lib::group_to_multiset_ensures;

    let flags = verdict::fired_flags(results, results.len() as int);
    lemma_flag_among(results, results.len() as int, k);
    sorting::lemma_sorted_keeps_items(flags, verdict::flag_order());
    let ordered = sorting::sorted(flags, verdict::flag_order());
    assert(flags.to_multiset().count(results[k]) > 0);
    assert(ordered.to_multiset().count(results[k]) > 0);
    assert(ordered.contains(results[k]));
    let p = choose|p: int| 0 <= p < ordered.len() && ordered[p] == results[k];
    assert(verdict::flag_reasons(results, ctx)[p] == verdict::flag_reason(results[k], ctx));
}

proof fn lemma_flag_among(results: Seq<MeasurementResult>, n: int, k: int)
    requires
        0 <= k < n <= results.len(),
        severity::signal_of(results[k]) is Some,
    ensures
        verdict::fired_flags(results, n).contains(results[k]),
    decreases n,
{
    let before = verdict::fired_flags(results, n - 1);
    let all = verdict::fired_flags(results, n);
    if k == n - 1 {
        assert(all[all.len() - 1] == results[k]);
    } else {
        lemma_flag_among(results, n - 1, k);
        let p = choose|p: int| 0 <= p < before.len() && before[p] == results[k];
        assert(all[p] == results[k]);
    }
}

proof fn lemma_flag_from(results: Seq<MeasurementResult>, n: int, p: int) -> (k: int)
    requires
        0 <= n <= results.len(),
        0 <= p < verdict::fired_flags(results, n).len(),
    ensures
        0 <= k < n,
        results[k] == verdict::fired_flags(results, n)[p],
        severity::signal_of(results[k]) is Some,
    decreases n,
{
    if n > 0 {
        let before = verdict::fired_flags(results, n - 1);
        if p < before.len() {
            assert(verdict::fired_flags(results, n)[p] == before[p]);
            lemma_flag_from(results, n - 1, p)
        } else {
            assert(verdict::fired_flags(results, n)[p] == results[n - 1]);
            n - 1
        }
    } else {
        0
    }
}

proof fn lemma_flag_comes_from(results: Seq<MeasurementResult>, ctx: ContextModel, j: int) -> (k:
    int)
    requires
        0 <= j < verdict::flag_reasons(results, ctx).len(),
    ensures
        0 <= k < results.len(),
        severity::signal_of(results[k]) is Some,
        verdict::flag_reasons(results, ctx)[j] == verdict::flag_reason(results[k], ctx),
{
    let flags = verdict::fired_flags(results, results.len() as int);
    sorting::lemma_sorted_item(flags, verdict::flag_order(), j);
    let ordered = sorting::sorted(flags, verdict::flag_order());
    let p = choose|p: int| 0 <= p < flags.len() && flags[p] == ordered[j];
    lemma_flag_from(results, results.len() as int, p)
}

proof fn lemma_suite_is_reported(
    results: Seq<MeasurementResult>,
    ctx: ContextModel,
    n: int,
    k: int,
)
    requires
        0 <= k < n <= results.len(),
        severity::suite_failed(results[k]),
    ensures
        verdict::suite_reasons(results, ctx, n).contains(
            verdict::suite_reason(results[k], verdict::suite_outcome_from(results, 0), ctx),
        ),
    decreases n,
{
    let all = verdict::suite_reasons(results, ctx, n);
    if k == n - 1 {
        assert(all[all.len() - 1] == verdict::suite_reason(
            results[k],
            verdict::suite_outcome_from(results, 0),
            ctx,
        ));
    } else {
        lemma_suite_is_reported(results, ctx, n - 1, k);
        let before = verdict::suite_reasons(results, ctx, n - 1);
        let said = verdict::suite_reason(
            results[k],
            verdict::suite_outcome_from(results, 0),
            ctx,
        );
        let p = choose|p: int| 0 <= p < before.len() && before[p] == said;
        assert(all[p] == said);
    }
}

/// Every reason about a failed suite comes from a result.
pub proof fn lemma_suite_comes_from(
    results: Seq<MeasurementResult>,
    ctx: ContextModel,
    n: int,
    j: int,
) -> (k: int)
    requires
        0 <= n <= results.len(),
        0 <= j < verdict::suite_reasons(results, ctx, n).len(),
    ensures
        0 <= k < n,
        severity::suite_failed(results[k]),
        verdict::suite_reasons(results, ctx, n)[j] == verdict::suite_reason(
            results[k],
            verdict::suite_outcome_from(results, 0),
            ctx,
        ),
    decreases n,
{
    if n > 0 {
        let before = verdict::suite_reasons(results, ctx, n - 1);
        if j < before.len() {
            assert(verdict::suite_reasons(results, ctx, n)[j] == before[j]);
            lemma_suite_comes_from(results, ctx, n - 1, j)
        } else {
            n - 1
        }
    } else {
        0
    }
}

/// The ids of what is kept are the ids of results that are kept.
proof fn lemma_ids(
    results: Seq<MeasurementResult>,
    keep: spec_fn(MeasurementResult) -> bool,
    n: int,
    id: Seq<char>,
)
    requires
        0 <= n <= results.len(),
    ensures
        strmap::keys_ascend(verdict::ids_where(results, keep, n)),
        strmap::has_key(verdict::ids_where(results, keep, n), id) <==> exists|k: int|
            0 <= k < n && keep(#[trigger] results[k]) && results[k].metric_id@ == id,
    decreases n,
{
    let none = Seq::<(Seq<char>, ())>::empty();
    strmap::lemma_lookup_iff(none, id);
    if n > 0 {
        lemma_ids(results, keep, n - 1, id);
        let before = verdict::ids_where(results, keep, n - 1);
        strmap::lemma_inserted(before, results[n - 1].metric_id@, ());
        if strmap::has_key(before, id) {
            let k = choose|k: int|
                0 <= k < n - 1 && keep(#[trigger] results[k]) && results[k].metric_id@ == id;
            assert(keep(results[k]));
        }
        if exists|k: int| 0 <= k < n && keep(#[trigger] results[k]) && results[k].metric_id@ == id {
            let k = choose|k: int|
                0 <= k < n && keep(#[trigger] results[k]) && results[k].metric_id@ == id;
            if k < n - 1 {
                assert(keep(results[k]));
            }
        }
    }
}

proof fn lemma_listed(rows: Seq<(Seq<char>, ())>, id: Seq<char>)
    requires
        strmap::keys_ascend(rows),
    ensures
        verdict::key_list(rows).contains(id) <==> strmap::has_key(rows, id),
        verdict::key_list(rows).len() == rows.len(),
{
    strmap::lemma_lookup_iff(rows, id);
    if strmap::has_key(rows, id) {
        let i = choose|i: int| 0 <= i < rows.len() && (#[trigger] rows[i]).0 == id;
        assert(verdict::key_list(rows)[i] == id);
    }
    if verdict::key_list(rows).contains(id) {
        let i = choose|i: int| 0 <= i < rows.len() && verdict::key_list(rows)[i] == id;
        assert(rows[i].0 == id);
    }
}

/// The strongest among the named is the severity of one of them, and no weaker
/// than any.
proof fn lemma_strongest(results: Seq<MeasurementResult>, ids: Seq<Seq<char>>, n: int, k: int)
    requires
        0 <= k < n <= results.len(),
        ids.contains(results[k].metric_id@),
    ensures
        verdict::strongest_named(results, ids, n).rank() >= results[k].severity.rank(),
        exists|m: int|
            0 <= m < n && ids.contains((#[trigger] results[m]).metric_id@) && results[m].severity
                == verdict::strongest_named(results, ids, n),
    decreases n,
{
    let now = verdict::strongest_named(results, ids, n);
    let last = results[n - 1];
    if k < n - 1 {
        lemma_strongest(results, ids, n - 1, k);
        let m = choose|m: int|
            0 <= m < n - 1 && ids.contains((#[trigger] results[m]).metric_id@)
                && results[m].severity == verdict::strongest_named(results, ids, n - 1);
        assert(ids.contains(results[m].metric_id@));
        if now != results[m].severity {
            assert(ids.contains(last.metric_id@) && last.severity == now);
        }
    } else {
        if exists|j: int| 0 <= j < n - 1 && ids.contains((#[trigger] results[j]).metric_id@) {
            let j = choose|j: int| 0 <= j < n - 1 && ids.contains((#[trigger] results[j]).metric_id@);
            lemma_strongest(results, ids, n - 1, j);
            let m = choose|m: int|
                0 <= m < n - 1 && ids.contains((#[trigger] results[m]).metric_id@)
                    && results[m].severity == verdict::strongest_named(results, ids, n - 1);
            assert(ids.contains(results[m].metric_id@));
        } else {
            lemma_none_named(results, ids, n - 1);
            assert(last.severity == now);
        }
    }
}

proof fn lemma_none_named(results: Seq<MeasurementResult>, ids: Seq<Seq<char>>, n: int)
    requires
        0 <= n <= results.len(),
        forall|j: int| 0 <= j < n ==> !ids.contains((#[trigger] results[j]).metric_id@),
    ensures
        verdict::strongest_named(results, ids, n) == Severity::Info,
    decreases n,
{
    if n > 0 {
        lemma_none_named(results, ids, n - 1);
    }
}

/// Whether a reason says of one result that it is of this kind, this serious.
pub open spec fn about_one(
    x: ReasonModel,
    code: Seq<char>,
    severity: Severity,
    id: Seq<char>,
) -> bool {
    x.code == code && x.severity == severity && x.metric_ids == seq![id]
}

/// Whether a reason names a result among others and is no less serious.
pub open spec fn about_many(
    x: ReasonModel,
    code: Seq<char>,
    severity: Severity,
    id: Seq<char>,
) -> bool {
    x.code == code && x.metric_ids.contains(id) && x.severity.rank() >= severity.rank()
}

proof fn lemma_finding_is_reported(results: Seq<MeasurementResult>, ctx: ContextModel, k: int)
    requires
        0 <= k < results.len(),
        !verdict::has_own_reason(results[k]),
    ensures
        severity::stops(results[k], ctx) ==> any_like(
            verdict::finding_reasons(results, ctx),
            |x: ReasonModel|
                about_many(
                    x,
                    "severity-med-plus"@,
                    results[k].severity,
                    results[k].metric_id@,
                ),
        ),
        !severity::stops(results[k], ctx) && results[k].severity != Severity::Info ==> any_like(
            verdict::finding_reasons(results, ctx),
            |x: ReasonModel|
                about_many(x, "finding-advisory"@, results[k].severity, results[k].metric_id@),
        ),
{
    let all = verdict::finding_reasons(results, ctx);
    let n = results.len() as int;
    let id = results[k].metric_id@;
    let b = verdict::ids_where(results, verdict::blocks_plainly(ctx), n);
    let a = verdict::ids_where(results, verdict::advises_plainly(ctx), n);
    lemma_ids(results, verdict::blocks_plainly(ctx), n, id);
    lemma_ids(results, verdict::advises_plainly(ctx), n, id);
    lemma_listed(b, id);
    lemma_listed(a, id);
    if severity::stops(results[k], ctx) {
        assert(verdict::blocks_plainly(ctx)(results[k]));
        lemma_strongest(results, verdict::blocking_ids(results, ctx), n, k);
        assert(about_many(all[0], "severity-med-plus"@, results[k].severity, id));
    } else if results[k].severity != Severity::Info {
        assert(verdict::advises_plainly(ctx)(results[k]));
        lemma_strongest(results, verdict::advisory_ids(results, ctx), n, k);
        let last = all[all.len() - 1];
        assert(about_many(last, "finding-advisory"@, results[k].severity, id));
    }
}

/// Every finding is reported: a fired detector and a failed suite each by a reason
/// of its own, any other result above info among the ids of the reason for its
/// kind, and none of them leaves the verdict at pass, whatever its completeness.
pub proof fn lemma_every_finding_is_reported(
    results: Seq<MeasurementResult>,
    ctx: ContextModel,
    iteration: IterationState,
    k: int,
)
    requires
        0 <= k < results.len(),
    ensures
        ({
            let all = verdict::all_reasons(results, ctx, iteration);
            let r = results[k];
            let id = r.metric_id@;
            let enough = enough_to_stop(r, ctx.policy, ctx.policy_change);
            &&& firing(r) && enough ==> any_like(
                all,
                |x: ReasonModel| about_one(x, "tamper-signal"@, Severity::Critical, id),
            )
            &&& firing(r) && !enough ==> any_like(
                all,
                |x: ReasonModel| about_one(x, "tamper-signal-advisory"@, r.severity, id),
            )
            &&& suite_down(r) && enough ==> any_like(
                all,
                |x: ReasonModel| about_one(x, "test-failure"@, Severity::Critical, id),
            )
            &&& suite_down(r) && !enough ==> any_like(
                all,
                |x: ReasonModel| about_one(x, "test-failure-advisory"@, r.severity, id),
            )
            &&& !firing(r) && !suite_down(r) && enough ==> any_like(
                all,
                |x: ReasonModel| about_many(x, "severity-med-plus"@, r.severity, id),
            )
            &&& !firing(r) && !suite_down(r) && r.severity == Severity::Low ==> any_like(
                all,
                |x: ReasonModel| about_many(x, "finding-advisory"@, r.severity, id),
            )
            &&& r.severity != Severity::Info ==> verdict::verdict_of(results, ctx, iteration)
                != Verdict::Pass
        }),
{
    let r = results[k];
    let id = r.metric_id@;
    let n = results.len() as int;
    let all = verdict::all_reasons(results, ctx, iteration);
    let enough = enough_to_stop(r, ctx.policy, ctx.policy_change);
    lemma_what_stops_and_what_counts(r, ctx);
    lemma_signals_are_read_off_the_name(r, TamperSignal::ThresholdConfigEdit);
    lemma_stops_and_counts(results, ctx);
    let like = if firing(r) {
        lemma_flag_is_reported(results, ctx, k);
        let said = verdict::flag_reason(r, ctx);
        let flags = verdict::flag_reasons(results, ctx);
        let p = choose|p: int| 0 <= p < flags.len() && flags[p] == said;
        if enough {
            let like = |x: ReasonModel| about_one(x, "tamper-signal"@, Severity::Critical, id);
            assert(like(flags[p]));
            like
        } else {
            let like = |x: ReasonModel|
                about_one(x, "tamper-signal-advisory"@, r.severity, id);
            assert(like(flags[p]));
            like
        }
    } else if suite_down(r) {
        lemma_suite_is_reported(results, ctx, n, k);
        let said = verdict::suite_reason(r, verdict::suite_outcome_from(results, 0), ctx);
        let suites = verdict::suite_reasons(results, ctx, n);
        let p = choose|p: int| 0 <= p < suites.len() && suites[p] == said;
        if enough {
            let like = |x: ReasonModel| about_one(x, "test-failure"@, Severity::Critical, id);
            assert(like(suites[p]));
            like
        } else {
            let like = |x: ReasonModel| about_one(x, "test-failure-advisory"@, r.severity, id);
            assert(like(suites[p]));
            like
        }
    } else {
        lemma_finding_is_reported(results, ctx, k);
        if enough {
            |x: ReasonModel| about_many(x, "severity-med-plus"@, r.severity, id)
        } else {
            |x: ReasonModel| about_many(x, "finding-advisory"@, r.severity, id)
        }
    };
    lemma_parts(results, ctx, iteration, like);
    if r.severity != Severity::Info {
        let i = choose|i: int| 0 <= i < all.len() && like(#[trigger] all[i]);
        assert(all[i].severity.rank() > Severity::Info.rank());
        assert(verdict::worth_saying(all));
    }
}

/// Whether the metric ids of a reason are those of results of a kind, and its
/// severity that of a result it names.
pub open spec fn drawn_from(
    x: ReasonModel,
    results: Seq<MeasurementResult>,
    kind: spec_fn(MeasurementResult) -> bool,
) -> bool {
    &&& x.metric_ids.len() > 0
    &&& forall|id: Seq<char>| #[trigger]
        x.metric_ids.contains(id) ==> exists|k: int|
            0 <= k < results.len() && kind(#[trigger] results[k]) && results[k].metric_id@ == id
    &&& exists|k: int|
        0 <= k < results.len() && x.metric_ids.contains((#[trigger] results[k]).metric_id@)
            && results[k].severity == x.severity
}

proof fn lemma_ids_drawn(
    results: Seq<MeasurementResult>,
    keep: spec_fn(MeasurementResult) -> bool,
    kind: spec_fn(MeasurementResult) -> bool,
    x: ReasonModel,
)
    requires
        forall|k: int|
            0 <= k < results.len() && keep(#[trigger] results[k]) ==> kind(results[k]),
        x.metric_ids == verdict::key_list(
            verdict::ids_where(results, keep, results.len() as int),
        ),
        x.metric_ids.len() > 0,
        x.severity == verdict::strongest_named(results, x.metric_ids, results.len() as int),
    ensures
        drawn_from(x, results, kind),
{
    let n = results.len() as int;
    let rows = verdict::ids_where(results, keep, n);
    assert forall|id: Seq<char>| #[trigger] x.metric_ids.contains(id) implies exists|k: int|
        0 <= k < results.len() && kind(#[trigger] results[k]) && results[k].metric_id@ == id by {
        lemma_ids(results, keep, n, id);
        lemma_listed(rows, id);
        let k = choose|k: int|
            0 <= k < n && keep(#[trigger] results[k]) && results[k].metric_id@ == id;
        assert(kind(results[k]));
    }
    let id = x.metric_ids[0];
    assert(x.metric_ids.contains(id));
    let k = choose|k: int|
        0 <= k < results.len() && kind(#[trigger] results[k]) && results[k].metric_id@ == id;
    lemma_strongest(results, x.metric_ids, n, k);
}

/// Whether a result is of a kind that has a reason of its own.
pub open spec fn special(r: MeasurementResult) -> bool {
    firing(r) || suite_down(r)
}

/// No finding is made up: a reason about results is about results that are there,
/// of the kind its code says and as serious as it says.
pub proof fn lemma_no_finding_is_made_up(
    results: Seq<MeasurementResult>,
    ctx: ContextModel,
    iteration: IterationState,
    j: int,
)
    requires
        0 <= j < verdict::all_reasons(results, ctx, iteration).len(),
    ensures
        ({
            let x = verdict::all_reasons(results, ctx, iteration)[j];
            let enough = |r: MeasurementResult|
                enough_to_stop(r, ctx.policy, ctx.policy_change);
            &&& x.code == "tamper-signal"@ ==> exists|k: int|
                0 <= k < results.len() && firing(#[trigger] results[k]) && enough(results[k])
                    && about_one(x, x.code, Severity::Critical, results[k].metric_id@)
            &&& x.code == "tamper-signal-advisory"@ ==> exists|k: int|
                0 <= k < results.len() && firing(#[trigger] results[k]) && !enough(results[k])
                    && about_one(x, x.code, results[k].severity, results[k].metric_id@)
            &&& x.code == "test-failure"@ ==> exists|k: int|
                0 <= k < results.len() && suite_down(#[trigger] results[k]) && enough(results[k])
                    && about_one(x, x.code, Severity::Critical, results[k].metric_id@)
            &&& x.code == "test-failure-advisory"@ ==> exists|k: int|
                0 <= k < results.len() && suite_down(#[trigger] results[k]) && !enough(results[k])
                    && about_one(x, x.code, results[k].severity, results[k].metric_id@)
            &&& x.code == "severity-med-plus"@ ==> drawn_from(
                x,
                results,
                |r: MeasurementResult| !special(r) && enough(r),
            )
            &&& x.code == "finding-advisory"@ ==> drawn_from(
                x,
                results,
                |r: MeasurementResult| !special(r) && r.severity == Severity::Low,
            )
        }),
{
    let all = verdict::all_reasons(results, ctx, iteration);
    let x = all[j];
    let n = results.len() as int;
    let same = |y: ReasonModel| y == x;
    assert(same(all[j]));
    lemma_parts(results, ctx, iteration, same);
    lemma_codes();
    let flags = verdict::flag_reasons(results, ctx);
    let suites = verdict::suite_reasons(results, ctx, n);
    let findings = verdict::finding_reasons(results, ctx);
    let flag_kind = |r: MeasurementResult| !special(r) && enough_to_stop(
        r,
        ctx.policy,
        ctx.policy_change,
    );
    let low_kind = |r: MeasurementResult| !special(r) && r.severity == Severity::Low;
    assert forall|r: MeasurementResult| #[trigger] verdict::has_own_reason(r) == special(r) by {
        lemma_signals_are_read_off_the_name(r, TamperSignal::ThresholdConfigEdit);
    }
    assert forall|r: MeasurementResult| #[trigger] severity::stops(r, ctx) == enough_to_stop(
        r,
        ctx.policy,
        ctx.policy_change,
    ) by {
        lemma_what_stops_and_what_counts(r, ctx);
    }
    if any_like(flags, same) {
        let p = choose|p: int| 0 <= p < flags.len() && same(#[trigger] flags[p]);
        let k = lemma_flag_comes_from(results, ctx, p);
        lemma_signals_are_read_off_the_name(results[k], TamperSignal::ThresholdConfigEdit);
        lemma_what_stops_and_what_counts(results[k], ctx);
        assert(firing(results[k]));
    } else if any_like(suites, same) {
        let p = choose|p: int| 0 <= p < suites.len() && same(#[trigger] suites[p]);
        let k = lemma_suite_comes_from(results, ctx, n, p);
        lemma_what_stops_and_what_counts(results[k], ctx);
        assert(suite_down(results[k]));
    } else if any_like(findings, same) {
        let p = choose|p: int| 0 <= p < findings.len() && same(#[trigger] findings[p]);
        if x.code == "severity-med-plus"@ {
            assert(p == 0 && x.metric_ids == verdict::blocking_ids(results, ctx));
            lemma_ids_drawn(results, verdict::blocks_plainly(ctx), flag_kind, x);
        } else {
            assert(x.metric_ids == verdict::advisory_ids(results, ctx));
            assert forall|k: int|
                0 <= k < results.len() && verdict::advises_plainly(ctx)(
                    #[trigger] results[k],
                ) implies low_kind(results[k]) by {
                assert(!severity::stops(results[k], ctx));
            }
            lemma_ids_drawn(results, verdict::advises_plainly(ctx), low_kind, x);
        }
    }
}

// --- the other reasons ----------------------------------------------------

/// The reasons about fired detectors have two codes.
pub proof fn lemma_flag_codes(results: Seq<MeasurementResult>, ctx: ContextModel)
    ensures
        forall|i: int|
            0 <= i < verdict::flag_reasons(results, ctx).len() ==> {
                let x = #[trigger] verdict::flag_reasons(results, ctx)[i];
                x.code == "tamper-signal"@ || x.code == "tamper-signal-advisory"@
            },
{
    assert forall|i: int| 0 <= i < verdict::flag_reasons(results, ctx).len() implies {
        let x = #[trigger] verdict::flag_reasons(results, ctx)[i];
        x.code == "tamper-signal"@ || x.code == "tamper-signal-advisory"@
    } by {
        let k = lemma_flag_comes_from(results, ctx, i);
    }
}

/// The reasons about failed suites have two codes.
pub proof fn lemma_suite_codes(results: Seq<MeasurementResult>, ctx: ContextModel)
    ensures
        forall|i: int|
            0 <= i < verdict::suite_reasons(results, ctx, results.len() as int).len() ==> {
                let x = #[trigger] verdict::suite_reasons(results, ctx, results.len() as int)[i];
                x.code == "test-failure"@ || x.code == "test-failure-advisory"@
            },
{
    let all = verdict::suite_reasons(results, ctx, results.len() as int);
    assert forall|i: int| 0 <= i < all.len() implies {
        let x = #[trigger] all[i];
        x.code == "test-failure"@ || x.code == "test-failure-advisory"@
    } by {
        let k = lemma_suite_comes_from(results, ctx, results.len() as int, i);
    }
}

proof fn lemma_stale(
    results: Seq<MeasurementResult>,
    stale: Seq<Seq<char>>,
    n: int,
    id: Seq<char>,
)
    requires
        0 <= n <= results.len(),
    ensures
        strmap::keys_ascend(verdict::stale_cited(results, stale, n)),
        strmap::has_key(verdict::stale_cited(results, stale, n), id) <==> exists|k: int|
            0 <= k < n && verdict::cites_stale(#[trigger] results[k], stale)
                && results[k].claim_id@ == id,
    decreases n,
{
    let none = Seq::<(Seq<char>, ())>::empty();
    strmap::lemma_lookup_iff(none, id);
    if n > 0 {
        lemma_stale(results, stale, n - 1, id);
        let before = verdict::stale_cited(results, stale, n - 1);
        strmap::lemma_inserted(before, results[n - 1].claim_id@, ());
        if strmap::has_key(before, id) {
            let k = choose|k: int|
                0 <= k < n - 1 && verdict::cites_stale(#[trigger] results[k], stale)
                    && results[k].claim_id@ == id;
            assert(verdict::cites_stale(results[k], stale));
        }
        if exists|k: int|
            0 <= k < n && verdict::cites_stale(#[trigger] results[k], stale)
                && results[k].claim_id@ == id {
            let k = choose|k: int|
                0 <= k < n && verdict::cites_stale(#[trigger] results[k], stale)
                    && results[k].claim_id@ == id;
            if k < n - 1 {
                assert(verdict::cites_stale(results[k], stale));
            }
        }
    }
}

/// Whether a reported finding stands on a claim that is past its date.
pub open spec fn stands_on_stale(r: MeasurementResult, stale: Seq<Seq<char>>) -> bool {
    (firing(r) || r.severity != Severity::Info) && stale.contains(r.claim_id@)
}

/// Whether some reason has a code.
pub open spec fn told(reasons: Seq<ReasonModel>, code: Seq<char>) -> bool {
    any_like(reasons, |x: ReasonModel| x.code == code)
}

proof fn lemma_told_parts(
    results: Seq<MeasurementResult>,
    ctx: ContextModel,
    iteration: IterationState,
    code: Seq<char>,
)
    requires
        code != "tamper-signal"@,
        code != "tamper-signal-advisory"@,
        code != "test-failure"@,
        code != "test-failure-advisory"@,
        code != "severity-med-plus"@,
        code != "finding-advisory"@,
    ensures
        told(verdict::all_reasons(results, ctx, iteration), code) <==> (told(edits(ctx), code)
            || told(verdict::failure_reasons(ctx), code) || told(
            verdict::unread_reasons(ctx),
            code,
        ) || told(verdict::notice_reasons(results, ctx), code) || told(
            verdict::cap_reasons(results, ctx, iteration),
            code,
        )),
{
    lemma_parts(results, ctx, iteration, |x: ReasonModel| x.code == code);
    lemma_flag_codes(results, ctx);
    lemma_suite_codes(results, ctx);
}

proof fn lemma_notices(results: Seq<MeasurementResult>, ctx: ContextModel, code: Seq<char>)
    ensures
        told(verdict::notice_reasons(results, ctx), code) <==> ({
            ||| code == "evidence-stale"@ && verdict::stale_cited(
                results,
                ctx.stale_claim_ids,
                results.len() as int,
            ).len() > 0
            ||| code == "evidence-registry-skew"@ && ctx.registry_skew.len() > 0
            ||| code == "measurement-incomplete"@ && ctx.completeness != Completeness::Complete
            ||| code == "iteration-state-reset"@ && ctx.iteration_state_recovered
        }),
{
    let like = |x: ReasonModel| x.code == code;
    let stale = verdict::key_list(
        verdict::stale_cited(results, ctx.stale_claim_ids, results.len() as int),
    );
    let all = verdict::notice_reasons(results, ctx);
    let a = if stale.len() == 0 { 0int } else { 1 };
    let b = if ctx.registry_skew.len() == 0 { a } else { a + 1 };
    let c = if ctx.completeness == Completeness::Complete { b } else { b + 1 };
    if stale.len() > 0 {
        assert(all[0].code == "evidence-stale"@);
    }
    if ctx.registry_skew.len() > 0 {
        assert(all[a].code == "evidence-registry-skew"@);
    }
    if ctx.completeness != Completeness::Complete {
        assert(all[b].code == "measurement-incomplete"@);
    }
    if ctx.iteration_state_recovered {
        assert(all[c].code == "iteration-state-reset"@);
    }
}

proof fn lemma_single_reasons(
    results: Seq<MeasurementResult>,
    ctx: ContextModel,
    iteration: IterationState,
    code: Seq<char>,
)
    ensures
        told(verdict::failure_reasons(ctx), code) <==> (code == "engine-unavailable"@
            && ctx.engine_failures.len() > 0),
        told(verdict::unread_reasons(ctx), code) <==> (code == "change-not-read"@
            && ctx.unreadable_paths.len() > 0),
        told(verdict::cap_reasons(results, ctx, iteration), code) <==> (code == "iteration-cap"@
            && iteration.escalated && verdict::countable(results, ctx)),
{
    if ctx.engine_failures.len() > 0 {
        assert(verdict::failure_reasons(ctx)[0].code == "engine-unavailable"@);
    }
    if ctx.unreadable_paths.len() > 0 {
        assert(verdict::unread_reasons(ctx)[0].code == "change-not-read"@);
    }
    if verdict::escalates(results, ctx, iteration) {
        assert(verdict::cap_reasons(results, ctx, iteration)[0].code == "iteration-cap"@);
    }
}

proof fn lemma_edits_told(ctx: ContextModel, code: Seq<char>)
    ensures
        told(edits(ctx), code) <==> ({
            ||| code == "policy-change"@ && (ctx.policy_change matches Some(c) && c.deltas@.len()
                > 0)
            ||| code == "policy-change-loosening"@ && lowers_the_bar(ctx.policy_change)
        }),
{
    let edited = edits(ctx);
    if let Some(c) = ctx.policy_change {
        assert(c.stops() == lowers_the_bar(ctx.policy_change));
        if c.deltas@.len() > 0 {
            assert(edited[0].code == "policy-change"@);
            if c.stops() {
                assert(edited[1].code == "policy-change-loosening"@);
            }
        }
    }
}

proof fn lemma_some_stale(results: Seq<MeasurementResult>, stale: Seq<Seq<char>>)
    ensures
        verdict::stale_cited(results, stale, results.len() as int).len() > 0 <==> exists|k: int|
            0 <= k < results.len() && stands_on_stale(#[trigger] results[k], stale),
{
    let n = results.len() as int;
    let rows = verdict::stale_cited(results, stale, n);
    if rows.len() > 0 {
        lemma_stale(results, stale, n, rows[0].0);
        strmap::lemma_lookup_row(rows, 0);
        let k = choose|k: int|
            0 <= k < n && verdict::cites_stale(#[trigger] results[k], stale)
                && results[k].claim_id@ == rows[0].0;
        lemma_signals_are_read_off_the_name(results[k], TamperSignal::ThresholdConfigEdit);
        assert(stands_on_stale(results[k], stale));
    }
    if exists|k: int| 0 <= k < results.len() && stands_on_stale(#[trigger] results[k], stale) {
        let k = choose|k: int|
            0 <= k < results.len() && stands_on_stale(#[trigger] results[k], stale);
        lemma_signals_are_read_off_the_name(results[k], TamperSignal::ThresholdConfigEdit);
        assert(verdict::cites_stale(results[k], stale));
        lemma_stale(results, stale, n, results[k].claim_id@);
        strmap::lemma_lookup_iff(rows, results[k].claim_id@);
    }
}

proof fn lemma_told(
    results: Seq<MeasurementResult>,
    ctx: ContextModel,
    iteration: IterationState,
    code: Seq<char>,
)
    requires
        code != "tamper-signal"@,
        code != "tamper-signal-advisory"@,
        code != "test-failure"@,
        code != "test-failure-advisory"@,
        code != "severity-med-plus"@,
        code != "finding-advisory"@,
    ensures
        told(verdict::all_reasons(results, ctx, iteration), code) <==> ({
            ||| code == "policy-change"@ && (ctx.policy_change matches Some(c) && c.deltas@.len()
                > 0)
            ||| code == "policy-change-loosening"@ && lowers_the_bar(ctx.policy_change)
            ||| code == "engine-unavailable"@ && ctx.engine_failures.len() > 0
            ||| code == "change-not-read"@ && ctx.unreadable_paths.len() > 0
            ||| code == "evidence-stale"@ && exists|k: int|
                0 <= k < results.len() && stands_on_stale(
                    #[trigger] results[k],
                    ctx.stale_claim_ids,
                )
            ||| code == "evidence-registry-skew"@ && ctx.registry_skew.len() > 0
            ||| code == "measurement-incomplete"@ && ctx.completeness != Completeness::Complete
            ||| code == "iteration-state-reset"@ && ctx.iteration_state_recovered
            ||| code == "iteration-cap"@ && iteration.escalated && work_left(results, ctx)
        }),
{
    lemma_told_parts(results, ctx, iteration, code);
    lemma_edits_told(ctx, code);
    lemma_single_reasons(results, ctx, iteration, code);
    lemma_notices(results, ctx, code);
    lemma_some_stale(results, ctx.stale_claim_ids);
    lemma_stops_and_counts(results, ctx);
}

/// What each reason that is not about a single result is a sign of: it is there
/// exactly where what it tells of is.
pub proof fn lemma_what_the_other_reasons_tell(
    results: Seq<MeasurementResult>,
    ctx: ContextModel,
    iteration: IterationState,
)
    ensures
        ({
            let all = verdict::all_reasons(results, ctx, iteration);
            &&& told(all, "policy-change"@) <==> (ctx.policy_change matches Some(c)
                && c.deltas@.len() > 0)
            &&& told(all, "policy-change-loosening"@) <==> lowers_the_bar(ctx.policy_change)
            &&& told(all, "engine-unavailable"@) <==> ctx.engine_failures.len() > 0
            &&& told(all, "change-not-read"@) <==> ctx.unreadable_paths.len() > 0
            &&& told(all, "evidence-stale"@) <==> exists|k: int|
                0 <= k < results.len() && stands_on_stale(
                    #[trigger] results[k],
                    ctx.stale_claim_ids,
                )
            &&& told(all, "evidence-registry-skew"@) <==> ctx.registry_skew.len() > 0
            &&& told(all, "measurement-incomplete"@) <==> ctx.completeness
                != Completeness::Complete
            &&& told(all, "iteration-state-reset"@) <==> ctx.iteration_state_recovered
            &&& told(all, "iteration-cap"@) <==> iteration.escalated && work_left(results, ctx)
        }),
{
    lemma_codes();
    lemma_told(results, ctx, iteration, "policy-change"@);
    lemma_told(results, ctx, iteration, "policy-change-loosening"@);
    lemma_told(results, ctx, iteration, "engine-unavailable"@);
    lemma_told(results, ctx, iteration, "change-not-read"@);
    lemma_told(results, ctx, iteration, "evidence-stale"@);
    lemma_told(results, ctx, iteration, "evidence-registry-skew"@);
    lemma_told(results, ctx, iteration, "measurement-incomplete"@);
    lemma_told(results, ctx, iteration, "iteration-state-reset"@);
    lemma_told(results, ctx, iteration, "iteration-cap"@);
}

/// The word a run earns: escalation where the cap is passed with work left, a
/// block where the line stops, a pass where there is nothing above info to
/// report, and advice in every other case.
pub proof fn lemma_the_word(
    results: Seq<MeasurementResult>,
    ctx: ContextModel,
    iteration: IterationState,
)
    ensures
        ({
            let word = verdict::verdict_of(results, ctx, iteration);
            let over = iteration.escalated && work_left(results, ctx);
            &&& word == Verdict::EscalateToHuman <==> over
            &&& word == Verdict::Block <==> !over && line_stops(results, ctx)
            &&& word == Verdict::Pass <==> !over && !line_stops(results, ctx) && !worth_a_word(
                results,
                ctx,
            )
        }),
{
    lemma_stops_and_counts(results, ctx);
    let all = verdict::all_reasons(results, ctx, iteration);
    let serious = |x: ReasonModel| x.severity.rank() > Severity::Info.rank();
    let n = results.len() as int;
    lemma_parts(results, ctx, iteration, serious);
    assert(verdict::worth_saying(all) <==> any_like(all, serious)) by {
        if verdict::worth_saying(all) {
            let i = choose|i: int|
                0 <= i < all.len() && (#[trigger] all[i]).severity.rank() > Severity::Info.rank();
            assert(serious(all[i]));
        }
        if any_like(all, serious) {
            let i = choose|i: int| 0 <= i < all.len() && serious(#[trigger] all[i]);
            assert(all[i].severity.rank() > Severity::Info.rank());
        }
    }
    if worth_a_word(results, ctx) && !line_stops(results, ctx) {
        lemma_worth_reporting(results, ctx, iteration);
    }
    if !verdict::blocks(results, ctx) && !verdict::escalates(results, ctx, iteration)
        && !worth_a_word(results, ctx) {
        lemma_nothing_serious(results, ctx, iteration);
    }
}

proof fn lemma_worth_reporting(
    results: Seq<MeasurementResult>,
    ctx: ContextModel,
    iteration: IterationState,
)
    requires
        worth_a_word(results, ctx),
    ensures
        verdict::verdict_of(results, ctx, iteration) != Verdict::Pass,
{
    let all = verdict::all_reasons(results, ctx, iteration);
    if exists|i: int|
        0 <= i < results.len() && (#[trigger] results[i]).severity != Severity::Info {
        let k = choose|i: int|
            0 <= i < results.len() && (#[trigger] results[i]).severity != Severity::Info;
        lemma_every_finding_is_reported(results, ctx, iteration, k);
    } else {
        let serious = |x: ReasonModel| x.severity.rank() > Severity::Info.rank();
        lemma_parts(results, ctx, iteration, serious);
        if ctx.engine_failures.len() > 0 {
            assert(serious(verdict::failure_reasons(ctx)[0]));
        } else if ctx.unreadable_paths.len() > 0 {
            assert(serious(verdict::unread_reasons(ctx)[0]));
        } else {
            assert(serious(edits(ctx)[0]));
        }
        let i = choose|i: int| 0 <= i < all.len() && serious(#[trigger] all[i]);
        assert(all[i].severity.rank() > Severity::Info.rank());
    }
}

proof fn lemma_nothing_serious(
    results: Seq<MeasurementResult>,
    ctx: ContextModel,
    iteration: IterationState,
)
    requires
        !verdict::blocks(results, ctx),
        !verdict::escalates(results, ctx, iteration),
        !worth_a_word(results, ctx),
    ensures
        !verdict::worth_saying(verdict::all_reasons(results, ctx, iteration)),
{
    let all = verdict::all_reasons(results, ctx, iteration);
    let n = results.len() as int;
    let serious = |x: ReasonModel| x.severity.rank() > Severity::Info.rank();
    lemma_parts(results, ctx, iteration, serious);
    if any_like(verdict::flag_reasons(results, ctx), serious) {
        let flags = verdict::flag_reasons(results, ctx);
        let p = choose|p: int| 0 <= p < flags.len() && serious(#[trigger] flags[p]);
        let k = lemma_flag_comes_from(results, ctx, p);
        assert(!severity::stops(results[k], ctx));
    }
    if any_like(verdict::suite_reasons(results, ctx, n), serious) {
        let suites = verdict::suite_reasons(results, ctx, n);
        let p = choose|p: int| 0 <= p < suites.len() && serious(#[trigger] suites[p]);
        let k = lemma_suite_comes_from(results, ctx, n, p);
        assert(!severity::stops(results[k], ctx));
    }
    assert(!any_like(verdict::finding_reasons(results, ctx), serious)) by {
        lemma_nothing_listed(results, verdict::blocks_plainly(ctx), n);
        assert forall|k: int| 0 <= k < n implies !verdict::advises_plainly(ctx)(
            #[trigger] results[k],
        ) by {
            assert(results[k].severity == Severity::Info);
        }
        lemma_nothing_listed(results, verdict::advises_plainly(ctx), n);
    }
    if verdict::worth_saying(all) {
        let i = choose|i: int|
            0 <= i < all.len() && (#[trigger] all[i]).severity.rank() > Severity::Info.rank();
        assert(serious(all[i]));
    }
}

proof fn lemma_nothing_listed(
    results: Seq<MeasurementResult>,
    keep: spec_fn(MeasurementResult) -> bool,
    n: int,
)
    requires
        0 <= n <= results.len(),
        forall|k: int| 0 <= k < n ==> !keep(#[trigger] results[k]),
    ensures
        verdict::ids_where(results, keep, n).len() == 0,
    decreases n,
{
    if n > 0 {
        lemma_nothing_listed(results, keep, n - 1);
    }
}

/// How serious each reason that is not about single results is: a loosening and a
/// passed cap are high, what was not measured or not read is medium, a policy
/// edit is low, and a notice is info. None of them names a metric.
pub proof fn lemma_how_serious_the_other_reasons_are(
    results: Seq<MeasurementResult>,
    ctx: ContextModel,
    iteration: IterationState,
    j: int,
)
    requires
        0 <= j < verdict::all_reasons(results, ctx, iteration).len(),
    ensures
        ({
            let x = verdict::all_reasons(results, ctx, iteration)[j];
            let high = x.code == "policy-change-loosening"@ || x.code == "iteration-cap"@;
            let medium = x.code == "engine-unavailable"@ || x.code == "change-not-read"@;
            let low = x.code == "policy-change"@;
            let info = x.code == "evidence-stale"@ || x.code == "evidence-registry-skew"@ || x.code
                == "measurement-incomplete"@ || x.code == "iteration-state-reset"@;
            &&& high ==> x.severity == Severity::High
            &&& medium ==> x.severity == Severity::Medium
            &&& low ==> x.severity == Severity::Low
            &&& info ==> x.severity == Severity::Info
            &&& high || medium || low || info ==> x.metric_ids.len() == 0
        }),
{
    let all = verdict::all_reasons(results, ctx, iteration);
    let x = all[j];
    let same = |y: ReasonModel| y == x;
    assert(same(all[j]));
    lemma_parts(results, ctx, iteration, same);
    lemma_codes();
    lemma_flag_codes(results, ctx);
    lemma_suite_codes(results, ctx);
}

// --- what a message says --------------------------------------------------

/// Whether a text says something somewhere.
pub open spec fn mentions(whole: Seq<char>, part: Seq<char>) -> bool {
    exists|before: Seq<char>, after: Seq<char>| whole == #[trigger] (before + part + after)
}

/// What a part of a text says, the text says.
pub proof fn lemma_mentions(before: Seq<char>, part: Seq<char>, after: Seq<char>, inner: Seq<char>)
    requires
        mentions(part, inner),
    ensures
        mentions(before + part + after, inner),
{
    let (a, b) = choose|a: Seq<char>, b: Seq<char>| part == #[trigger] (a + inner + b);
    assert(before + part + after =~= (before + a) + inner + (b + after));
}

/// A text says what it says.
pub proof fn lemma_mentions_itself(part: Seq<char>)
    ensures
        mentions(part, part),
{
    let none = Seq::<char>::empty();
    assert(part =~= none + part + none);
}

proof fn lemma_joined_mentions(parts: Seq<Seq<char>>, sep: Seq<char>, i: int)
    requires
        0 <= i < parts.len(),
    ensures
        mentions(text::joined(parts, sep), parts[i]),
    decreases parts.len(),
{
    let none = Seq::<char>::empty();
    lemma_mentions_itself(parts[i]);
    if parts.len() > 1 {
        let rest = text::joined(parts.drop_last(), sep);
        if i == parts.len() - 1 {
            assert(text::joined(parts, sep) =~= (rest + sep) + parts[i] + none);
        } else {
            lemma_joined_mentions(parts.drop_last(), sep, i);
            assert(parts.drop_last()[i] == parts[i]);
            lemma_mentions(none, rest, sep + parts.last(), parts[i]);
            assert(none + rest + (sep + parts.last()) =~= text::joined(parts, sep));
        }
    }
}

/// Whether a reason of this kind says something.
pub open spec fn names(reasons: Seq<ReasonModel>, code: Seq<char>, part: Seq<char>) -> bool {
    any_like(reasons, |x: ReasonModel| x.code == code && mentions(x.message, part))
}

/// A reason about what was not measured names every engine that failed, with what
/// it said.
pub proof fn lemma_every_failure_is_named(
    results: Seq<MeasurementResult>,
    ctx: ContextModel,
    iteration: IterationState,
    i: int,
)
    requires
        0 <= i < ctx.engine_failures.len(),
    ensures
        names(
            verdict::all_reasons(results, ctx, iteration),
            "engine-unavailable"@,
            ctx.engine_failures[i].engine_id@,
        ),
        names(
            verdict::all_reasons(results, ctx, iteration),
            "engine-unavailable"@,
            ctx.engine_failures[i].reason@,
        ),
{
    let f = ctx.engine_failures[i];
    let lines = ctx.engine_failures.map_values(
        |f: verdict::EngineFailure| verdict::failure_line(f),
    );
    let joined = text::joined(lines, "; "@);
    let x = verdict::failure_reasons(ctx)[0];
    let none = Seq::<char>::empty();
    lemma_joined_mentions(lines, "; "@, i);
    let line = verdict::failure_line(f);
    assert(lines[i] == line);
    assert(mentions(line, f.engine_id@)) by {
        assert(line =~= none + f.engine_id@ + (": "@ + f.reason@));
    }
    assert(mentions(line, f.reason@)) by {
        assert(line =~= (f.engine_id@ + ": "@) + f.reason@ + none);
    }
    let (a, b) = choose|a: Seq<char>, b: Seq<char>| joined == #[trigger] (a + line + b);
    lemma_mentions(a, line, b, f.engine_id@);
    lemma_mentions(a, line, b, f.reason@);
    let head = text::decimal(ctx.engine_failures.len())
        + " engine(s) produced no results, so their metrics are absent rather than zero and this record is "@
        + ctx.completeness.lower_variant_name() + ": "@;
    assert(x.message =~= head + joined + none);
    lemma_mentions(head, joined, none, f.engine_id@);
    lemma_mentions(head, joined, none, f.reason@);
    let first = |x: ReasonModel|
        x.code == "engine-unavailable"@ && mentions(x.message, f.engine_id@);
    let second = |x: ReasonModel| x.code == "engine-unavailable"@ && mentions(x.message, f.reason@);
    assert(first(x) && second(x));
    lemma_parts(results, ctx, iteration, first);
    lemma_parts(results, ctx, iteration, second);
}

/// A reason about what could not be read names every such path.
pub proof fn lemma_every_unread_path_is_named(
    results: Seq<MeasurementResult>,
    ctx: ContextModel,
    iteration: IterationState,
    i: int,
)
    requires
        0 <= i < ctx.unreadable_paths.len(),
    ensures
        names(
            verdict::all_reasons(results, ctx, iteration),
            "change-not-read"@,
            ctx.unreadable_paths[i],
        ),
{
    let part = ctx.unreadable_paths[i];
    let joined = text::joined(ctx.unreadable_paths, ", "@);
    let x = verdict::unread_reasons(ctx)[0];
    let none = Seq::<char>::empty();
    lemma_joined_mentions(ctx.unreadable_paths, ", "@, i);
    let head = text::decimal(ctx.unreadable_paths.len())
        + " changed path(s) could not be read, so no result here describes them and this verdict is about the rest of the change: "@;
    assert(x.message =~= head + joined + none);
    lemma_mentions(head, joined, none, part);
    let like = |x: ReasonModel| x.code == "change-not-read"@ && mentions(x.message, part);
    assert(like(x));
    lemma_parts(results, ctx, iteration, like);
}

/// A reason about a policy edit names every field that moved, from what and to
/// what, and which way.
pub proof fn lemma_every_edit_is_named(
    results: Seq<MeasurementResult>,
    ctx: ContextModel,
    iteration: IterationState,
    c: PolicyChange,
    i: int,
)
    requires
        ctx.policy_change == Some(c),
        0 <= i < c.deltas@.len(),
    ensures
        ({
            let all = verdict::all_reasons(results, ctx, iteration);
            let d = c.deltas@[i];
            let way = match d.direction {
                Direction::Loosening => "loosens"@,
                Direction::Tightening => "tightens"@,
                Direction::Neutral => "neither loosens nor tightens"@,
                Direction::Unclassified => "direction unclassified"@,
            };
            let line = d.field@ + ": "@ + d.before@ + " -> "@ + d.after@ + " ("@ + way + ")"@;
            &&& names(all, "policy-change"@, line)
            &&& d.direction == Direction::Loosening && lowers_the_bar(ctx.policy_change) ==> names(
                all,
                "policy-change-loosening"@,
                line,
            )
        }),
{
    let deltas = super::policy_change::deltas_of(c.deltas@);
    let d = c.deltas@[i];
    let line = deltas[i].description();
    let none = Seq::<char>::empty();
    let lines = verdict::described(deltas);
    assert(lines[i] == line);
    let joined = text::joined(lines, "; "@);
    lemma_joined_mentions(lines, "; "@, i);
    let cited = match c.justification {
        Some(j) => "; "@ + j.description(),
        None => Seq::empty(),
    };
    let x = edits(ctx)[0];
    assert(x.message =~= "policy edited in this change: "@ + joined + cited);
    lemma_mentions("policy edited in this change: "@, joined, cited, line);
    let like = |x: ReasonModel| x.code == "policy-change"@ && mentions(x.message, line);
    assert(like(x));
    lemma_parts(results, ctx, iteration, like);
    if d.direction == Direction::Loosening && lowers_the_bar(ctx.policy_change) {
        lemma_loosening_listed(deltas, i);
        let picked = super::policy_change::loosening(deltas);
        let p = choose|p: int| 0 <= p < picked.len() && picked[p] == deltas[i];
        let short = verdict::described(picked);
        assert(short[p] == line);
        lemma_joined_mentions(short, "; "@, p);
        let loosened = text::joined(short, "; "@);
        assert(c.stops());
        let y = edits(ctx)[1];
        match c.justification {
            Some(j) => {
                let head =
                    "policy loosened and the justification offered has not been checked: "@;
                assert(y.message =~= head + loosened + ("; "@ + j.description()));
                lemma_mentions(head, loosened, "; "@ + j.description(), line);
            },
            None => {
                let head = "policy loosened with no ledgered justification: "@;
                assert(y.message =~= head + loosened + none);
                lemma_mentions(head, loosened, none, line);
            },
        }
        let other = |x: ReasonModel|
            x.code == "policy-change-loosening"@ && mentions(x.message, line);
        assert(other(y));
        lemma_parts(results, ctx, iteration, other);
    }
}

proof fn lemma_loosening_listed(deltas: Seq<super::policy_change::DeltaModel>, i: int)
    requires
        0 <= i < deltas.len(),
        deltas[i].direction == Direction::Loosening,
    ensures
        super::policy_change::loosening(deltas).contains(deltas[i]),
    decreases deltas.len(),
{
    let all = super::policy_change::loosening(deltas);
    let before = super::policy_change::loosening(deltas.drop_last());
    if i == deltas.len() - 1 {
        assert(all[all.len() - 1] == deltas[i]);
    } else {
        lemma_loosening_listed(deltas.drop_last(), i);
        let p = choose|p: int| 0 <= p < before.len() && before[p] == deltas.drop_last()[i];
        assert(all[p] == deltas[i]);
    }
}

/// A notice about stale evidence names every claim past its date that a reported
/// finding stands on, and a notice about graded claims every disagreement.
pub proof fn lemma_every_weak_claim_is_named(
    results: Seq<MeasurementResult>,
    ctx: ContextModel,
    iteration: IterationState,
    k: int,
    i: int,
)
    ensures
        0 <= k < results.len() && stands_on_stale(results[k], ctx.stale_claim_ids) ==> names(
            verdict::all_reasons(results, ctx, iteration),
            "evidence-stale"@,
            results[k].claim_id@,
        ),
        0 <= i < ctx.registry_skew.len() ==> names(
            verdict::all_reasons(results, ctx, iteration),
            "evidence-registry-skew"@,
            ctx.registry_skew[i],
        ),
{
    let n = results.len() as int;
    let none = Seq::<char>::empty();
    let notices = verdict::notice_reasons(results, ctx);
    let rows = verdict::stale_cited(results, ctx.stale_claim_ids, n);
    let stale = verdict::key_list(rows);
    if 0 <= k < results.len() && stands_on_stale(results[k], ctx.stale_claim_ids) {
        let id = results[k].claim_id@;
        lemma_signals_are_read_off_the_name(results[k], TamperSignal::ThresholdConfigEdit);
        assert(verdict::cites_stale(results[k], ctx.stale_claim_ids));
        lemma_stale(results, ctx.stale_claim_ids, n, id);
        lemma_listed(rows, id);
        let p = choose|p: int| 0 <= p < stale.len() && stale[p] == id;
        lemma_joined_mentions(stale, ", "@, p);
        let head = "reported findings stand on "@ + text::decimal(stale.len())
            + " claim(s) past their re-review date: "@;
        let x = notices[0];
        assert(x.message =~= head + text::joined(stale, ", "@) + none);
        lemma_mentions(head, text::joined(stale, ", "@), none, id);
        let like = |x: ReasonModel| x.code == "evidence-stale"@ && mentions(x.message, id);
        assert(like(x));
        lemma_parts(results, ctx, iteration, like);
    }
    if 0 <= i < ctx.registry_skew.len() {
        let part = ctx.registry_skew[i];
        lemma_joined_mentions(ctx.registry_skew, "; "@, i);
        let head = "this binary and the registry in the checkout grade "@ + text::decimal(
            ctx.registry_skew.len(),
        )
            + " claim(s) differently, and the ceilings below were computed from the binary's own: "@;
        let x = notices[if stale.len() == 0 { 0int } else { 1 }];
        assert(x.message =~= head + text::joined(ctx.registry_skew, "; "@) + none);
        lemma_mentions(head, text::joined(ctx.registry_skew, "; "@), none, part);
        let like = |x: ReasonModel|
            x.code == "evidence-registry-skew"@ && mentions(x.message, part);
        assert(like(x));
        lemma_parts(results, ctx, iteration, like);
    }
}

// --- the record -----------------------------------------------------------

/// A record lists a signal exactly when some result says that its detector fired.
pub proof fn lemma_the_record_lists_what_fired(
    results: Seq<MeasurementResult>,
    signal: TamperSignal,
)
    ensures
        tamper_signals::fired_set(results).contains(signal) <==> exists|i: int|
            0 <= i < results.len() && fired(#[trigger] results[i], signal),
        tamper_signals::fired_set(results).no_duplicates(),
{
    tamper_signals::lemma_fired_set_is_exact(results, signal);
    if tamper_signals::fired_somewhere(results, signal) {
        let i = choose|i: int|
            0 <= i < results.len() && severity::signal_of(#[trigger] results[i]) == Some(signal);
        lemma_signals_are_read_off_the_name(results[i], signal);
        assert(fired(results[i], signal));
    }
    if exists|i: int| 0 <= i < results.len() && fired(#[trigger] results[i], signal) {
        let i = choose|i: int| 0 <= i < results.len() && fired(#[trigger] results[i], signal);
        lemma_signals_are_read_off_the_name(results[i], signal);
        assert(severity::signal_of(results[i]) == Some(signal));
    }
    let listed = tamper_signals::fired_set(results);
    assert forall|i: int, j: int|
        0 <= i < listed.len() && 0 <= j < listed.len() && i != j implies listed[i]
        != listed[j] by {
        if i < j {
            assert(tamper_signals::position(listed[i]) < tamper_signals::position(listed[j]));
        } else {
            assert(tamper_signals::position(listed[j]) < tamper_signals::position(listed[i]));
        }
    }
}

} // verus!
