//! How a report is laid out: which reasons there are, how often, and in which
//! order.
use vstd::prelude::*;

use super::meaning;
use super::policy_change::Justification;
use super::ContextModel;
use crate::schema::enums::{Completeness, EngineFamily, TamperSignal};
use crate::schema::payload::{
    IterationState, MeasurementRecord, MeasurementResult, MetricValue, ReasonModel,
};
use crate::sorting;
use crate::text;
use crate::verdict;

verus! {

/// Where a reason stands in a report, by what it is about.
pub open spec fn part(code: Seq<char>) -> int {
    if code == "tamper-signal"@ || code == "tamper-signal-advisory"@ {
        0
    } else if code == "test-failure"@ || code == "test-failure-advisory"@ {
        1
    } else if code == "severity-med-plus"@ {
        2
    } else if code == "finding-advisory"@ {
        3
    } else if code == "policy-change"@ {
        4
    } else if code == "policy-change-loosening"@ {
        5
    } else if code == "engine-unavailable"@ {
        6
    } else if code == "change-not-read"@ {
        7
    } else if code == "evidence-stale"@ {
        8
    } else if code == "evidence-registry-skew"@ {
        9
    } else if code == "measurement-incomplete"@ {
        10
    } else if code == "iteration-state-reset"@ {
        11
    } else if code == "iteration-cap"@ {
        12
    } else {
        13
    }
}

/// Whether reasons stand in the order of the parts from one to another, with no part
/// beyond the second given twice.
spec fn laid_out(s: Seq<ReasonModel>, lo: int, hi: int) -> bool {
    &&& forall|i: int| 0 <= i < s.len() ==> lo <= part((#[trigger] s[i]).code) <= hi
    &&& forall|i: int, j: int|
        0 <= i < j < s.len() ==> part((#[trigger] s[i]).code) <= part((#[trigger] s[j]).code) && (
        part(s[i].code) == part(s[j].code) ==> part(s[i].code) <= 1)
}

proof fn lemma_laid_out(a: Seq<ReasonModel>, b: Seq<ReasonModel>, lo: int, mid: int, hi: int)
    requires
        laid_out(a, lo, mid),
        laid_out(b, mid + 1, hi),
        lo <= mid < hi,
    ensures
        laid_out(a + b, lo, hi),
{
    let s = a + b;
    assert forall|i: int| 0 <= i < s.len() implies lo <= part((#[trigger] s[i]).code) <= hi by {
        if i < a.len() {
            assert(s[i] == a[i]);
        } else {
            assert(s[i] == b[i - a.len()]);
        }
    }
    assert forall|i: int, j: int| 0 <= i < j < s.len() implies part((#[trigger] s[i]).code) <= part(
        (#[trigger] s[j]).code,
    ) && (part(s[i].code) == part(s[j].code) ==> part(s[i].code) <= 1) by {
        if j < a.len() {
            assert(s[i] == a[i] && s[j] == a[j]);
        } else if i >= a.len() {
            assert(s[i] == b[i - a.len()] && s[j] == b[j - a.len()]);
        } else {
            assert(s[i] == a[i] && s[j] == b[j - a.len()]);
        }
    }
}

proof fn lemma_parts_told_apart()
    ensures
        part("tamper-signal"@) == 0,
        part("tamper-signal-advisory"@) == 0,
        part("test-failure"@) == 1,
        part("test-failure-advisory"@) == 1,
        part("severity-med-plus"@) == 2,
        part("finding-advisory"@) == 3,
        part("policy-change"@) == 4,
        part("policy-change-loosening"@) == 5,
        part("engine-unavailable"@) == 6,
        part("change-not-read"@) == 7,
        part("evidence-stale"@) == 8,
        part("evidence-registry-skew"@) == 9,
        part("measurement-incomplete"@) == 10,
        part("iteration-state-reset"@) == 11,
        part("iteration-cap"@) == 12,
{
    meaning::lemma_codes();
}

proof fn lemma_each_part(
    results: Seq<MeasurementResult>,
    ctx: ContextModel,
    iteration: IterationState,
)
    ensures
        laid_out(verdict::flag_reasons(results, ctx), 0, 0),
        laid_out(verdict::suite_reasons(results, ctx, results.len() as int), 1, 1),
        laid_out(verdict::finding_reasons(results, ctx), 2, 3),
        laid_out(meaning::edits(ctx), 4, 5),
        laid_out(verdict::failure_reasons(ctx), 6, 6),
        laid_out(verdict::unread_reasons(ctx), 7, 7),
        laid_out(verdict::notice_reasons(results, ctx), 8, 11),
        laid_out(verdict::cap_reasons(results, ctx, iteration), 12, 12),
{
    lemma_parts_told_apart();
    meaning::lemma_flag_codes(results, ctx);
    meaning::lemma_suite_codes(results, ctx);
}

/// A report is laid out in one order: fired detectors, a failed suite, findings that
/// stop the line, findings that do not, the policy edit, its loosening, engines that
/// failed, paths that were not read, then the notices, and the passed cap last. Only
/// detectors and suites are told of more than once.
pub proof fn lemma_how_a_report_is_laid_out(
    results: Seq<MeasurementResult>,
    ctx: ContextModel,
    iteration: IterationState,
    i: int,
    j: int,
)
    requires
        0 <= i < j < verdict::all_reasons(results, ctx, iteration).len(),
    ensures
        ({
            let x = verdict::all_reasons(results, ctx, iteration)[i];
            let y = verdict::all_reasons(results, ctx, iteration)[j];
            &&& part(x.code) <= part(y.code) <= 12
            &&& part(x.code) == part(y.code) ==> part(x.code) <= 1
        }),
{
    let a = verdict::flag_reasons(results, ctx);
    let b = verdict::suite_reasons(results, ctx, results.len() as int);
    let c = verdict::finding_reasons(results, ctx);
    let d = meaning::edits(ctx);
    let e = verdict::failure_reasons(ctx);
    let f = verdict::unread_reasons(ctx);
    let g = verdict::notice_reasons(results, ctx);
    let h = verdict::cap_reasons(results, ctx, iteration);
    lemma_each_part(results, ctx, iteration);
    lemma_laid_out(a, b, 0, 0, 1);
    lemma_laid_out(a + b, c, 0, 1, 3);
    lemma_laid_out(a + b + c, d, 0, 3, 5);
    lemma_laid_out(a + b + c + d, e, 0, 5, 6);
    lemma_laid_out(a + b + c + d + e, f, 0, 6, 7);
    lemma_laid_out(a + b + c + d + e + f, g, 0, 7, 11);
    lemma_laid_out(a + b + c + d + e + f + g, h, 0, 11, 12);
    assert(verdict::all_reasons(results, ctx, iteration) == a + b + c + d + e + f + g + h);
}

/// How many results say that a detector fired.
pub open spec fn firings(results: Seq<MeasurementResult>) -> nat {
    results.filter(|r: MeasurementResult| meaning::firing(r)).len()
}

/// How many results say that the user's tests failed.
pub open spec fn failing_suites(results: Seq<MeasurementResult>) -> nat {
    results.filter(|r: MeasurementResult| meaning::suite_down(r)).len()
}

proof fn lemma_counted(results: Seq<MeasurementResult>, ctx: ContextModel, n: int)
    requires
        0 <= n <= results.len(),
    ensures
        verdict::fired_flags(results, n).len() == firings(results.take(n)),
        verdict::suite_reasons(results, ctx, n).len() == failing_suites(results.take(n)),
    decreases n,
{
    reveal(Seq::filter);
    if n > 0 {
        lemma_counted(results, ctx, n - 1);
        assert(results.take(n).drop_last() =~= results.take(n - 1));
        assert(results.take(n).last() == results[n - 1]);
        meaning::lemma_signals_are_read_off_the_name(
            results[n - 1],
            TamperSignal::ThresholdConfigEdit,
        );
    }
}

/// Whether reasons open with these, and go on with none about a detector or a suite.
spec fn opens_with(s: Seq<ReasonModel>, x: Seq<ReasonModel>) -> bool {
    &&& x.len() <= s.len()
    &&& forall|i: int| 0 <= i < x.len() ==> #[trigger] s[i] == x[i]
    &&& forall|i: int| x.len() <= i < s.len() ==> part((#[trigger] s[i]).code) >= 2
}

proof fn lemma_opens_with(
    s: Seq<ReasonModel>,
    x: Seq<ReasonModel>,
    y: Seq<ReasonModel>,
    lo: int,
    hi: int,
)
    requires
        opens_with(s, x),
        laid_out(y, lo, hi),
        lo >= 2,
    ensures
        opens_with(s + y, x),
{
    assert forall|i: int| x.len() <= i < (s + y).len() implies part((#[trigger] (s + y)[i]).code)
        >= 2 by {
        if i >= s.len() {
            assert((s + y)[i] == y[i - s.len()]);
        } else {
            assert((s + y)[i] == s[i]);
        }
    }
}

proof fn lemma_report_opens(
    results: Seq<MeasurementResult>,
    ctx: ContextModel,
    iteration: IterationState,
)
    ensures
        opens_with(
            verdict::all_reasons(results, ctx, iteration),
            verdict::flag_reasons(results, ctx) + verdict::suite_reasons(
                results,
                ctx,
                results.len() as int,
            ),
        ),
        verdict::flag_reasons(results, ctx).len() == firings(results),
        verdict::suite_reasons(results, ctx, results.len() as int).len() == failing_suites(results),
        laid_out(verdict::flag_reasons(results, ctx), 0, 0),
        laid_out(verdict::suite_reasons(results, ctx, results.len() as int), 1, 1),
{
    let n = results.len() as int;
    lemma_counted(results, ctx, n);
    assert(results.take(n) =~= results);
    lemma_each_part(results, ctx, iteration);
    let flags = verdict::fired_flags(results, n);
    sorting::lemma_sorted_keeps_items(flags, verdict::flag_order());
    let x = verdict::flag_reasons(results, ctx) + verdict::suite_reasons(results, ctx, n);
    let c = verdict::finding_reasons(results, ctx);
    let d = meaning::edits(ctx);
    let e = verdict::failure_reasons(ctx);
    let f = verdict::unread_reasons(ctx);
    let g = verdict::notice_reasons(results, ctx);
    let h = verdict::cap_reasons(results, ctx, iteration);
    assert(opens_with(x, x));
    lemma_opens_with(x, x, c, 2, 3);
    lemma_opens_with(x + c, x, d, 4, 5);
    lemma_opens_with(x + c + d, x, e, 6, 6);
    lemma_opens_with(x + c + d + e, x, f, 7, 7);
    lemma_opens_with(x + c + d + e + f, x, g, 8, 11);
    lemma_opens_with(x + c + d + e + f + g, x, h, 12, 12);
    assert(verdict::all_reasons(results, ctx, iteration) == x + c + d + e + f + g + h);
}

/// Every firing and every failed suite has its own reason: a report opens with as
/// many reasons about detectors as results say that one fired, followed by as many
/// about suites as results say that one failed, and no more of either.
pub proof fn lemma_every_firing_has_its_own_reason(
    results: Seq<MeasurementResult>,
    ctx: ContextModel,
    iteration: IterationState,
    i: int,
)
    requires
        0 <= i < verdict::all_reasons(results, ctx, iteration).len(),
    ensures
        ({
            let all = verdict::all_reasons(results, ctx, iteration);
            let f = firings(results);
            let s = failing_suites(results);
            &&& f + s <= all.len()
            &&& i < f <==> part(all[i].code) == 0
            &&& f <= i < f + s <==> part(all[i].code) == 1
        }),
{
    let n = results.len() as int;
    lemma_report_opens(results, ctx, iteration);
    let a = verdict::flag_reasons(results, ctx);
    let b = verdict::suite_reasons(results, ctx, n);
    let all = verdict::all_reasons(results, ctx, iteration);
    if i < a.len() + b.len() {
        assert(all[i] == (a + b)[i]);
        if i < a.len() {
            assert((a + b)[i] == a[i]);
        } else {
            assert((a + b)[i] == b[i - a.len()]);
        }
    } else {
        assert(part(all[i].code) >= 2);
    }
}

// --- what the messages say ------------------------------------------------

/// Whether a result is the one a suite's outcome is told in: the first of its kind.
pub open spec fn tells_the_outcome(results: Seq<MeasurementResult>, k: int) -> bool {
    &&& 0 <= k < results.len()
    &&& results[k].family == EngineFamily::Tests
    &&& results[k].metric_id@ == "tests.suite-outcome"@
    &&& forall|j: int|
        0 <= j < k ==> !((#[trigger] results[j]).family == EngineFamily::Tests
            && results[j].metric_id@ == "tests.suite-outcome"@)
}

proof fn lemma_outcome_found(results: Seq<MeasurementResult>, from: int, k: int)
    requires
        0 <= from <= k,
        tells_the_outcome(results, k),
    ensures
        verdict::suite_outcome_from(results, from) == (match results[k].value {
            MetricValue::Text(t) => t@,
            _ => "exited non-zero"@,
        }),
    decreases k - from,
{
    if from < k {
        lemma_outcome_found(results, from + 1, k);
    }
}

proof fn lemma_no_outcome_found(results: Seq<MeasurementResult>, from: int)
    requires
        0 <= from <= results.len(),
        forall|j: int|
            from <= j < results.len() ==> !((#[trigger] results[j]).family == EngineFamily::Tests
                && results[j].metric_id@ == "tests.suite-outcome"@),
    ensures
        verdict::suite_outcome_from(results, from) == "exited non-zero"@,
    decreases results.len() - from,
{
    if from < results.len() {
        lemma_no_outcome_found(results, from + 1);
    }
}

/// A reason about a failed suite says how it failed, in the words of the result that
/// tells the outcome, and that the line stops where it does.
pub proof fn lemma_how_a_suite_failed_is_quoted(
    results: Seq<MeasurementResult>,
    ctx: ContextModel,
    iteration: IterationState,
    i: int,
    k: int,
)
    requires
        0 <= i < verdict::all_reasons(results, ctx, iteration).len(),
        part(verdict::all_reasons(results, ctx, iteration)[i].code) == 1,
    ensures
        ({
            let x = verdict::all_reasons(results, ctx, iteration)[i];
            let stops = x.code == "test-failure"@;
            let tail = if stops {
                "the line stops"@
            } else {
                "reported; policy does not block on test failure"@
            };
            let quoted = |outcome: Seq<char>|
                "the user test command failed ("@ + outcome + "): "@ + tail;
            &&& tells_the_outcome(results, k) && results[k].value is Text ==> x.message == quoted(
                results[k].value->Text_0@,
            )
            &&& (forall|j: int| !(#[trigger] tells_the_outcome(results, j))) ==> x.message
                == quoted("exited non-zero"@)
        }),
{
    let n = results.len() as int;
    lemma_every_firing_has_its_own_reason(results, ctx, iteration, i);
    lemma_report_opens(results, ctx, iteration);
    meaning::lemma_codes();
    let a = verdict::flag_reasons(results, ctx);
    let b = verdict::suite_reasons(results, ctx, n);
    let all = verdict::all_reasons(results, ctx, iteration);
    let at = i - a.len();
    assert(all[i] == (a + b)[i]);
    assert(all[i] == b[at]);
    let r = meaning::lemma_suite_comes_from(results, ctx, n, at);
    if tells_the_outcome(results, k) {
        lemma_outcome_found(results, 0, k);
    }
    if forall|j: int| !(#[trigger] tells_the_outcome(results, j)) {
        lemma_no_teller(results, n);
        lemma_no_outcome_found(results, 0);
    }
}

proof fn lemma_no_teller(results: Seq<MeasurementResult>, n: int)
    requires
        0 <= n <= results.len(),
        forall|j: int| !(#[trigger] tells_the_outcome(results, j)),
    ensures
        forall|j: int|
            0 <= j < n ==> !((#[trigger] results[j]).family == EngineFamily::Tests
                && results[j].metric_id@ == "tests.suite-outcome"@),
    decreases n,
{
    if n > 0 {
        lemma_no_teller(results, n - 1);
        assert(!tells_the_outcome(results, n - 1));
    }
}

/// A reason about a fired detector says whether the line stops, and where it does
/// that a partial view makes the finding a lower bound. Where a threshold edit does
/// not stop the line, it says what was offered in justification.
pub proof fn lemma_what_a_firing_says(result: MeasurementResult, ctx: ContextModel)
    requires
        meaning::firing(result),
    ensures
        ({
            let x = verdict::flag_reason(result, ctx);
            let stops = meaning::enough_to_stop(result, ctx.policy, ctx.policy_change);
            let partial =
                "; the detector read a partial view, so its reported severity is capped and its finding is a lower bound — a firing is still a firing"@;
            let head = result.metric_id@ + " fired: "@;
            &&& stops && result.completeness == Completeness::Complete ==> x.message == head
                + "the line stops"@
            &&& stops && result.completeness != Completeness::Complete ==> x.message == head
                + "the line stops"@ + partial
            &&& !stops && !meaning::fired(result, TamperSignal::ThresholdConfigEdit) ==> x.message
                == head + "reported, advisory by policy"@
            &&& !stops && meaning::fired(result, TamperSignal::ThresholdConfigEdit) && (
            ctx.policy_change matches Some(c) && c.justification is Some) ==> x.message == head
                + "reported, advisory by policy"@ + "; "@ + told_of(
                ctx.policy_change->Some_0.justification->Some_0,
            )
        }),
{
    meaning::lemma_what_stops_and_what_counts(result, ctx);
    meaning::lemma_signals_are_read_off_the_name(result, TamperSignal::ThresholdConfigEdit);
    let x = verdict::flag_reason(result, ctx);
    let head = result.metric_id@ + " fired: "@;
    let none = Seq::<char>::empty();
    assert(head + "the line stops"@ + none =~= head + "the line stops"@);
    assert(head + "reported, advisory by policy"@ + none =~= head
        + "reported, advisory by policy"@);
    if let Some(c) = ctx.policy_change {
        if let Some(j) = c.justification {
            assert(head + "reported, advisory by policy"@ + ("; "@ + told_of(j)) =~= head
                + "reported, advisory by policy"@ + "; "@ + told_of(j));
        }
    }
}

/// What a reader is told of a justification: where it is said to be recorded, what it
/// says, and whether anybody checked it.
pub open spec fn told_of(j: Justification) -> Seq<char> {
    match j {
        Justification::Verified { reference, summary } => "justified by "@ + reference@
            + " (verified against the ledger): "@ + summary@,
        Justification::Unverified { reference, summary } => "cites "@ + reference@
            + " (UNVERIFIED — nothing has checked this): "@ + summary@,
    }
}

/// The reason a passed cap gives says how many passes there were, and of how many.
pub proof fn lemma_what_a_passed_cap_says(
    results: Seq<MeasurementResult>,
    ctx: ContextModel,
    iteration: IterationState,
)
    requires
        iteration.escalated,
        meaning::work_left(results, ctx),
    ensures
        ({
            let all = verdict::all_reasons(results, ctx, iteration);
            &&& all.len() > 0
            &&& all.last().code == "iteration-cap"@
            &&& all.last().message == "pass "@ + text::decimal(iteration.count as nat)
                + " of a cap of "@ + text::decimal(iteration.cap as nat)
                + " on this branch with findings still open; a human decides from here"@
        }),
{
    meaning::lemma_stops_and_counts(results, ctx);
}

proof fn lemma_justification_quoted(ctx: ContextModel, j: Justification)
    requires
        ctx.policy_change matches Some(c) && c.justification == Some(j),
    ensures
        forall|i: int|
            0 <= i < meaning::edits(ctx).len() ==> meaning::mentions(
                (#[trigger] meaning::edits(ctx)[i]).message,
                told_of(j),
            ),
{
    let said = meaning::edits(ctx);
    let none = Seq::<char>::empty();
    let told = told_of(j);
    assert(j.description() == told);
    meaning::lemma_mentions_itself(told);
    assert forall|i: int| 0 <= i < said.len() implies meaning::mentions(
        (#[trigger] said[i]).message,
        told,
    ) by {
        let head = said[i].message.take(said[i].message.len() - told.len());
        assert(said[i].message =~= head + told + none);
        meaning::lemma_mentions(head, told, none, told);
    }
}

/// What the other reasons say. Findings are counted, and those that stop the line are
/// given their severity by name. A justification that was offered is quoted beside
/// the edit and beside the loosening, with whether anybody checked it. What was not
/// measured and what was not read are counted, and an incomplete measurement says how
/// complete it is.
pub proof fn lemma_what_the_messages_say(
    results: Seq<MeasurementResult>,
    ctx: ContextModel,
    iteration: IterationState,
    i: int,
)
    requires
        0 <= i < verdict::all_reasons(results, ctx, iteration).len(),
    ensures
        ({
            let x = verdict::all_reasons(results, ctx, iteration)[i];
            &&& x.code == "severity-med-plus"@ ==> x.message == text::decimal(x.metric_ids.len())
                + " metric(s) reached "@ + x.severity.variant_name()
                + " on diff-actionable findings after policy"@
            &&& x.code == "finding-advisory"@ ==> x.message == text::decimal(x.metric_ids.len())
                + " metric(s) worth reporting that do not stop the line"@
            &&& (x.code == "policy-change"@ || x.code == "policy-change-loosening"@) && (
            ctx.policy_change matches Some(c) && c.justification is Some) ==> meaning::mentions(
                x.message,
                told_of(ctx.policy_change->Some_0.justification->Some_0),
            )
            &&& x.code == "engine-unavailable"@ ==> meaning::mentions(
                x.message,
                text::decimal(ctx.engine_failures.len()) + " engine(s) produced no results"@,
            ) && meaning::mentions(x.message, ctx.completeness.lower_variant_name())
            &&& x.code == "change-not-read"@ ==> meaning::mentions(
                x.message,
                text::decimal(ctx.unreadable_paths.len()) + " changed path(s) could not be read"@,
            )
            &&& x.code == "measurement-incomplete"@ ==> meaning::mentions(
                x.message,
                ctx.completeness.lower_variant_name(),
            )
        }),
{
    let all = verdict::all_reasons(results, ctx, iteration);
    let x = all[i];
    let same = |y: ReasonModel| y == x;
    assert(same(all[i]));
    meaning::lemma_parts(results, ctx, iteration, same);
    meaning::lemma_codes();
    meaning::lemma_flag_codes(results, ctx);
    meaning::lemma_suite_codes(results, ctx);
    if let Some(c) = ctx.policy_change {
        if let Some(j) = c.justification {
            lemma_justification_quoted(ctx, j);
        }
    }
    let word = ctx.completeness.lower_variant_name();
    if x.code == "engine-unavailable"@ {
        lemma_failures_counted(ctx);
    }
    if x.code == "change-not-read"@ {
        lemma_unread_counted(ctx);
    }
    if x.code == "measurement-incomplete"@ {
        let tail =
            ": some of what it set out to measure was not measured, and the results say which"@;
        assert(x.message =~= "this measurement is "@ + word + tail);
        meaning::lemma_mentions_itself(word);
        meaning::lemma_mentions("this measurement is "@, word, tail, word);
    }
}

proof fn lemma_failures_counted(ctx: ContextModel)
    requires
        ctx.engine_failures.len() > 0,
    ensures
        ({
            let x = verdict::failure_reasons(ctx)[0];
            &&& meaning::mentions(
                x.message,
                text::decimal(ctx.engine_failures.len()) + " engine(s) produced no results"@,
            )
            &&& meaning::mentions(x.message, ctx.completeness.lower_variant_name())
        }),
{
    let none = Seq::<char>::empty();
    let x = verdict::failure_reasons(ctx)[0];
    let word = ctx.completeness.lower_variant_name();
    let n = text::decimal(ctx.engine_failures.len());
    let short = " engine(s) produced no results"@;
    let long =
        " engine(s) produced no results, so their metrics are absent rather than zero and this record is "@;
    reveal_strlit(" engine(s) produced no results");
    reveal_strlit(
        " engine(s) produced no results, so their metrics are absent rather than zero and this record is ",
    );
    let rest = ": "@ + text::joined(
        ctx.engine_failures.map_values(|f: verdict::EngineFailure| verdict::failure_line(f)),
        "; "@,
    );
    let more = long.skip(short.len() as int);
    assert(long =~= short + more);
    assert(x.message =~= n + long + word + rest);
    assert(x.message =~= none + (n + short) + (more + word + rest));
    meaning::lemma_mentions_itself(n + short);
    meaning::lemma_mentions(none, n + short, more + word + rest, n + short);
    assert(x.message =~= (n + long) + word + rest);
    meaning::lemma_mentions_itself(word);
    meaning::lemma_mentions(n + long, word, rest, word);
}

proof fn lemma_unread_counted(ctx: ContextModel)
    requires
        ctx.unreadable_paths.len() > 0,
    ensures
        meaning::mentions(
            verdict::unread_reasons(ctx)[0].message,
            text::decimal(ctx.unreadable_paths.len()) + " changed path(s) could not be read"@,
        ),
{
    let none = Seq::<char>::empty();
    let x = verdict::unread_reasons(ctx)[0];
    let n = text::decimal(ctx.unreadable_paths.len());
    let short = " changed path(s) could not be read"@;
    let long =
        " changed path(s) could not be read, so no result here describes them and this verdict is about the rest of the change: "@;
    reveal_strlit(" changed path(s) could not be read");
    reveal_strlit(
        " changed path(s) could not be read, so no result here describes them and this verdict is about the rest of the change: ",
    );
    let rest = text::joined(ctx.unreadable_paths, ", "@);
    let more = long.skip(short.len() as int);
    assert(long =~= short + more);
    assert(x.message =~= n + long + rest);
    assert(x.message =~= none + (n + short) + (more + rest));
    meaning::lemma_mentions_itself(n + short);
    meaning::lemma_mentions(none, n + short, more + rest, n + short);
}

/// When a record contradicts itself: exactly when it says `pass` of a change it did not
/// read whole, however few the paths, and whatever else it records.
pub proof fn lemma_a_pass_of_what_was_not_read(record: MeasurementRecord, i: int)
    ensures
        0 <= i < record.unreadable_paths@.len() ==> (verdict::contradicted(record)
            <==> record.verdict.verdict is Pass),
        record.unreadable_paths@.len() == 0 ==> !verdict::contradicted(record),
{
}

} // verus!
