//! The categorical outcome of a measurement.
//!
//! A verdict is one of four words and never a number. Reasons are collected
//! first, each with its own severity and the metrics that drove it. The word
//! follows from what was collected, strongest first:
//!
//! - `escalate_to_human`: the iteration cap has been exceeded and there is still
//!   something to act on. It outranks `block`, because going round again is no
//!   longer the answer.
//! - `block`: a tamper signal fired, a suite failed, a finding reached MED+ after
//!   policy, or policy was loosened without a verified justification.
//! - `advise`: findings worth reporting that do not stop the line.
//! - `pass`: nothing above the advisory floor, whatever the counter says.
pub mod iteration;
pub mod ladder;
pub mod meaning;
pub mod order;
pub mod policy_change;
pub mod policy_laws;
pub mod reason;
pub mod report;
pub mod severity;

use vstd::prelude::*;

use crate::policy::Policy;
use crate::schema::enums::{Completeness, EngineFamily, Severity, TamperSignal, Verdict};
use crate::schema::payload::{
    IterationState, MeasurementRecord, MeasurementResult, MetricValue, ReasonModel, VerdictReason,
    VerdictSummary,
};
use crate::sorting;
use crate::strmap;
use crate::strmap::StrSet;
use crate::text;
use crate::text::same_text;
use policy_change::PolicyChange;

verus! {

/// An engine that was asked to measure and could not.
#[derive(Debug, Clone, PartialEq, Eq)]
pub struct EngineFailure {
    /// Which engine.
    pub engine_id: String,
    /// What it said, in its own words.
    pub reason: String,
}

/// Everything the verdict needs besides the results themselves.
#[derive(Debug, Clone, Copy)]
pub struct VerdictContext<'a> {
    /// Record-level completeness, the weakest of the results'.
    pub completeness: Completeness,
    /// Policy in force. A verifier's copy comes from the base commit.
    pub policy: &'a Policy,
    /// The policy edit inside this change, if there was one.
    pub policy_change: Option<&'a PolicyChange>,
    /// Engines that could not run.
    pub engine_failures: &'a [EngineFailure],
    /// Claim ids the registry loader marked stale.
    pub stale_claim_ids: &'a [String],
    /// True when the iteration counter restarted from unusable state.
    pub iteration_state_recovered: bool,
    /// Claims the engines and the loaded registry grade differently.
    pub registry_skew: &'a [String],
    /// Changed paths nothing could read, so no result describes them.
    pub unreadable_paths: &'a [String],
}

/// What a verdict context says.
pub struct ContextModel {
    pub completeness: Completeness,
    pub policy: Policy,
    pub policy_change: Option<PolicyChange>,
    pub engine_failures: Seq<EngineFailure>,
    pub stale_claim_ids: Seq<Seq<char>>,
    pub iteration_state_recovered: bool,
    pub registry_skew: Seq<Seq<char>>,
    pub unreadable_paths: Seq<Seq<char>>,
}

impl<'a> View for VerdictContext<'a> {
    type V = ContextModel;

    open spec fn view(&self) -> ContextModel {
        ContextModel {
            completeness: self.completeness,
            policy: *self.policy,
            policy_change: match self.policy_change {
                Some(change) => Some(*change),
                None => None,
            },
            engine_failures: self.engine_failures@,
            stale_claim_ids: text::texts(self.stale_claim_ids@),
            iteration_state_recovered: self.iteration_state_recovered,
            registry_skew: text::texts(self.registry_skew@),
            unreadable_paths: text::texts(self.unreadable_paths@),
        }
    }
}

// --- what there is to act on ----------------------------------------------

/// Whether a measurement gives the agent something to act on.
pub open spec fn countable(results: Seq<MeasurementResult>, ctx: ContextModel) -> bool {
    ||| exists|i: int| 0 <= i < results.len() && severity::counts(#[trigger] results[i], ctx)
    ||| (ctx.policy_change matches Some(c) && c.stops())
}

/// Whether this measurement gives the agent something to act on.
///
/// Findings the agent cannot fix inside its own change are exempt, and so is an
/// engine that failed to run or a path that could not be read.
pub fn has_countable_finding(results: &[MeasurementResult], ctx: &VerdictContext) -> (r: bool)
    ensures
        r == countable(results@, ctx@),
{
    let mut i: usize = 0;
    while i < results.len()
        invariant
            i <= results.len(),
            forall|k: int| 0 <= k < i ==> !severity::counts(#[trigger] results@[k], ctx@),
        decreases results.len() - i,
    {
        if severity::counts_toward_iteration(&results[i], ctx) {
            proof {
                assert(severity::counts(results@[i as int], ctx@));
            }
            return true;
        }
        i = i + 1;
    }
    match ctx.policy_change {
        Some(change) => change.stops_the_line(),
        None => false,
    }
}

/// Whether a record's stored verdict contradicts the record's own fields: a
/// change with a path nobody read cannot be a `pass`.
pub open spec fn contradicted(record: MeasurementRecord) -> bool {
    record.unreadable_paths@.len() > 0 && record.verdict.verdict == Verdict::Pass
}

/// Whether a record's stored verdict contradicts the record's own fields.
///
/// The bytes are served exactly as they were written; what a surface must not
/// do is present the stored word as a fact about the change.
pub fn stored_verdict_is_contradicted(record: &MeasurementRecord) -> (r: bool)
    ensures
        r == contradicted(*record),
{
    record.unreadable_paths.len() > 0 && record.verdict.verdict == Verdict::Pass
}

/// The sentence every surface says about a contradicted record.
pub fn contradiction_label(record: &MeasurementRecord) -> (r: String)
    ensures
        r@ == "this record stores `pass` beside "@ + text::decimal(
            record.unreadable_paths@.len(),
        )
            + " changed path(s) it could not read. The two cannot both be true, so the stored word is not a verdict about this change. It is served here unaltered because the record is evidence; re-run `andon measure` on the change to get a verdict that is."@,
{
    let mut out = "this record stores `pass` beside ".to_owned();
    text::push_decimal(&mut out, record.unreadable_paths.len() as u64);
    out.append(
        " changed path(s) it could not read. The two cannot both be true, so the stored word is not a verdict about this change. It is served here unaltered because the record is evidence; re-run `andon measure` on the change to get a verdict that is.",
    );
    out
}

// --- collecting reasons ---------------------------------------------------

/// What a list of reasons says.
pub open spec fn reasons_of(s: Seq<VerdictReason>) -> Seq<ReasonModel> {
    s.map_values(|r: VerdictReason| r@)
}

fn push_reason(
    reasons: &mut Vec<VerdictReason>,
    code: &str,
    severity: Severity,
    message: String,
    metric_ids: Vec<String>,
)
    ensures
        reasons_of(final(reasons)@) == reasons_of(old(reasons)@) + seq![
            ReasonModel {
                code: code@,
                severity,
                message: message@,
                metric_ids: text::texts(metric_ids@),
            },
        ],
{
    reasons.push(VerdictReason { code: code.to_owned(), severity, message, metric_ids });
    proof {
        assert(reasons_of(reasons@) =~= reasons_of(old(reasons)@) + seq![
            ReasonModel {
                code: code@,
                severity,
                message: message@,
                metric_ids: text::texts(metric_ids@),
            },
        ]);
    }
}

/// Whether a result is a finding of its own kind, with its own reason.
pub open spec fn has_own_reason(result: MeasurementResult) -> bool {
    severity::signal_of(result) is Some || severity::suite_failed(result)
}

// --- tamper flags ---

/// The results among the first `n` that are fired tamper flags.
pub open spec fn fired_flags(results: Seq<MeasurementResult>, n: int) -> Seq<MeasurementResult>
    decreases n,
{
    if n <= 0 {
        Seq::empty()
    } else if severity::signal_of(results[n - 1]) is Some {
        fired_flags(results, n - 1).push(results[n - 1])
    } else {
        fired_flags(results, n - 1)
    }
}

/// The order of fired flags: by metric id.
pub open spec fn flag_order() -> spec_fn(MeasurementResult, MeasurementResult) -> bool {
    |a: MeasurementResult, b: MeasurementResult| text::text_less(a.metric_id@, b.metric_id@)
}

/// What a reader is told about a fired flag beyond the fact.
pub open spec fn flag_detail(result: MeasurementResult, ctx: ContextModel) -> Seq<char> {
    if severity::stops(result, ctx) {
        if result.completeness != Completeness::Complete {
            "; the detector read a partial view, so its reported severity is capped and its finding is a lower bound — a firing is still a firing"@
        } else {
            Seq::empty()
        }
    } else {
        match ctx.policy_change {
            Some(change) => match change.justification {
                Some(j) => if severity::signal_of(result) == Some(
                    TamperSignal::ThresholdConfigEdit,
                ) {
                    "; "@ + j.description()
                } else {
                    Seq::empty()
                },
                None => Seq::empty(),
            },
            None => Seq::empty(),
        }
    }
}

/// The reason a fired flag gives. Blocking is keyed on the flag, so the reason
/// is critical even where the result's own severity was capped.
pub open spec fn flag_reason(result: MeasurementResult, ctx: ContextModel) -> ReasonModel {
    let blocking = severity::stops(result, ctx);
    ReasonModel {
        code: if blocking {
            reason::TAMPER_SIGNAL@
        } else {
            reason::TAMPER_SIGNAL_ADVISORY@
        },
        severity: if blocking {
            Severity::Critical
        } else {
            result.severity
        },
        message: result.metric_id@ + " fired: "@ + (if blocking {
            "the line stops"@
        } else {
            "reported, advisory by policy"@
        }) + flag_detail(result, ctx),
        metric_ids: seq![result.metric_id@],
    }
}

/// One reason per fired detector, in metric order.
pub open spec fn flag_reasons(
    results: Seq<MeasurementResult>,
    ctx: ContextModel,
) -> Seq<ReasonModel> {
    sorting::sorted(fired_flags(results, results.len() as int), flag_order()).map_values(
        |r: MeasurementResult| flag_reason(r, ctx),
    )
}

fn one_id(id: &String) -> (r: Vec<String>)
    ensures
        text::texts(r@) == seq![id@],
{
    let r = vec![id.clone()];
    proof {
        assert(text::texts(r@) =~= seq![id@]);
    }
    r
}

fn push_flag_reason(
    reasons: &mut Vec<VerdictReason>,
    result: &MeasurementResult,
    ctx: &VerdictContext,
)
    ensures
        reasons_of(final(reasons)@) == reasons_of(old(reasons)@) + seq![
            flag_reason(*result, ctx@),
        ],
{
    let blocking = severity::stops_the_line(result, ctx);
    let mut message = result.metric_id.clone();
    message.append(" fired: ");
    if blocking {
        message.append("the line stops");
    } else {
        message.append("reported, advisory by policy");
    }
    let ghost bare = message@;
    proof {
        assert(bare + Seq::<char>::empty() =~= bare);
    }
    // A threshold edit that did not stop the line did so for a reason somebody
    // can go and read.
    if !blocking {
        if let Some(change) = ctx.policy_change {
            if let Some(justification) = &change.justification {
                if let Some(signal) = severity::fired_signal(result) {
                    if signal == TamperSignal::ThresholdConfigEdit {
                        let mut detail = "; ".to_owned();
                        detail.append(justification.describe().as_str());
                        message.append(detail.as_str());
                    }
                }
            }
        }
    }
    // Without this a reader sees a low severity beside a blocking verdict and
    // reads it as a defect.
    if blocking && result.completeness != Completeness::Complete {
        message.append(
            "; the detector read a partial view, so its reported severity is capped and its finding is a lower bound — a firing is still a firing",
        );
    }
    let code = if blocking {
        reason::TAMPER_SIGNAL
    } else {
        reason::TAMPER_SIGNAL_ADVISORY
    };
    let level = if blocking {
        Severity::Critical
    } else {
        result.severity
    };
    proof {
        assert(message@ == flag_reason(*result, ctx@).message);
    }
    push_reason(reasons, code, level, message, one_id(&result.metric_id));
}

fn push_flag_reasons(
    reasons: &mut Vec<VerdictReason>,
    results: &[MeasurementResult],
    ctx: &VerdictContext,
)
    ensures
        reasons_of(final(reasons)@) == reasons_of(old(reasons)@) + flag_reasons(results@, ctx@),
{
    let ghost start = reasons_of(reasons@);
    let ghost f = |r: &MeasurementResult| *r;
    let ghost lt = |a: &MeasurementResult, b: &MeasurementResult|
        text::text_less(a.metric_id@, b.metric_id@);
    let mut fired: Vec<&MeasurementResult> = Vec::new();
    let mut i: usize = 0;
    proof {
        assert(fired@.map_values(f) =~= fired_flags(results@, 0));
    }
    while i < results.len()
        invariant
            i <= results.len(),
            f == (|r: &MeasurementResult| *r),
            fired@.map_values(f) == fired_flags(results@, i as int),
        decreases results.len() - i,
    {
        let ghost before = fired@;
        if severity::fired_signal(&results[i]).is_some() {
            fired.push(&results[i]);
        }
        proof {
            assert(fired@.map_values(f) =~= fired_flags(results@, i + 1));
        }
        i = i + 1;
    }
    let ghost unsorted = fired@;
    let less = |a: &&MeasurementResult, b: &&MeasurementResult| -> (r: bool)
        ensures
            r == text::text_less(a.metric_id@, b.metric_id@),
        { text::text_before(a.metric_id.as_str(), b.metric_id.as_str()) };
    let ordered = sorting::stable_sort(fired, less, Ghost(lt));
    let ghost goal = flag_reasons(results@, ctx@);
    proof {
        sorting::lemma_sorted_map(unsorted, f, lt, flag_order());
        sorting::lemma_sorted_keeps_items(unsorted, lt);
        let s = sorting::sorted(fired_flags(results@, results@.len() as int), flag_order());
        assert(s == ordered@.map_values(f));
        assert(goal.len() == ordered@.len());
        assert forall|k: int| 0 <= k < ordered@.len() implies goal[k] == flag_reason(
            *ordered@[k],
            ctx@,
        ) by {
            assert(s[k] == f(ordered@[k]));
        }
        assert(start + goal.take(0) =~= start);
    }
    let mut k: usize = 0;
    while k < ordered.len()
        invariant
            k <= ordered.len(),
            goal.len() == ordered@.len(),
            forall|j: int| 0 <= j < ordered@.len() ==> goal[j] == flag_reason(*ordered@[j], ctx@),
            reasons_of(reasons@) == start + goal.take(k as int),
        decreases ordered.len() - k,
    {
        push_flag_reason(reasons, ordered[k], ctx);
        proof {
            assert(start + goal.take(k + 1) =~= start + goal.take(k as int) + seq![goal[k as int]]);
        }
        k = k + 1;
    }
    proof {
        assert(goal.take(k as int) =~= goal);
    }
}

// --- the failed test suite ---

/// How the suite failed, as the first outcome sentence from `i` on says it.
pub open spec fn suite_outcome_from(results: Seq<MeasurementResult>, i: int) -> Seq<char>
    decreases results.len() - i,
{
    if i < 0 || i >= results.len() {
        "exited non-zero"@
    } else if results[i].family == EngineFamily::Tests && results[i].metric_id@
        == severity::SUITE_OUTCOME_METRIC@ {
        match results[i].value {
            MetricValue::Text(t) => t@,
            _ => "exited non-zero"@,
        }
    } else {
        suite_outcome_from(results, i + 1)
    }
}

fn suite_outcome(results: &[MeasurementResult]) -> (r: String)
    ensures
        r@ == suite_outcome_from(results@, 0),
{
    let mut i: usize = 0;
    while i < results.len()
        invariant
            i <= results.len(),
            suite_outcome_from(results@, 0) == suite_outcome_from(results@, i as int),
        decreases results.len() - i,
    {
        if results[i].family == EngineFamily::Tests && same_text(
            results[i].metric_id.as_str(),
            severity::SUITE_OUTCOME_METRIC,
        ) {
            return match &results[i].value {
                MetricValue::Text(t) => t.clone(),
                _ => "exited non-zero".to_owned(),
            };
        }
        i = i + 1;
    }
    "exited non-zero".to_owned()
}

/// The reason a failed suite gives.
pub open spec fn suite_reason(
    result: MeasurementResult,
    outcome: Seq<char>,
    ctx: ContextModel,
) -> ReasonModel {
    let blocking = severity::stops(result, ctx);
    ReasonModel {
        code: if blocking {
            reason::TEST_FAILURE@
        } else {
            reason::TEST_FAILURE_ADVISORY@
        },
        severity: if blocking {
            Severity::Critical
        } else {
            result.severity
        },
        message: "the user test command failed ("@ + outcome + "): "@ + (if blocking {
            "the line stops"@
        } else {
            "reported; policy does not block on test failure"@
        }),
        metric_ids: seq![result.metric_id@],
    }
}

/// One reason per failed-suite flag among the first `n` results, in order.
pub open spec fn suite_reasons(
    results: Seq<MeasurementResult>,
    ctx: ContextModel,
    n: int,
) -> Seq<ReasonModel>
    decreases n,
{
    if n <= 0 {
        Seq::empty()
    } else if severity::suite_failed(results[n - 1]) {
        suite_reasons(results, ctx, n - 1).push(
            suite_reason(results[n - 1], suite_outcome_from(results, 0), ctx),
        )
    } else {
        suite_reasons(results, ctx, n - 1)
    }
}

fn push_suite_reasons(
    reasons: &mut Vec<VerdictReason>,
    results: &[MeasurementResult],
    ctx: &VerdictContext,
)
    ensures
        reasons_of(final(reasons)@) == reasons_of(old(reasons)@) + suite_reasons(
            results@,
            ctx@,
            results@.len() as int,
        ),
{
    let ghost start = reasons_of(reasons@);
    let mut i: usize = 0;
    proof {
        assert(start + suite_reasons(results@, ctx@, 0) =~= start);
    }
    while i < results.len()
        invariant
            i <= results.len(),
            reasons_of(reasons@) == start + suite_reasons(results@, ctx@, i as int),
        decreases results.len() - i,
    {
        let result = &results[i];
        if severity::fired_suite_failure(result) {
            let blocking = severity::stops_the_line(result, ctx);
            let outcome = suite_outcome(results);
            let mut message = "the user test command failed (".to_owned();
            message.append(outcome.as_str());
            message.append("): ");
            if blocking {
                message.append("the line stops");
            } else {
                message.append("reported; policy does not block on test failure");
            }
            let code = if blocking {
                reason::TEST_FAILURE
            } else {
                reason::TEST_FAILURE_ADVISORY
            };
            let level = if blocking {
                Severity::Critical
            } else {
                result.severity
            };
            push_reason(reasons, code, level, message, one_id(&result.metric_id));
            proof {
                assert(start + suite_reasons(results@, ctx@, i + 1) =~= start + suite_reasons(
                    results@,
                    ctx@,
                    i as int,
                ) + seq![suite_reason(*result, outcome@, ctx@)]);
            }
        }
        i = i + 1;
    }
}

// --- metric findings ---

/// The metric ids of the results among the first `n` that `keep` keeps: once
/// each, in order.
pub open spec fn ids_where(
    results: Seq<MeasurementResult>,
    keep: spec_fn(MeasurementResult) -> bool,
    n: int,
) -> Seq<(Seq<char>, ())>
    decreases n,
{
    if n <= 0 {
        Seq::empty()
    } else if keep(results[n - 1]) {
        strmap::inserted(ids_where(results, keep, n - 1), results[n - 1].metric_id@, ())
    } else {
        ids_where(results, keep, n - 1)
    }
}

/// The keys of a set, in order.
pub open spec fn key_list(rows: Seq<(Seq<char>, ())>) -> Seq<Seq<char>> {
    rows.map_values(|row: (Seq<char>, ())| row.0)
}

/// The strings of a set, in order.
pub fn listed(set: &StrSet) -> (r: Vec<String>)
    ensures
        text::texts(r@) == key_list(set@),
{
    let n = set.len();
    let mut out: Vec<String> = Vec::new();
    let mut i: usize = 0;
    while i < n
        invariant
            i <= n,
            n == set@.len(),
            out@.len() == i,
            forall|k: int| 0 <= k < i ==> (#[trigger] out@[k])@ == set@[k].0,
        decreases n - i,
    {
        out.push(set.key_at(i).clone());
        i = i + 1;
    }
    proof {
        assert(text::texts(out@) =~= key_list(set@));
    }
    out
}

/// Whether a result is an ordinary finding that stops the line.
pub open spec fn blocks_plainly(ctx: ContextModel) -> spec_fn(MeasurementResult) -> bool {
    |r: MeasurementResult| !has_own_reason(r) && severity::stops(r, ctx)
}

/// Whether a result is an ordinary finding that does not stop the line.
pub open spec fn advises_plainly(ctx: ContextModel) -> spec_fn(MeasurementResult) -> bool {
    |r: MeasurementResult|
        !has_own_reason(r) && !severity::stops(r, ctx) && r.severity.rank() > Severity::Info.rank()
}

/// The metric ids of ordinary findings that stop the line.
pub open spec fn blocking_ids(results: Seq<MeasurementResult>, ctx: ContextModel) -> Seq<
    Seq<char>,
> {
    key_list(ids_where(results, blocks_plainly(ctx), results.len() as int))
}

/// The metric ids of ordinary findings that do not stop the line.
pub open spec fn advisory_ids(results: Seq<MeasurementResult>, ctx: ContextModel) -> Seq<
    Seq<char>,
> {
    key_list(ids_where(results, advises_plainly(ctx), results.len() as int))
}

/// Sorted, deduplicated metric ids of the results `keep` keeps.
fn metric_ids<F: Fn(&MeasurementResult) -> bool>(
    results: &[MeasurementResult],
    keep: F,
    Ghost(kept): Ghost<spec_fn(MeasurementResult) -> bool>,
) -> (r: Vec<String>)
    requires
        forall|x: &MeasurementResult| #[trigger] keep.requires((x,)),
        forall|x: &MeasurementResult, b: bool| #[trigger] keep.ensures((x,), b) ==> b == kept(*x),
    ensures
        text::texts(r@) == key_list(ids_where(results@, kept, results@.len() as int)),
{
    let mut ids = StrSet::new();
    let mut i: usize = 0;
    proof {
        assert(ids@ =~= Seq::empty());
    }
    while i < results.len()
        invariant
            i <= results.len(),
            forall|x: &MeasurementResult| #[trigger] keep.requires((x,)),
            forall|x: &MeasurementResult, b: bool| #[trigger]
                keep.ensures((x,), b) ==> b == kept(*x),
            ids@ == ids_where(results@, kept, i as int),
        decreases results.len() - i,
    {
        if keep(&results[i]) {
            ids.insert(results[i].metric_id.clone(), ());
        }
        i = i + 1;
    }
    listed(&ids)
}

/// The strongest severity among the first `n` results naming any of these
/// metrics.
pub open spec fn strongest_named(
    results: Seq<MeasurementResult>,
    ids: Seq<Seq<char>>,
    n: int,
) -> Severity
    decreases n,
{
    if n <= 0 {
        Severity::Info
    } else if ids.contains(results[n - 1].metric_id@) {
        strongest_named(results, ids, n - 1).stronger(results[n - 1].severity)
    } else {
        strongest_named(results, ids, n - 1)
    }
}

/// The strongest severity among the results naming any of these metrics.
fn worst_severity(results: &[MeasurementResult], ids: &Vec<String>) -> (r: Severity)
    ensures
        r == strongest_named(results@, text::texts(ids@), results@.len() as int),
{
    let mut worst = Severity::Info;
    let mut i: usize = 0;
    while i < results.len()
        invariant
            i <= results.len(),
            worst == strongest_named(results@, text::texts(ids@), i as int),
        decreases results.len() - i,
    {
        if text::holds_text(ids.as_slice(), results[i].metric_id.as_str()) {
            worst = worst.raised_to(results[i].severity);
        }
        i = i + 1;
    }
    worst
}

/// The reasons ordinary findings give.
pub open spec fn finding_reasons(
    results: Seq<MeasurementResult>,
    ctx: ContextModel,
) -> Seq<ReasonModel> {
    let blocking = blocking_ids(results, ctx);
    let advisory = advisory_ids(results, ctx);
    let worst = strongest_named(results, blocking, results.len() as int);
    let first = if blocking.len() == 0 {
        Seq::empty()
    } else {
        seq![
            ReasonModel {
                code: reason::SEVERITY_MED_PLUS@,
                severity: worst,
                message: text::decimal(blocking.len()) + " metric(s) reached "@
                    + worst.variant_name() + " on diff-actionable findings after policy"@,
                metric_ids: blocking,
            },
        ]
    };
    let second = if advisory.len() == 0 {
        Seq::empty()
    } else {
        seq![
            ReasonModel {
                code: reason::FINDING_ADVISORY@,
                severity: strongest_named(results, advisory, results.len() as int),
                message: text::decimal(advisory.len())
                    + " metric(s) worth reporting that do not stop the line"@,
                metric_ids: advisory,
            },
        ]
    };
    first + second
}

fn push_finding_reasons(
    reasons: &mut Vec<VerdictReason>,
    results: &[MeasurementResult],
    ctx: &VerdictContext,
)
    ensures
        reasons_of(final(reasons)@) == reasons_of(old(reasons)@) + finding_reasons(results@, ctx@),
{
    let ghost start = reasons_of(reasons@);
    let blocks = |r: &MeasurementResult| -> (b: bool)
        ensures
            b == (!has_own_reason(*r) && severity::stops(*r, ctx@)),
        {
            severity::fired_signal(r).is_none() && !severity::fired_suite_failure(r)
                && severity::stops_the_line(r, ctx)
        };
    let blocking = metric_ids(results, blocks, Ghost(blocks_plainly(ctx@)));
    proof {
        assert(text::texts(blocking@).len() == blocking@.len());
        assert(start + Seq::<ReasonModel>::empty() =~= start);
    }
    if blocking.len() > 0 {
        let worst = worst_severity(results, &blocking);
        let mut message = text::decimal_text(blocking.len() as u64);
        message.append(" metric(s) reached ");
        message.append(worst.name());
        message.append(" on diff-actionable findings after policy");
        push_reason(reasons, reason::SEVERITY_MED_PLUS, worst, message, blocking);
    }
    let advises = |r: &MeasurementResult| -> (b: bool)
        ensures
            b == (!has_own_reason(*r) && !severity::stops(*r, ctx@) && r.severity.rank()
                > Severity::Info.rank()),
        {
            severity::fired_signal(r).is_none() && !severity::fired_suite_failure(r)
                && !severity::stops_the_line(r, ctx) && r.severity.level() > Severity::Info.level()
        };
    let advisory = metric_ids(results, advises, Ghost(advises_plainly(ctx@)));
    proof {
        assert(text::texts(advisory@).len() == advisory@.len());
    }
    if advisory.len() > 0 {
        let worst = worst_severity(results, &advisory);
        let mut message = text::decimal_text(advisory.len() as u64);
        message.append(" metric(s) worth reporting that do not stop the line");
        push_reason(reasons, reason::FINDING_ADVISORY, worst, message, advisory);
    }
    proof {
        assert(reasons_of(reasons@) =~= start + finding_reasons(results@, ctx@));
    }
}

// --- policy edits ---

/// Each delta as a reader sees it.
pub open spec fn described(deltas: Seq<policy_change::DeltaModel>) -> Seq<Seq<char>> {
    deltas.map_values(|d: policy_change::DeltaModel| d.description())
}

/// The reasons a policy edit gives.
pub open spec fn edit_reasons(change: PolicyChange) -> Seq<ReasonModel> {
    let deltas = policy_change::deltas_of(change.deltas@);
    let loosened = text::joined(described(policy_change::loosening(deltas)), "; "@);
    let cited = match change.justification {
        Some(j) => "; "@ + j.description(),
        None => Seq::empty(),
    };
    let edited = ReasonModel {
        code: reason::POLICY_CHANGE@,
        severity: Severity::Low,
        message: "policy edited in this change: "@ + text::joined(described(deltas), "; "@) + cited,
        metric_ids: Seq::empty(),
    };
    let loosening = ReasonModel {
        code: reason::POLICY_CHANGE_LOOSENING@,
        severity: Severity::High,
        message: match change.justification {
            Some(j) =>
            "policy loosened and the justification offered has not been checked: "@ + loosened
                + "; "@ + j.description(),
            None => "policy loosened with no ledgered justification: "@ + loosened,
        },
        metric_ids: Seq::empty(),
    };
    if change.deltas@.len() == 0 {
        Seq::empty()
    } else if change.stops() {
        seq![edited, loosening]
    } else {
        seq![edited]
    }
}

fn no_ids() -> (r: Vec<String>)
    ensures
        text::texts(r@) == Seq::<Seq<char>>::empty(),
{
    let r: Vec<String> = Vec::new();
    proof {
        assert(text::texts(r@) =~= Seq::<Seq<char>>::empty());
    }
    r
}

fn describe_all(deltas: &Vec<policy_change::PolicyDelta>) -> (r: Vec<String>)
    ensures
        text::texts(r@) == described(policy_change::deltas_of(deltas@)),
{
    let mut out: Vec<String> = Vec::new();
    let mut i: usize = 0;
    while i < deltas.len()
        invariant
            i <= deltas.len(),
            out@.len() == i,
            forall|k: int| 0 <= k < i ==> (#[trigger] out@[k])@ == deltas@[k]@.description(),
        decreases deltas.len() - i,
    {
        out.push(deltas[i].describe());
        i = i + 1;
    }
    proof {
        assert(text::texts(out@) =~= described(policy_change::deltas_of(deltas@)));
    }
    out
}

fn describe_loosenings(change: &PolicyChange) -> (r: Vec<String>)
    ensures
        text::texts(r@) == described(
            policy_change::loosening(policy_change::deltas_of(change.deltas@)),
        ),
{
    let loosened = change.loosenings();
    let ghost goal = policy_change::loosening(policy_change::deltas_of(change.deltas@));
    let mut out: Vec<String> = Vec::new();
    let mut i: usize = 0;
    proof {
        assert(goal.len() == loosened@.len());
        assert forall|k: int| 0 <= k < loosened@.len() implies goal[k] == loosened@[k]@ by {
            assert(loosened@.map_values(|d: &policy_change::PolicyDelta| d@)[k] == loosened@[k]@);
        }
    }
    while i < loosened.len()
        invariant
            i <= loosened.len(),
            goal.len() == loosened@.len(),
            forall|k: int| 0 <= k < loosened@.len() ==> goal[k] == loosened@[k]@,
            out@.len() == i,
            forall|k: int| 0 <= k < i ==> (#[trigger] out@[k])@ == goal[k].description(),
        decreases loosened.len() - i,
    {
        out.push(loosened[i].describe());
        i = i + 1;
    }
    proof {
        assert(text::texts(out@) =~= described(goal));
    }
    out
}

fn push_edit_reasons(reasons: &mut Vec<VerdictReason>, change: &PolicyChange)
    ensures
        reasons_of(final(reasons)@) == reasons_of(old(reasons)@) + edit_reasons(*change),
{
    let ghost start = reasons_of(reasons@);
    if change.is_empty() {
        proof {
            assert(start + Seq::<ReasonModel>::empty() =~= start);
        }
        return ;
    }
    let deltas = describe_all(&change.deltas);
    let mut message = "policy edited in this change: ".to_owned();
    message.append(text::join(deltas.as_slice(), "; ").as_str());
    // The justification rides on every policy-change reason, verified or not, so
    // a reader can see that a loosening had been excused and by what.
    match &change.justification {
        Some(j) => {
            let mut cited = "; ".to_owned();
            cited.append(j.describe().as_str());
            message.append(cited.as_str());
        },
        None => {
            proof {
                assert(message@ + Seq::<char>::empty() =~= message@);
            }
        },
    }
    push_reason(reasons, reason::POLICY_CHANGE, Severity::Low, message, no_ids());
    if change.stops_the_line() {
        let loosened = describe_loosenings(change);
        let list = text::join(loosened.as_slice(), "; ");
        let why = match &change.justification {
            Some(unverified) => {
                let mut why =
                    "policy loosened and the justification offered has not been checked: ".to_owned();
                why.append(list.as_str());
                why.append("; ");
                why.append(unverified.describe().as_str());
                why
            },
            None => {
                let mut why = "policy loosened with no ledgered justification: ".to_owned();
                why.append(list.as_str());
                why
            },
        };
        push_reason(reasons, reason::POLICY_CHANGE_LOOSENING, Severity::High, why, no_ids());
    }
    proof {
        assert(reasons_of(reasons@) =~= start + edit_reasons(*change));
    }
}

// --- what the measurement did not cover ---

/// A failure as it is listed.
pub open spec fn failure_line(f: EngineFailure) -> Seq<char> {
    f.engine_id@ + ": "@ + f.reason@
}

/// The reason failed engines give. Never blocking: an engine that failed is not
/// evidence against the change.
pub open spec fn failure_reasons(ctx: ContextModel) -> Seq<ReasonModel> {
    if ctx.engine_failures.len() == 0 {
        Seq::empty()
    } else {
        seq![
            ReasonModel {
                code: reason::ENGINE_UNAVAILABLE@,
                severity: Severity::Medium,
                message: text::decimal(ctx.engine_failures.len())
                    + " engine(s) produced no results, so their metrics are absent rather than zero and this record is "@
                    + ctx.completeness.lower_variant_name() + ": "@ + text::joined(
                    ctx.engine_failures.map_values(|f: EngineFailure| failure_line(f)),
                    "; "@,
                ),
                metric_ids: Seq::empty(),
            },
        ]
    }
}

/// The reason unread paths give. Severity above `Info` is what lifts the verdict
/// off `pass`, and nothing here blocks: nothing was found, because nothing was
/// read.
pub open spec fn unread_reasons(ctx: ContextModel) -> Seq<ReasonModel> {
    if ctx.unreadable_paths.len() == 0 {
        Seq::empty()
    } else {
        seq![
            ReasonModel {
                code: reason::CHANGE_NOT_READ@,
                severity: Severity::Medium,
                message: text::decimal(ctx.unreadable_paths.len())
                    + " changed path(s) could not be read, so no result here describes them and this verdict is about the rest of the change: "@
                    + text::joined(ctx.unreadable_paths, ", "@),
                metric_ids: Seq::empty(),
            },
        ]
    }
}

fn push_coverage_reasons(reasons: &mut Vec<VerdictReason>, ctx: &VerdictContext)
    ensures
        reasons_of(final(reasons)@) == reasons_of(old(reasons)@) + failure_reasons(ctx@)
            + unread_reasons(ctx@),
{
    let ghost start = reasons_of(reasons@);
    if ctx.engine_failures.len() > 0 {
        let mut detail: Vec<String> = Vec::new();
        let mut i: usize = 0;
        while i < ctx.engine_failures.len()
            invariant
                i <= ctx.engine_failures.len(),
                detail@.len() == i,
                forall|k: int|
                    0 <= k < i ==> (#[trigger] detail@[k])@ == failure_line(
                        ctx.engine_failures@[k],
                    ),
            decreases ctx.engine_failures.len() - i,
        {
            let mut line = ctx.engine_failures[i].engine_id.clone();
            line.append(": ");
            line.append(ctx.engine_failures[i].reason.as_str());
            detail.push(line);
            i = i + 1;
        }
        proof {
            assert(text::texts(detail@) =~= ctx.engine_failures@.map_values(
                |f: EngineFailure| failure_line(f),
            ));
        }
        let mut message = text::decimal_text(ctx.engine_failures.len() as u64);
        message.append(
            " engine(s) produced no results, so their metrics are absent rather than zero and this record is ",
        );
        message.append(ctx.completeness.lower_name());
        message.append(": ");
        message.append(text::join(detail.as_slice(), "; ").as_str());
        push_reason(reasons, reason::ENGINE_UNAVAILABLE, Severity::Medium, message, no_ids());
    }
    proof {
        assert(reasons_of(reasons@) =~= start + failure_reasons(ctx@));
    }
    if ctx.unreadable_paths.len() > 0 {
        let mut message = text::decimal_text(ctx.unreadable_paths.len() as u64);
        message.append(
            " changed path(s) could not be read, so no result here describes them and this verdict is about the rest of the change: ",
        );
        message.append(text::join(ctx.unreadable_paths, ", ").as_str());
        push_reason(reasons, reason::CHANGE_NOT_READ, Severity::Medium, message, no_ids());
    }
    proof {
        assert(reasons_of(reasons@) =~= start + failure_reasons(ctx@) + unread_reasons(ctx@));
    }
}

// --- notices ---

/// Whether a result is reported and stands on a stale claim.
pub open spec fn cites_stale(r: MeasurementResult, stale: Seq<Seq<char>>) -> bool {
    (r.severity.rank() > Severity::Info.rank() || severity::signal_of(r) is Some) && stale.contains(
        r.claim_id@,
    )
}

/// The stale claims that reported findings among the first `n` results cite:
/// once each, in order.
pub open spec fn stale_cited(
    results: Seq<MeasurementResult>,
    stale: Seq<Seq<char>>,
    n: int,
) -> Seq<(Seq<char>, ())>
    decreases n,
{
    if n <= 0 {
        Seq::empty()
    } else if cites_stale(results[n - 1], stale) {
        strmap::inserted(stale_cited(results, stale, n - 1), results[n - 1].claim_id@, ())
    } else {
        stale_cited(results, stale, n - 1)
    }
}

/// Stale claims that a *reported* finding actually cites.
fn cited_stale_claims(results: &[MeasurementResult], stale: &[String]) -> (r: Vec<String>)
    ensures
        text::texts(r@) == key_list(
            stale_cited(results@, text::texts(stale@), results@.len() as int),
        ),
{
    let mut cited = StrSet::new();
    let mut i: usize = 0;
    proof {
        assert(cited@ =~= Seq::empty());
    }
    while i < results.len()
        invariant
            i <= results.len(),
            cited@ == stale_cited(results@, text::texts(stale@), i as int),
        decreases results.len() - i,
    {
        let result = &results[i];
        let reported = result.severity.level() > Severity::Info.level() || severity::fired_signal(
            result,
        ).is_some();
        if reported && text::holds_text(stale, result.claim_id.as_str()) {
            cited.insert(result.claim_id.clone(), ());
        }
        i = i + 1;
    }
    listed(&cited)
}

/// The notices: stale evidence, registry skew, an incomplete measurement, a
/// counter that restarted.
pub open spec fn notice_reasons(
    results: Seq<MeasurementResult>,
    ctx: ContextModel,
) -> Seq<ReasonModel> {
    let stale = key_list(
        stale_cited(results, ctx.stale_claim_ids, results.len() as int),
    );
    let first = if stale.len() == 0 {
        Seq::empty()
    } else {
        seq![
            ReasonModel {
                code: reason::EVIDENCE_STALE@,
                severity: Severity::Info,
                message: "reported findings stand on "@ + text::decimal(stale.len())
                    + " claim(s) past their re-review date: "@ + text::joined(stale, ", "@),
                metric_ids: Seq::empty(),
            },
        ]
    };
    let second = if ctx.registry_skew.len() == 0 {
        Seq::empty()
    } else {
        seq![
            ReasonModel {
                code: reason::EVIDENCE_REGISTRY_SKEW@,
                severity: Severity::Info,
                message: "this binary and the registry in the checkout grade "@ + text::decimal(
                    ctx.registry_skew.len(),
                )
                    + " claim(s) differently, and the ceilings below were computed from the binary's own: "@
                    + text::joined(ctx.registry_skew, "; "@),
                metric_ids: Seq::empty(),
            },
        ]
    };
    let third = if ctx.completeness == Completeness::Complete {
        Seq::empty()
    } else {
        seq![
            ReasonModel {
                code: reason::MEASUREMENT_INCOMPLETE@,
                severity: Severity::Info,
                message: "this measurement is "@ + ctx.completeness.lower_variant_name()
                    + ": some of what it set out to measure was not measured, and the results say which"@,
                metric_ids: Seq::empty(),
            },
        ]
    };
    let fourth = if !ctx.iteration_state_recovered {
        Seq::empty()
    } else {
        seq![
            ReasonModel {
                code: reason::ITERATION_STATE_RESET@,
                severity: Severity::Info,
                message:
                    "the per-branch iteration counter restarted: its stored state could not be used, so this run counts as the first pass"@,
                metric_ids: Seq::empty(),
            },
        ]
    };
    first + second + third + fourth
}

fn push_notice_reasons(
    reasons: &mut Vec<VerdictReason>,
    results: &[MeasurementResult],
    ctx: &VerdictContext,
)
    ensures
        reasons_of(final(reasons)@) == reasons_of(old(reasons)@) + notice_reasons(results@, ctx@),
{
    let ghost start = reasons_of(reasons@);
    let stale = cited_stale_claims(results, ctx.stale_claim_ids);
    proof {
        assert(text::texts(stale@).len() == stale@.len());
    }
    if stale.len() > 0 {
        let mut message = "reported findings stand on ".to_owned();
        text::push_decimal(&mut message, stale.len() as u64);
        message.append(" claim(s) past their re-review date: ");
        message.append(text::join(stale.as_slice(), ", ").as_str());
        push_reason(reasons, reason::EVIDENCE_STALE, Severity::Info, message, no_ids());
    }
    if ctx.registry_skew.len() > 0 {
        let mut message = "this binary and the registry in the checkout grade ".to_owned();
        text::push_decimal(&mut message, ctx.registry_skew.len() as u64);
        message.append(
            " claim(s) differently, and the ceilings below were computed from the binary's own: ",
        );
        message.append(text::join(ctx.registry_skew, "; ").as_str());
        push_reason(reasons, reason::EVIDENCE_REGISTRY_SKEW, Severity::Info, message, no_ids());
    }
    if ctx.completeness != Completeness::Complete {
        let mut message = "this measurement is ".to_owned();
        message.append(ctx.completeness.lower_name());
        message.append(
            ": some of what it set out to measure was not measured, and the results say which",
        );
        push_reason(reasons, reason::MEASUREMENT_INCOMPLETE, Severity::Info, message, no_ids());
    }
    if ctx.iteration_state_recovered {
        push_reason(
            reasons,
            reason::ITERATION_STATE_RESET,
            Severity::Info,
            "the per-branch iteration counter restarted: its stored state could not be used, so this run counts as the first pass".to_owned(),
            no_ids(),
        );
    }
    proof {
        assert(reasons_of(reasons@) =~= start + notice_reasons(results@, ctx@));
    }
}

// --- the four words -------------------------------------------------------

/// Whether the cap has been passed with something still to act on.
pub open spec fn escalates(
    results: Seq<MeasurementResult>,
    ctx: ContextModel,
    iteration: IterationState,
) -> bool {
    iteration.escalated && countable(results, ctx)
}

/// The reason a passed cap gives.
pub open spec fn cap_reasons(
    results: Seq<MeasurementResult>,
    ctx: ContextModel,
    iteration: IterationState,
) -> Seq<ReasonModel> {
    if escalates(results, ctx, iteration) {
        seq![
            ReasonModel {
                code: reason::ITERATION_CAP@,
                severity: Severity::High,
                message: "pass "@ + text::decimal(iteration.count as nat) + " of a cap of "@
                    + text::decimal(iteration.cap as nat)
                    + " on this branch with findings still open; a human decides from here"@,
                metric_ids: Seq::empty(),
            },
        ]
    } else {
        Seq::empty()
    }
}

/// Every reason, in the order they are reported.
pub open spec fn all_reasons(
    results: Seq<MeasurementResult>,
    ctx: ContextModel,
    iteration: IterationState,
) -> Seq<ReasonModel> {
    flag_reasons(results, ctx) + suite_reasons(results, ctx, results.len() as int)
        + finding_reasons(results, ctx) + (match ctx.policy_change {
        Some(change) => edit_reasons(change),
        None => Seq::empty(),
    }) + failure_reasons(ctx) + unread_reasons(ctx) + notice_reasons(results, ctx) + cap_reasons(
        results,
        ctx,
        iteration,
    )
}

/// Whether something stops the line: a result, or a policy edit.
pub open spec fn blocks(results: Seq<MeasurementResult>, ctx: ContextModel) -> bool {
    ||| exists|i: int| 0 <= i < results.len() && severity::stops(#[trigger] results[i], ctx)
    ||| (ctx.policy_change matches Some(c) && c.stops())
}

/// Whether some reason is above the advisory floor.
pub open spec fn worth_saying(reasons: Seq<ReasonModel>) -> bool {
    exists|i: int|
        0 <= i < reasons.len() && (#[trigger] reasons[i]).severity.rank() > Severity::Info.rank()
}

/// The word a measurement earns.
pub open spec fn verdict_of(
    results: Seq<MeasurementResult>,
    ctx: ContextModel,
    iteration: IterationState,
) -> Verdict {
    if escalates(results, ctx, iteration) {
        Verdict::EscalateToHuman
    } else if blocks(results, ctx) {
        Verdict::Block
    } else if worth_saying(all_reasons(results, ctx, iteration)) {
        Verdict::Advise
    } else {
        Verdict::Pass
    }
}

fn any_stops(results: &[MeasurementResult], ctx: &VerdictContext) -> (r: bool)
    ensures
        r == blocks(results@, ctx@),
{
    let mut i: usize = 0;
    while i < results.len()
        invariant
            i <= results.len(),
            forall|k: int| 0 <= k < i ==> !severity::stops(#[trigger] results@[k], ctx@),
        decreases results.len() - i,
    {
        if severity::stops_the_line(&results[i], ctx) {
            proof {
                assert(severity::stops(results@[i as int], ctx@));
            }
            return true;
        }
        i = i + 1;
    }
    match ctx.policy_change {
        Some(change) => change.stops_the_line(),
        None => false,
    }
}

fn any_worth_saying(reasons: &Vec<VerdictReason>) -> (r: bool)
    ensures
        r == worth_saying(reasons_of(reasons@)),
{
    let mut i: usize = 0;
    while i < reasons.len()
        invariant
            i <= reasons.len(),
            forall|k: int|
                0 <= k < i ==> (#[trigger] reasons_of(reasons@)[k]).severity.rank()
                    <= Severity::Info.rank(),
        decreases reasons.len() - i,
    {
        proof {
            assert(reasons_of(reasons@)[i as int] == reasons@[i as int]@);
        }
        if reasons[i].severity.level() > Severity::Info.level() {
            return true;
        }
        i = i + 1;
    }
    false
}

/// Reach a verdict.
///
/// `results` must already have been through [`severity::apply`]: the severities
/// read here are the ones policy left.
pub fn evaluate(
    results: &[MeasurementResult],
    ctx: &VerdictContext,
    iteration: IterationState,
) -> (r: VerdictSummary)
    ensures
        r.verdict == verdict_of(results@, ctx@, iteration),
        reasons_of(r.reasons@) == all_reasons(results@, ctx@, iteration),
        r.iteration == iteration,
{
    let mut reasons: Vec<VerdictReason> = Vec::new();
    proof {
        assert(reasons_of(reasons@) =~= Seq::empty());
        assert(Seq::<ReasonModel>::empty() + flag_reasons(results@, ctx@) =~= flag_reasons(
            results@,
            ctx@,
        ));
    }
    push_flag_reasons(&mut reasons, results, ctx);
    push_suite_reasons(&mut reasons, results, ctx);
    push_finding_reasons(&mut reasons, results, ctx);
    match ctx.policy_change {
        Some(change) => push_edit_reasons(&mut reasons, change),
        None => {
            proof {
                assert(reasons_of(reasons@) + Seq::<ReasonModel>::empty() =~= reasons_of(reasons@));
            }
        },
    }
    push_coverage_reasons(&mut reasons, ctx);
    push_notice_reasons(&mut reasons, results, ctx);
    let escalate = iteration.escalated && has_countable_finding(results, ctx);
    if escalate {
        let mut message = "pass ".to_owned();
        text::push_decimal(&mut message, iteration.count as u64);
        message.append(" of a cap of ");
        text::push_decimal(&mut message, iteration.cap as u64);
        message.append(" on this branch with findings still open; a human decides from here");
        push_reason(&mut reasons, reason::ITERATION_CAP, Severity::High, message, no_ids());
    }
    proof {
        assert(reasons_of(reasons@) =~= all_reasons(results@, ctx@, iteration));
    }
    let verdict = if escalate {
        Verdict::EscalateToHuman
    } else if any_stops(results, ctx) {
        Verdict::Block
    } else if any_worth_saying(&reasons) {
        Verdict::Advise
    } else {
        Verdict::Pass
    };
    VerdictSummary { verdict, reasons, iteration }
}

// --- laws -----------------------------------------------------------------

/// Whether a reason is one that stops the line.
pub open spec fn is_blocking_code(code: Seq<char>) -> bool {
    code == reason::TAMPER_SIGNAL@ || code == reason::TEST_FAILURE@ || code
        == reason::SEVERITY_MED_PLUS@ || code == reason::POLICY_CHANGE_LOOSENING@
}

/// Whether some reason has a code.
pub open spec fn says(reasons: Seq<ReasonModel>, code: Seq<char>) -> bool {
    exists|i: int| 0 <= i < reasons.len() && (#[trigger] reasons[i]).code == code
}

proof fn lemma_says_within(a: Seq<ReasonModel>, b: Seq<ReasonModel>, code: Seq<char>)
    ensures
        says(a, code) ==> says(a + b, code),
        says(b, code) ==> says(a + b, code),
{
    if says(a, code) {
        let i = choose|i: int| 0 <= i < a.len() && (#[trigger] a[i]).code == code;
        assert((a + b)[i].code == code);
    }
    if says(b, code) {
        let i = choose|i: int| 0 <= i < b.len() && (#[trigger] b[i]).code == code;
        assert((a + b)[a.len() + i].code == code);
    }
}

proof fn lemma_flag_listed(results: Seq<MeasurementResult>, n: int, k: int)
    requires
        0 <= k < n <= results.len(),
        severity::signal_of(results[k]) is Some,
    ensures
        fired_flags(results, n).contains(results[k]),
    decreases n,
{
    let before = fired_flags(results, n - 1);
    let all = fired_flags(results, n);
    if k == n - 1 {
        assert(all[all.len() - 1] == results[k]);
    } else {
        lemma_flag_listed(results, n - 1, k);
        let p = choose|p: int| 0 <= p < before.len() && before[p] == results[k];
        assert(all[p] == results[k]);
    }
}

proof fn lemma_flag_said(results: Seq<MeasurementResult>, ctx: ContextModel, k: int)
    requires
        0 <= k < results.len(),
        severity::signal_of(results[k]) is Some,
        severity::stops(results[k], ctx),
    ensures
        says(flag_reasons(results, ctx), reason::TAMPER_SIGNAL@),
{
    broadcast use vstd::seq_lib::group_to_multiset_ensures;

    let fired = fired_flags(results, results.len() as int);
    lemma_flag_listed(results, results.len() as int, k);
    sorting::lemma_sorted_keeps_items(fired, flag_order());
    let ordered = sorting::sorted(fired, flag_order());
    assert(fired.to_multiset().count(results[k]) > 0);
    assert(ordered.to_multiset().count(results[k]) > 0);
    assert(ordered.contains(results[k]));
    let p = choose|p: int| 0 <= p < ordered.len() && ordered[p] == results[k];
    assert(flag_reasons(results, ctx)[p] == flag_reason(results[k], ctx));
}

proof fn lemma_suite_said(results: Seq<MeasurementResult>, ctx: ContextModel, n: int, k: int)
    requires
        0 <= k < n <= results.len(),
        severity::suite_failed(results[k]),
        severity::stops(results[k], ctx),
    ensures
        says(suite_reasons(results, ctx, n), reason::TEST_FAILURE@),
    decreases n,
{
    let all = suite_reasons(results, ctx, n);
    if k == n - 1 {
        assert(all[all.len() - 1].code == reason::TEST_FAILURE@);
    } else {
        lemma_suite_said(results, ctx, n - 1, k);
        let before = suite_reasons(results, ctx, n - 1);
        let p = choose|p: int|
            0 <= p < before.len() && (#[trigger] before[p]).code == reason::TEST_FAILURE@;
        assert(all[p].code == reason::TEST_FAILURE@);
    }
}

proof fn lemma_ids_kept(
    results: Seq<MeasurementResult>,
    keep: spec_fn(MeasurementResult) -> bool,
    n: int,
    k: int,
)
    requires
        0 <= k < n <= results.len(),
        keep(results[k]),
    ensures
        ids_where(results, keep, n).len() > 0,
    decreases n,
{
    if k < n - 1 {
        lemma_ids_kept(results, keep, n - 1, k);
    }
    if keep(results[n - 1]) {
        let before = ids_where(results, keep, n - 1);
        let id = results[n - 1].metric_id@;
        lemma_ids_ascend(results, keep, n - 1);
        strmap::lemma_inserted(before, id, ());
        strmap::lemma_lookup_iff(strmap::inserted(before, id, ()), id);
    }
}

proof fn lemma_ids_ascend(
    results: Seq<MeasurementResult>,
    keep: spec_fn(MeasurementResult) -> bool,
    n: int,
)
    requires
        n <= results.len(),
    ensures
        strmap::keys_ascend(ids_where(results, keep, n)),
    decreases n,
{
    if n > 0 {
        lemma_ids_ascend(results, keep, n - 1);
        strmap::lemma_inserted(
            ids_where(results, keep, n - 1),
            results[n - 1].metric_id@,
            (),
        );
    }
}

proof fn lemma_a_block_is_said(
    results: Seq<MeasurementResult>,
    ctx: ContextModel,
    iteration: IterationState,
)
    requires
        blocks(results, ctx),
    ensures
        exists|i: int|
            0 <= i < all_reasons(results, ctx, iteration).len() && is_blocking_code(
                (#[trigger] all_reasons(results, ctx, iteration)[i]).code,
            ),
{
    let flags = flag_reasons(results, ctx);
    let suites = suite_reasons(results, ctx, results.len() as int);
    let findings = finding_reasons(results, ctx);
    let edits = match ctx.policy_change {
        Some(change) => edit_reasons(change),
        None => Seq::empty(),
    };
    let failures = failure_reasons(ctx);
    let unread = unread_reasons(ctx);
    let notices = notice_reasons(results, ctx);
    let cap = cap_reasons(results, ctx, iteration);
    let code = if exists|i: int|
        0 <= i < results.len() && severity::stops(#[trigger] results[i], ctx) {
        let k = choose|i: int|
            0 <= i < results.len() && severity::stops(#[trigger] results[i], ctx);
        if severity::signal_of(results[k]) is Some {
            lemma_flag_said(results, ctx, k);
            reason::TAMPER_SIGNAL@
        } else if severity::suite_failed(results[k]) {
            lemma_suite_said(results, ctx, results.len() as int, k);
            reason::TEST_FAILURE@
        } else {
            lemma_ids_kept(results, blocks_plainly(ctx), results.len() as int, k);
            assert(findings[0].code == reason::SEVERITY_MED_PLUS@);
            reason::SEVERITY_MED_PLUS@
        }
    } else {
        assert(edits[1].code == reason::POLICY_CHANGE_LOOSENING@);
        reason::POLICY_CHANGE_LOOSENING@
    };
    assert(says(flags, code) || says(suites, code) || says(findings, code) || says(edits, code));
    lemma_says_within(flags, suites, code);
    lemma_says_within(flags + suites, findings, code);
    lemma_says_within(flags + suites + findings, edits, code);
    lemma_says_within(flags + suites + findings + edits, failures, code);
    lemma_says_within(flags + suites + findings + edits + failures, unread, code);
    lemma_says_within(flags + suites + findings + edits + failures + unread, notices, code);
    lemma_says_within(
        flags + suites + findings + edits + failures + unread + notices,
        cap,
        code,
    );
    let all = all_reasons(results, ctx, iteration);
    let p = choose|i: int| 0 <= i < all.len() && (#[trigger] all[i]).code == code;
    assert(is_blocking_code(all[p].code));
}

/// Whether a blocking reason among these would be one too many.
spec fn none_blocking(reasons: Seq<ReasonModel>) -> bool {
    forall|i: int| 0 <= i < reasons.len() ==> !is_blocking_code((#[trigger] reasons[i]).code)
}

proof fn lemma_advisory_codes()
    ensures
        !is_blocking_code(reason::TAMPER_SIGNAL_ADVISORY@),
        !is_blocking_code(reason::TEST_FAILURE_ADVISORY@),
        !is_blocking_code(reason::FINDING_ADVISORY@),
        !is_blocking_code(reason::POLICY_CHANGE@),
        !is_blocking_code(reason::ENGINE_UNAVAILABLE@),
        !is_blocking_code(reason::CHANGE_NOT_READ@),
        !is_blocking_code(reason::EVIDENCE_STALE@),
        !is_blocking_code(reason::EVIDENCE_REGISTRY_SKEW@),
        !is_blocking_code(reason::MEASUREMENT_INCOMPLETE@),
        !is_blocking_code(reason::ITERATION_STATE_RESET@),
        !is_blocking_code(reason::ITERATION_CAP@),
{
    reveal_strlit("tamper-signal");
    reveal_strlit("test-failure");
    reveal_strlit("severity-med-plus");
    reveal_strlit("policy-change-loosening");
    reveal_strlit("tamper-signal-advisory");
    reveal_strlit("test-failure-advisory");
    reveal_strlit("finding-advisory");
    reveal_strlit("policy-change");
    reveal_strlit("engine-unavailable");
    reveal_strlit("change-not-read");
    reveal_strlit("evidence-stale");
    reveal_strlit("evidence-registry-skew");
    reveal_strlit("measurement-incomplete");
    reveal_strlit("iteration-state-reset");
    reveal_strlit("iteration-cap");
    assert(reason::TAMPER_SIGNAL@.len() == 13);
    assert(reason::TEST_FAILURE@.len() == 12);
    assert(reason::SEVERITY_MED_PLUS@.len() == 17);
    assert(reason::POLICY_CHANGE_LOOSENING@.len() == 23);
    assert(reason::TAMPER_SIGNAL_ADVISORY@.len() == 22);
    assert(reason::TEST_FAILURE_ADVISORY@.len() == 21);
    assert(reason::POLICY_CHANGE@[0] == 'p' && reason::TAMPER_SIGNAL@[0] == 't');
    assert(reason::ITERATION_CAP@[0] == 'i');
}

proof fn lemma_suites_advise(results: Seq<MeasurementResult>, ctx: ContextModel, n: int)
    requires
        0 <= n <= results.len(),
        !blocks(results, ctx),
    ensures
        none_blocking(suite_reasons(results, ctx, n)),
    decreases n,
{
    if n > 0 {
        lemma_suites_advise(results, ctx, n - 1);
        lemma_advisory_codes();
        assert(!severity::stops(results[n - 1], ctx));
    }
}

proof fn lemma_flags_advise(results: Seq<MeasurementResult>, ctx: ContextModel)
    requires
        !blocks(results, ctx),
    ensures
        none_blocking(flag_reasons(results, ctx)),
{
    broadcast use vstd::seq_lib::group_to_multiset_ensures;

    let fired = fired_flags(results, results.len() as int);
    let ordered = sorting::sorted(fired, flag_order());
    sorting::lemma_sorted_keeps_items(fired, flag_order());
    lemma_advisory_codes();
    assert forall|i: int| 0 <= i < ordered.len() implies !is_blocking_code(
        (#[trigger] flag_reasons(results, ctx)[i]).code,
    ) by {
        assert(ordered.contains(ordered[i]));
        assert(fired.to_multiset().count(ordered[i]) > 0);
        assert(fired.contains(ordered[i]));
        let p = choose|p: int| 0 <= p < fired.len() && fired[p] == ordered[i];
        lemma_fired_from(results, results.len() as int, p);
        let k = choose|k: int| 0 <= k < results.len() && results[k] == fired[p];
        assert(!severity::stops(results[k], ctx));
    }
}

proof fn lemma_fired_from(results: Seq<MeasurementResult>, n: int, p: int)
    requires
        0 <= n <= results.len(),
        0 <= p < fired_flags(results, n).len(),
    ensures
        results.contains(fired_flags(results, n)[p]),
        severity::signal_of(fired_flags(results, n)[p]) is Some,
    decreases n,
{
    if n > 0 {
        let before = fired_flags(results, n - 1);
        if p < before.len() {
            lemma_fired_from(results, n - 1, p);
            assert(fired_flags(results, n)[p] == before[p]);
        } else {
            assert(fired_flags(results, n)[p] == results[n - 1]);
        }
    }
}

proof fn lemma_no_plain_blocks(results: Seq<MeasurementResult>, ctx: ContextModel, n: int)
    requires
        0 <= n <= results.len(),
        !blocks(results, ctx),
    ensures
        ids_where(results, blocks_plainly(ctx), n).len() == 0,
    decreases n,
{
    if n > 0 {
        lemma_no_plain_blocks(results, ctx, n - 1);
        assert(!severity::stops(results[n - 1], ctx));
    }
}

/// The line stops exactly when a reason that stops it is there: no block goes
/// unexplained, and no reason threatens one that does not come.
pub proof fn lemma_every_block_is_explained(
    results: Seq<MeasurementResult>,
    ctx: ContextModel,
    iteration: IterationState,
)
    ensures
        blocks(results, ctx) <==> exists|i: int|
            0 <= i < all_reasons(results, ctx, iteration).len() && is_blocking_code(
                (#[trigger] all_reasons(results, ctx, iteration)[i]).code,
            ),
{
    if blocks(results, ctx) {
        lemma_a_block_is_said(results, ctx, iteration);
    } else {
        lemma_flags_advise(results, ctx);
        lemma_suites_advise(results, ctx, results.len() as int);
        lemma_no_plain_blocks(results, ctx, results.len() as int);
        lemma_advisory_codes();
        let edits = match ctx.policy_change {
            Some(change) => edit_reasons(change),
            None => Seq::empty(),
        };
        assert(none_blocking(finding_reasons(results, ctx)));
        assert(none_blocking(edits));
        assert(none_blocking(failure_reasons(ctx)));
        assert(none_blocking(unread_reasons(ctx)));
        assert(none_blocking(notice_reasons(results, ctx)));
        assert(none_blocking(cap_reasons(results, ctx, iteration)));
        assert(none_blocking(all_reasons(results, ctx, iteration)));
    }
}

/// A run that leaves nothing to act on is never escalated, however far past the
/// cap the branch is.
pub proof fn lemma_clean_run_never_escalates(
    results: Seq<MeasurementResult>,
    ctx: ContextModel,
    iteration: IterationState,
)
    requires
        !countable(results, ctx),
    ensures
        verdict_of(results, ctx, iteration) != Verdict::EscalateToHuman,
        cap_reasons(results, ctx, iteration).len() == 0,
{
}

/// Past the cap, a run that leaves something to act on is escalated, whether or
/// not it would also block, and says so.
pub proof fn lemma_escalation_outranks_block(
    results: Seq<MeasurementResult>,
    ctx: ContextModel,
    iteration: IterationState,
)
    requires
        iteration.escalated,
        countable(results, ctx),
    ensures
        verdict_of(results, ctx, iteration) == Verdict::EscalateToHuman,
        all_reasons(results, ctx, iteration).last().code == reason::ITERATION_CAP@,
{
}

/// A change with a path nobody read, or with an engine that could not run, never
/// passes.
pub proof fn lemma_unanswered_change_never_passes(
    results: Seq<MeasurementResult>,
    ctx: ContextModel,
    iteration: IterationState,
)
    requires
        ctx.unreadable_paths.len() > 0 || ctx.engine_failures.len() > 0,
    ensures
        verdict_of(results, ctx, iteration) != Verdict::Pass,
{
    let before = flag_reasons(results, ctx) + suite_reasons(results, ctx, results.len() as int)
        + finding_reasons(results, ctx) + (match ctx.policy_change {
        Some(change) => edit_reasons(change),
        None => Seq::empty(),
    });
    let failures = failure_reasons(ctx);
    let unread = unread_reasons(ctx);
    let all = all_reasons(results, ctx, iteration);
    if ctx.engine_failures.len() > 0 {
        assert(all[before.len() as int] == failures[0]);
    } else {
        assert(all[before.len() as int] == unread[0]);
    }
}

/// A pass says nothing above the advisory floor, and nothing in it stops the
/// line.
pub proof fn lemma_pass_means_nothing_to_say(
    results: Seq<MeasurementResult>,
    ctx: ContextModel,
    iteration: IterationState,
)
    requires
        verdict_of(results, ctx, iteration) == Verdict::Pass,
    ensures
        !blocks(results, ctx),
        forall|i: int|
            0 <= i < all_reasons(results, ctx, iteration).len() ==> (
            #[trigger] all_reasons(results, ctx, iteration)[i]).severity == Severity::Info,
{
    let all = all_reasons(results, ctx, iteration);
    assert forall|i: int| 0 <= i < all.len() implies (#[trigger] all[i]).severity
        == Severity::Info by {
        assert(all[i].severity.rank() <= Severity::Info.rank());
    }
}

/// Whether there is something to act on depends on the results, the policy and
/// the policy edit, and on nothing else a run knows.
pub proof fn lemma_what_there_is_to_act_on(
    results: Seq<MeasurementResult>,
    a: ContextModel,
    b: ContextModel,
)
    requires
        a.policy == b.policy,
        a.policy_change == b.policy_change,
    ensures
        countable(results, a) == countable(results, b),
        blocks(results, a) == blocks(results, b),
{
    assert forall|r: MeasurementResult| #[trigger] severity::counts(r, a) == severity::counts(
        r,
        b,
    ) by {}
    assert forall|r: MeasurementResult| #[trigger] severity::stops(r, a) == severity::stops(
        r,
        b,
    ) by {}
    if countable(results, a) && !(a.policy_change matches Some(c) && c.stops()) {
        let i = choose|i: int| 0 <= i < results.len() && severity::counts(#[trigger] results[i], a);
        assert(severity::counts(results[i], b));
    }
    if countable(results, b) && !(b.policy_change matches Some(c) && c.stops()) {
        let i = choose|i: int| 0 <= i < results.len() && severity::counts(#[trigger] results[i], b);
        assert(severity::counts(results[i], a));
    }
    if blocks(results, a) && !(a.policy_change matches Some(c) && c.stops()) {
        let i = choose|i: int| 0 <= i < results.len() && severity::stops(#[trigger] results[i], a);
        assert(severity::stops(results[i], b));
    }
    if blocks(results, b) && !(b.policy_change matches Some(c) && c.stops()) {
        let i = choose|i: int| 0 <= i < results.len() && severity::stops(#[trigger] results[i], b);
        assert(severity::stops(results[i], a));
    }
}

/// The reasons above the advisory floor, in order.
pub open spec fn above_info(reasons: Seq<ReasonModel>) -> Seq<ReasonModel> {
    reasons.filter(|r: ReasonModel| r.severity.rank() > Severity::Info.rank())
}

/// What reasons say apart from their wording.
pub open spec fn outlines(reasons: Seq<ReasonModel>) -> Seq<(Seq<char>, Severity, Seq<Seq<char>>)> {
    reasons.map_values(|r: ReasonModel| (r.code, r.severity, r.metric_ids))
}

proof fn lemma_same_suites(
    results: Seq<MeasurementResult>,
    a: ContextModel,
    b: ContextModel,
    n: int,
)
    requires
        a.policy == b.policy,
        a.policy_change == b.policy_change,
    ensures
        suite_reasons(results, a, n) == suite_reasons(results, b, n),
    decreases n,
{
    if n > 0 {
        lemma_same_suites(results, a, b, n - 1);
    }
}

/// What results and a policy edit say depends on no more of a context than the
/// policy and the edit.
proof fn lemma_same_findings(results: Seq<MeasurementResult>, a: ContextModel, b: ContextModel)
    requires
        a.policy == b.policy,
        a.policy_change == b.policy_change,
    ensures
        flag_reasons(results, a) == flag_reasons(results, b),
        suite_reasons(results, a, results.len() as int) == suite_reasons(
            results,
            b,
            results.len() as int,
        ),
        finding_reasons(results, a) == finding_reasons(results, b),
{
    assert(flag_reasons(results, a) =~= flag_reasons(results, b));
    lemma_same_suites(results, a, b, results.len() as int);
    assert(blocks_plainly(a) =~= blocks_plainly(b));
    assert(advises_plainly(a) =~= advises_plainly(b));
}

proof fn lemma_none_kept(reasons: Seq<ReasonModel>)
    requires
        forall|i: int| 0 <= i < reasons.len() ==> (#[trigger] reasons[i]).severity == Severity::Info,
    ensures
        above_info(reasons) == Seq::<ReasonModel>::empty(),
    decreases reasons.len(),
{
    reveal(Seq::filter);
    if reasons.len() > 0 {
        lemma_none_kept(reasons.drop_last());
    }
}

proof fn lemma_notices_stay_below(results: Seq<MeasurementResult>, ctx: ContextModel)
    ensures
        above_info(notice_reasons(results, ctx)) == Seq::<ReasonModel>::empty(),
{
    let notices = notice_reasons(results, ctx);
    assert forall|i: int| 0 <= i < notices.len() implies (#[trigger] notices[i]).severity
        == Severity::Info by {}
    lemma_none_kept(notices);
}

proof fn lemma_kept_apart(a: Seq<ReasonModel>, b: Seq<ReasonModel>)
    ensures
        above_info(a + b) == above_info(a) + above_info(b),
        outlines(a + b) == outlines(a) + outlines(b),
{
    Seq::filter_distributes_over_add(
        a,
        b,
        |r: ReasonModel| r.severity.rank() > Severity::Info.rank(),
    );
    assert(outlines(a + b) =~= outlines(a) + outlines(b));
}

/// Notices leave no mark above the advisory floor.
proof fn lemma_above_info(
    results: Seq<MeasurementResult>,
    ctx: ContextModel,
    iteration: IterationState,
)
    ensures
        above_info(all_reasons(results, ctx, iteration)) == above_info(
            flag_reasons(results, ctx) + suite_reasons(results, ctx, results.len() as int)
                + finding_reasons(results, ctx) + (match ctx.policy_change {
                Some(change) => edit_reasons(change),
                None => Seq::empty(),
            }),
        ) + above_info(failure_reasons(ctx)) + above_info(unread_reasons(ctx)) + above_info(
            cap_reasons(results, ctx, iteration),
        ),
{
    let first = flag_reasons(results, ctx) + suite_reasons(results, ctx, results.len() as int)
        + finding_reasons(results, ctx) + (match ctx.policy_change {
        Some(change) => edit_reasons(change),
        None => Seq::empty(),
    });
    let failures = failure_reasons(ctx);
    let unread = unread_reasons(ctx);
    let notices = notice_reasons(results, ctx);
    let cap = cap_reasons(results, ctx, iteration);
    lemma_kept_apart(first, failures);
    lemma_kept_apart(first + failures, unread);
    lemma_kept_apart(first + failures + unread, notices);
    lemma_kept_apart(first + failures + unread + notices, cap);
    lemma_notices_stay_below(results, ctx);
    assert(above_info(first + failures + unread) + Seq::<ReasonModel>::empty() =~= above_info(
        first + failures + unread,
    ));
}

proof fn lemma_worth_saying(reasons: Seq<ReasonModel>)
    ensures
        worth_saying(reasons) <==> above_info(reasons).len() > 0,
    decreases reasons.len(),
{
    reveal(Seq::filter);
    if reasons.len() > 0 {
        let rest = reasons.drop_last();
        lemma_worth_saying(rest);
        if worth_saying(rest) {
            let i = choose|i: int|
                0 <= i < rest.len() && (#[trigger] rest[i]).severity.rank()
                    > Severity::Info.rank();
            assert(reasons[i] == rest[i]);
        }
        if worth_saying(reasons) {
            let i = choose|i: int|
                0 <= i < reasons.len() && (#[trigger] reasons[i]).severity.rank()
                    > Severity::Info.rank();
            if i < rest.len() {
                assert(rest[i] == reasons[i]);
            }
        }
    }
}

proof fn lemma_outlines(
    first: Seq<ReasonModel>,
    x: Seq<ReasonModel>,
    y: Seq<ReasonModel>,
    unread: Seq<ReasonModel>,
    cap: Seq<ReasonModel>,
)
    requires
        outlines(x) == outlines(y),
        x.len() == y.len(),
    ensures
        outlines(first + x + unread + cap) == outlines(first + y + unread + cap),
        (first + x + unread + cap).len() == (first + y + unread + cap).len(),
{
    lemma_kept_apart(first, x);
    lemma_kept_apart(first, y);
    lemma_kept_apart(first + x, unread);
    lemma_kept_apart(first + y, unread);
    lemma_kept_apart(first + x + unread, cap);
    lemma_kept_apart(first + y + unread, cap);
}

proof fn lemma_same_failures(a: ContextModel, b: ContextModel)
    requires
        a.engine_failures == b.engine_failures,
    ensures
        above_info(failure_reasons(a)).len() == above_info(failure_reasons(b)).len(),
        outlines(above_info(failure_reasons(a))) == outlines(above_info(failure_reasons(b))),
        a.engine_failures.len() == 0 || a.completeness == b.completeness ==> above_info(
            failure_reasons(a),
        ) == above_info(failure_reasons(b)),
{
    reveal_with_fuel(Seq::filter, 2);
    let x = failure_reasons(a);
    let y = failure_reasons(b);
    if a.engine_failures.len() > 0 {
        assert(x.drop_last() =~= Seq::<ReasonModel>::empty());
        assert(y.drop_last() =~= Seq::<ReasonModel>::empty());
        assert(above_info(x) =~= x);
        assert(above_info(y) =~= y);
        assert(outlines(x) =~= outlines(y));
    }
}

proof fn lemma_same_above(
    results: Seq<MeasurementResult>,
    a: ContextModel,
    b: ContextModel,
    iteration: IterationState,
)
    requires
        a.policy == b.policy,
        a.policy_change == b.policy_change,
        a.engine_failures == b.engine_failures,
        a.unreadable_paths == b.unreadable_paths,
    ensures
        above_info(all_reasons(results, a, iteration)).len() == above_info(
            all_reasons(results, b, iteration),
        ).len(),
        outlines(above_info(all_reasons(results, a, iteration))) == outlines(
            above_info(all_reasons(results, b, iteration)),
        ),
        a.engine_failures.len() == 0 || a.completeness == b.completeness ==> above_info(
            all_reasons(results, a, iteration),
        ) == above_info(all_reasons(results, b, iteration)),
{
    lemma_what_there_is_to_act_on(results, a, b);
    lemma_same_findings(results, a, b);
    lemma_above_info(results, a, iteration);
    lemma_above_info(results, b, iteration);
    lemma_same_failures(a, b);
    let first = above_info(
        flag_reasons(results, a) + suite_reasons(results, a, results.len() as int)
            + finding_reasons(results, a) + (match a.policy_change {
            Some(change) => edit_reasons(change),
            None => Seq::empty(),
        }),
    );
    let x = above_info(failure_reasons(a));
    let y = above_info(failure_reasons(b));
    let unread = above_info(unread_reasons(a));
    let cap = above_info(cap_reasons(results, a, iteration));
    assert(unread_reasons(a) == unread_reasons(b));
    assert(cap_reasons(results, a, iteration) == cap_reasons(results, b, iteration));
    assert(above_info(all_reasons(results, a, iteration)) == first + x + unread + cap);
    assert(above_info(all_reasons(results, b, iteration)) == first + y + unread + cap);
    lemma_outlines(first, x, y, unread, cap);
}

/// Two contexts that agree on the policy, the policy edit, the failures and the
/// unread paths give the same verdict and the same reasons above the advisory
/// floor. The reason a failure gives also words the completeness, so where an
/// engine failed the wording is the same where the completeness is.
pub proof fn lemma_what_the_verdict_rests_on(
    results: Seq<MeasurementResult>,
    a: ContextModel,
    b: ContextModel,
    iteration: IterationState,
)
    requires
        a.policy == b.policy,
        a.policy_change == b.policy_change,
        a.engine_failures == b.engine_failures,
        a.unreadable_paths == b.unreadable_paths,
    ensures
        verdict_of(results, a, iteration) == verdict_of(results, b, iteration),
        outlines(above_info(all_reasons(results, a, iteration))) == outlines(
            above_info(all_reasons(results, b, iteration)),
        ),
        a.engine_failures.len() == 0 || a.completeness == b.completeness ==> above_info(
            all_reasons(results, a, iteration),
        ) == above_info(all_reasons(results, b, iteration)),
{
    lemma_what_there_is_to_act_on(results, a, b);
    lemma_worth_saying(all_reasons(results, a, iteration));
    lemma_worth_saying(all_reasons(results, b, iteration));
    lemma_same_above(results, a, b, iteration);
}

} // verus!
