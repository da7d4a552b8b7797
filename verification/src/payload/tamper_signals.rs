//! Which tamper signals fired, read back off the results.
//!
//! Derived rather than passed in: a record read back later has results and no
//! engine behind it. A detector's flag is the metric `tamper.<signal>`, with the
//! signal spelled as it is on the wire, so a detector renamed away from its
//! signal fails loudly instead of dropping it.
use vstd::prelude::*;

use crate::schema::enums::{EngineFamily, TamperSignal};
use crate::schema::payload::{MeasurementResult, MetricValue};
use crate::text;
use crate::text::{same_text, text_ends_with};
use crate::verdict::severity;

verus! {

/// Prefix every tamper metric id carries.
pub const TAMPER_METRIC_PREFIX: &'static str = "tamper.";

/// Suffix marking the magnitude half of a detector's pair.
pub const MAGNITUDE_SUFFIX: &'static str = ".magnitude";

/// Whether a result is a detector's fired/not-fired flag: family and value
/// shape, and not a magnitude.
pub open spec fn detector_flag(result: MeasurementResult) -> bool {
    &&& result.family == EngineFamily::Tamper
    &&& result.value is Flag
    &&& !text::ends_in(result.metric_id@, MAGNITUDE_SUFFIX@)
}

/// Whether a result is a detector's fired/not-fired flag.
pub fn is_tamper_flag(result: &MeasurementResult) -> (r: bool)
    ensures
        r == detector_flag(*result),
{
    result.family == EngineFamily::Tamper && matches!(result.value, MetricValue::Flag(_))
        && !text_ends_with(result.metric_id.as_str(), MAGNITUDE_SUFFIX)
}

/// Every signal, in declaration order.
pub open spec fn all_signals() -> Seq<TamperSignal> {
    seq![
        TamperSignal::SuppressionDensity,
        TamperSignal::TestRemoval,
        TamperSignal::CoverageExclusionDrift,
        TamperSignal::AssertionFreeTest,
        TamperSignal::ThresholdConfigEdit,
        TamperSignal::LookupTableBlowup,
        TamperSignal::ParseErrorDelta,
        TamperSignal::BaseFabrication,
    ]
}

/// Position of a signal in declaration order.
pub open spec fn position(signal: TamperSignal) -> int {
    match signal {
        TamperSignal::SuppressionDensity => 0,
        TamperSignal::TestRemoval => 1,
        TamperSignal::CoverageExclusionDrift => 2,
        TamperSignal::AssertionFreeTest => 3,
        TamperSignal::ThresholdConfigEdit => 4,
        TamperSignal::LookupTableBlowup => 5,
        TamperSignal::ParseErrorDelta => 6,
        TamperSignal::BaseFabrication => 7,
    }
}

/// The metric id of a signal's flag.
pub open spec fn flag_metric(signal: TamperSignal) -> Seq<char> {
    TAMPER_METRIC_PREFIX@ + signal.wire_name()
}

/// The signal a metric id names, looking from the signal at `i` on.
pub open spec fn signal_named_from(metric_id: Seq<char>, i: int) -> Option<TamperSignal>
    decreases 8 - i,
{
    if i < 0 || i >= 8 {
        None
    } else if metric_id == flag_metric(all_signals()[i]) {
        Some(all_signals()[i])
    } else {
        signal_named_from(metric_id, i + 1)
    }
}

/// The signal a tamper flag metric names, or `None` when the id names none.
pub open spec fn signal_named(metric_id: Seq<char>) -> Option<TamperSignal> {
    signal_named_from(metric_id, 0)
}

/// Position of a signal in [`TamperSignal`]'s declaration order.
pub fn signal_rank(signal: TamperSignal) -> (r: u8)
    ensures
        r == position(signal),
        r < 8,
        all_signals()[r as int] == signal,
{
    match signal {
        TamperSignal::SuppressionDensity => 0,
        TamperSignal::TestRemoval => 1,
        TamperSignal::CoverageExclusionDrift => 2,
        TamperSignal::AssertionFreeTest => 3,
        TamperSignal::ThresholdConfigEdit => 4,
        TamperSignal::LookupTableBlowup => 5,
        TamperSignal::ParseErrorDelta => 6,
        TamperSignal::BaseFabrication => 7,
    }
}

fn signals() -> (r: Vec<TamperSignal>)
    ensures
        r@ == all_signals(),
{
    let r = vec![
        TamperSignal::SuppressionDensity,
        TamperSignal::TestRemoval,
        TamperSignal::CoverageExclusionDrift,
        TamperSignal::AssertionFreeTest,
        TamperSignal::ThresholdConfigEdit,
        TamperSignal::LookupTableBlowup,
        TamperSignal::ParseErrorDelta,
        TamperSignal::BaseFabrication,
    ];
    proof {
        assert(r@ =~= all_signals());
    }
    r
}

/// The signal a tamper flag metric names, or `None` when the id does not name
/// one.
///
/// `None` is a drift report, not an absence: a metric in the tamper family is
/// spelled in a way [`TamperSignal`] does not know.
pub fn signal_for(metric_id: &str) -> (r: Option<TamperSignal>)
    ensures
        r == signal_named(metric_id@),
{
    let all = signals();
    let mut i: usize = 0;
    while i < all.len()
        invariant
            i <= all.len(),
            all@ == all_signals(),
            signal_named(metric_id@) == signal_named_from(metric_id@, i as int),
        decreases all.len() - i,
    {
        let mut id = TAMPER_METRIC_PREFIX.to_owned();
        id.append(all[i].wire());
        if same_text(metric_id, id.as_str()) {
            return Some(all[i]);
        }
        i = i + 1;
    }
    None
}

/// Whether some result reports this signal as fired.
pub open spec fn fired_somewhere(results: Seq<MeasurementResult>, signal: TamperSignal) -> bool {
    exists|i: int| 0 <= i < results.len() && severity::signal_of(#[trigger] results[i]) == Some(signal)
}

/// The first `n` signals that fired, in declaration order.
pub open spec fn fired_among(results: Seq<MeasurementResult>, n: int) -> Seq<TamperSignal>
    decreases n,
{
    if n <= 0 {
        Seq::empty()
    } else if fired_somewhere(results, all_signals()[n - 1]) {
        fired_among(results, n - 1).push(all_signals()[n - 1])
    } else {
        fired_among(results, n - 1)
    }
}

/// Every signal that fired, once, in declaration order.
pub open spec fn fired_set(results: Seq<MeasurementResult>) -> Seq<TamperSignal> {
    fired_among(results, 8)
}

fn any_fired(results: &[MeasurementResult], signal: TamperSignal) -> (r: bool)
    ensures
        r == fired_somewhere(results@, signal),
{
    let mut i: usize = 0;
    while i < results.len()
        invariant
            i <= results.len(),
            forall|k: int|
                0 <= k < i ==> severity::signal_of(#[trigger] results@[k]) != Some(signal),
        decreases results.len() - i,
    {
        if let Some(fired) = severity::fired_signal(&results[i]) {
            if fired == signal {
                proof {
                    assert(severity::signal_of(results@[i as int]) == Some(signal));
                }
                return true;
            }
        }
        i = i + 1;
    }
    false
}

/// Every signal that fired, deduplicated, in enum order.
///
/// Enum order rather than result order: a list whose order depends on which
/// engine ran first is a record that differs between two honest runs.
pub fn fired_signals(results: &[MeasurementResult]) -> (r: Vec<TamperSignal>)
    ensures
        r@ == fired_set(results@),
{
    let all = signals();
    let mut fired: Vec<TamperSignal> = Vec::new();
    let mut i: usize = 0;
    while i < all.len()
        invariant
            i <= all.len(),
            all@ == all_signals(),
            fired@ == fired_among(results@, i as int),
        decreases all.len() - i,
    {
        if any_fired(results, all[i]) {
            fired.push(all[i]);
        }
        i = i + 1;
    }
    fired
}

// --- laws -----------------------------------------------------------------

proof fn lemma_wire_names_differ(a: TamperSignal, b: TamperSignal)
    requires
        a != b,
    ensures
        a.wire_name() != b.wire_name(),
{
    reveal_strlit("suppression-density");
    reveal_strlit("test-removal");
    reveal_strlit("coverage-exclusion-drift");
    reveal_strlit("assertion-free-test");
    reveal_strlit("threshold-config-edit");
    reveal_strlit("lookup-table-blowup");
    reveal_strlit("parse-error-delta");
    reveal_strlit("base-fabrication");
    if a.wire_name() == b.wire_name() {
        assert(a.wire_name().len() == b.wire_name().len());
        assert(a.wire_name()[0] == b.wire_name()[0]);
    }
}

proof fn lemma_flag_metrics_differ(a: TamperSignal, b: TamperSignal)
    requires
        a != b,
    ensures
        flag_metric(a) != flag_metric(b),
{
    lemma_wire_names_differ(a, b);
    let prefix = TAMPER_METRIC_PREFIX@;
    let n = prefix.len() as int;
    if flag_metric(a) == flag_metric(b) {
        assert(flag_metric(a).skip(n) =~= a.wire_name());
        assert(flag_metric(b).skip(n) =~= b.wire_name());
    }
}

/// The metric a signal's flag is reported under names that signal.
pub proof fn lemma_flags_name_their_signals(signal: TamperSignal)
    ensures
        signal_named(flag_metric(signal)) == Some(signal),
{
    let at = position(signal);
    assert(all_signals()[at] == signal);
    lemma_named_from(signal, 0);
}

proof fn lemma_named_from(signal: TamperSignal, i: int)
    requires
        0 <= i <= position(signal),
    ensures
        signal_named_from(flag_metric(signal), i) == Some(signal),
    decreases position(signal) - i,
{
    assert(all_signals()[position(signal)] == signal);
    if i < position(signal) {
        let other = all_signals()[i];
        assert(position(other) == i);
        lemma_flag_metrics_differ(signal, other);
        lemma_named_from(signal, i + 1);
    }
}

proof fn lemma_fired_among(results: Seq<MeasurementResult>, n: int, signal: TamperSignal)
    requires
        0 <= n <= 8,
    ensures
        fired_among(results, n).contains(signal) <==> (position(signal) < n && fired_somewhere(
            results,
            signal,
        )),
        forall|i: int, j: int|
            0 <= i < j < fired_among(results, n).len() ==> position(
                #[trigger] fired_among(results, n)[i],
            ) < position(#[trigger] fired_among(results, n)[j]),
        forall|i: int|
            0 <= i < fired_among(results, n).len() ==> position(
                #[trigger] fired_among(results, n)[i],
            ) < n,
    decreases n,
{
    if n > 0 {
        lemma_fired_among(results, n - 1, signal);
        let last = all_signals()[n - 1];
        assert(position(last) == n - 1);
        assert(all_signals()[position(signal)] == signal);
        let before = fired_among(results, n - 1);
        let after = fired_among(results, n);
        if before.contains(signal) {
            let p = choose|p: int| 0 <= p < before.len() && before[p] == signal;
            assert(after[p] == signal);
        }
        if fired_somewhere(results, last) {
            assert(after[after.len() - 1] == last);
            if after.contains(signal) && signal != last {
                let p = choose|p: int| 0 <= p < after.len() && after[p] == signal;
                assert(before[p] == signal);
            }
        }
    }
}

/// The list of fired signals holds every signal that fired and no other, each
/// once, in declaration order.
pub proof fn lemma_fired_set_is_exact(results: Seq<MeasurementResult>, signal: TamperSignal)
    ensures
        fired_set(results).contains(signal) <==> fired_somewhere(results, signal),
        forall|i: int, j: int|
            0 <= i < j < fired_set(results).len() ==> position(#[trigger] fired_set(results)[i])
                < position(#[trigger] fired_set(results)[j]),
{
    lemma_fired_among(results, 8, signal);
}

proof fn lemma_same_fired_among(a: Seq<MeasurementResult>, b: Seq<MeasurementResult>, n: int)
    requires
        forall|signal: TamperSignal|
            #[trigger] fired_somewhere(a, signal) == fired_somewhere(b, signal),
    ensures
        fired_among(a, n) == fired_among(b, n),
    decreases n,
{
    if n > 0 {
        lemma_same_fired_among(a, b, n - 1);
    }
}

/// Which signals fired does not depend on the order of the results.
pub proof fn lemma_fired_set_ignores_order(a: Seq<MeasurementResult>, b: Seq<MeasurementResult>)
    requires
        a.to_multiset() =~= b.to_multiset(),
    ensures
        fired_set(a) == fired_set(b),
{
    broadcast use vstd::seq_lib::group_to_multiset_ensures;

    assert forall|signal: TamperSignal|
        #[trigger] fired_somewhere(a, signal) == fired_somewhere(b, signal) by {
        if fired_somewhere(a, signal) {
            let i = choose|i: int|
                0 <= i < a.len() && severity::signal_of(#[trigger] a[i]) == Some(signal);
            assert(a.contains(a[i]));
            assert(b.to_multiset().count(a[i]) > 0);
            assert(b.contains(a[i]));
            let j = choose|j: int| 0 <= j < b.len() && b[j] == a[i];
            assert(severity::signal_of(b[j]) == Some(signal));
        }
        if fired_somewhere(b, signal) {
            let i = choose|i: int|
                0 <= i < b.len() && severity::signal_of(#[trigger] b[i]) == Some(signal);
            assert(b.contains(b[i]));
            assert(a.to_multiset().count(b[i]) > 0);
            assert(a.contains(b[i]));
            let j = choose|j: int| 0 <= j < a.len() && a[j] == b[i];
            assert(severity::signal_of(a[j]) == Some(signal));
        }
    }
    lemma_same_fired_among(a, b, 8);
}

} // verus!
