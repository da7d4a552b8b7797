//! What a measurement over partly missing data may still claim.
//!
//! A number computed over a tree the parser gave up on part of is reported, is
//! marked, and never drives MED+.
use vstd::prelude::*;

use crate::schema::enums::{Completeness, Severity};
use crate::schema::payload::MeasurementResult;
use crate::text;

verus! {

/// The line every demoted result carries first.
pub const PARSE_DEGRADED_CAVEAT: &'static str = "anything about the code the parser could not read";

/// How much of a file the parser understood.
#[derive(Debug, Clone, Copy, PartialEq, Eq, Structural)]
pub struct ParseHealth {
    /// Nodes the parser could not make sense of.
    pub error_nodes: u64,
    /// Nodes the parser had to invent.
    pub missing_nodes: u64,
    /// Every node of the tree.
    pub total_nodes: u64,
}

/// Where a completeness stands, weakest first.
pub open spec fn weakness(c: Completeness) -> int {
    match c {
        Completeness::Unwitnessed => 0,
        Completeness::Partial => 1,
        Completeness::ParseDegraded => 2,
        Completeness::Complete => 3,
    }
}

/// Where a completeness stands, weakest first.
pub fn weakness_rank(c: Completeness) -> (r: u8)
    ensures
        r == weakness(c),
{
    match c {
        Completeness::Unwitnessed => 0,
        Completeness::Partial => 1,
        Completeness::ParseDegraded => 2,
        Completeness::Complete => 3,
    }
}

/// The weaker of two.
pub open spec fn weaker(a: Completeness, b: Completeness) -> Completeness {
    if weakness(b) < weakness(a) {
        b
    } else {
        a
    }
}

/// The weakest completeness among the first `n` results; complete where there
/// are none.
pub open spec fn weakest_of(results: Seq<MeasurementResult>, n: int) -> Completeness
    decreases n,
{
    if n <= 0 {
        Completeness::Complete
    } else {
        weaker(weakest_of(results, n - 1), results[n - 1].completeness)
    }
}

/// The weakest completeness among results; complete where there are none.
pub fn weakest(results: &[MeasurementResult]) -> (r: Completeness)
    ensures
        r == weakest_of(results@, results@.len() as int),
{
    let mut found = Completeness::Complete;
    let mut i: usize = 0;
    while i < results.len()
        invariant
            i <= results.len(),
            found == weakest_of(results@, i as int),
        decreases results.len() - i,
    {
        if weakness_rank(results[i].completeness) < weakness_rank(found) {
            found = results[i].completeness;
        }
        i = i + 1;
    }
    found
}

/// The strongest severity a completeness allows.
pub open spec fn ceiling_for(c: Completeness) -> Severity {
    if c == Completeness::Complete {
        Severity::Critical
    } else {
        Severity::Low
    }
}

/// The strongest severity a completeness allows.
pub fn severity_ceiling(c: Completeness) -> (r: Severity)
    ensures
        r == ceiling_for(c),
{
    match c {
        Completeness::Complete => Severity::Critical,
        _ => Severity::Low,
    }
}

impl ParseHealth {
    /// The line a result demoted for this carries.
    pub open spec fn caveat(self) -> Seq<char> {
        PARSE_DEGRADED_CAVEAT@ + " ("@ + text::decimal(self.error_nodes as nat) + " error and "@
            + text::decimal(self.missing_nodes as nat) + " missing of "@ + text::decimal(
            self.total_nodes as nat,
        ) + " nodes)"@
    }
}

/// Mark a result as computed over a partly read file.
///
/// The value and the delta survive untouched: they are what was found in the
/// part that could be read. The severity is capped, and the first thing the
/// result does not predict is what it could not see.
pub fn demote(result: &mut MeasurementResult, health: ParseHealth)
    ensures
        final(result).completeness == Completeness::ParseDegraded,
        final(result).severity == old(result).severity.weaker(Severity::Low),
        text::texts(final(result).evidence.does_not_predict@) == seq![health.caveat()]
            + text::texts(old(result).evidence.does_not_predict@),
        final(result).value == old(result).value,
        final(result).delta == old(result).delta,
        final(result).metric_id == old(result).metric_id,
        final(result).claim_id == old(result).claim_id,
        final(result).engine_id == old(result).engine_id,
        final(result).family == old(result).family,
        final(result).engine_class == old(result).engine_class,
        final(result).metric_class == old(result).metric_class,
        final(result).scope == old(result).scope,
        final(result).measurement_regime == old(result).measurement_regime,
        final(result).deterministic == old(result).deterministic,
        final(result).digest == old(result).digest,
        final(result).freshness == old(result).freshness,
        final(result).evidence.claim_id == old(result).evidence.claim_id,
        final(result).evidence.tier == old(result).evidence.tier,
        final(result).evidence.citation == old(result).evidence.citation,
        final(result).evidence.stale == old(result).evidence.stale,
{
    let mut caveat = PARSE_DEGRADED_CAVEAT.to_owned();
    caveat.append(" (");
    text::push_decimal(&mut caveat, health.error_nodes);
    caveat.append(" error and ");
    text::push_decimal(&mut caveat, health.missing_nodes);
    caveat.append(" missing of ");
    text::push_decimal(&mut caveat, health.total_nodes);
    caveat.append(" nodes)");
    result.completeness = Completeness::ParseDegraded;
    result.severity = result.severity.capped_at(severity_ceiling(Completeness::ParseDegraded));
    let ghost before = result.evidence.does_not_predict@;
    result.evidence.does_not_predict.insert(0, caveat);
    proof {
        assert(text::texts(result.evidence.does_not_predict@) =~= seq![health.caveat()]
            + text::texts(before));
    }
}

// --- laws -----------------------------------------------------------------

/// The weakest completeness is no stronger than any result's, and where there
/// are results, it is one of theirs.
pub proof fn lemma_weakest_is_the_weakest(results: Seq<MeasurementResult>, n: int, i: int)
    requires
        0 <= i < n <= results.len(),
    ensures
        weakness(weakest_of(results, n)) <= weakness(results[i].completeness),
        exists|k: int|
            0 <= k < n && (#[trigger] results[k]).completeness == weakest_of(results, n),
    decreases n,
{
    if n == 1 {
        assert(weakest_of(results, 0) == Completeness::Complete);
        assert(results[0].completeness == weakest_of(results, 1));
    } else {
        lemma_weakest_is_the_weakest(results, n - 1, if i < n - 1 { i } else { 0 });
        let k = choose|k: int|
            0 <= k < n - 1 && (#[trigger] results[k]).completeness == weakest_of(results, n - 1);
        assert(results[k].completeness == weakest_of(results, n) || results[n - 1].completeness
            == weakest_of(results, n));
    }
}

/// Whether some result has this completeness.
pub open spec fn some_are(results: Seq<MeasurementResult>, c: Completeness) -> bool {
    exists|i: int| 0 <= i < results.len() && (#[trigger] results[i]).completeness == c
}

proof fn lemma_found_weakest(results: Seq<MeasurementResult>, n: int)
    requires
        0 <= n <= results.len(),
    ensures
        ({
            let w = weakest_of(results, n);
            let any = |c: Completeness|
                exists|i: int| 0 <= i < n && (#[trigger] results[i]).completeness == c;
            &&& w == Completeness::Unwitnessed <==> any(Completeness::Unwitnessed)
            &&& w == Completeness::Partial <==> any(Completeness::Partial) && !any(
                Completeness::Unwitnessed,
            )
            &&& w == Completeness::ParseDegraded <==> any(Completeness::ParseDegraded) && !any(
                Completeness::Partial,
            ) && !any(Completeness::Unwitnessed)
        }),
    decreases n,
{
    if n > 0 {
        lemma_found_weakest(results, n - 1);
        assert(results[n - 1].completeness == results[n - 1].completeness);
    }
}

/// What the weakest completeness says of results. One nobody could witness makes
/// it unwitnessed; short of that, one that covers only a part makes it partial;
/// short of that, one over a partly read file makes it degraded; and it is
/// complete where every result is.
pub proof fn lemma_what_the_weakest_says(results: Seq<MeasurementResult>)
    ensures
        ({
            let w = weakest_of(results, results.len() as int);
            &&& w == Completeness::Unwitnessed <==> some_are(results, Completeness::Unwitnessed)
            &&& w == Completeness::Partial <==> some_are(results, Completeness::Partial)
                && !some_are(results, Completeness::Unwitnessed)
            &&& w == Completeness::ParseDegraded <==> some_are(results, Completeness::ParseDegraded)
                && !some_are(results, Completeness::Partial) && !some_are(
                results,
                Completeness::Unwitnessed,
            )
            &&& w == Completeness::Complete <==> forall|i: int|
                0 <= i < results.len() ==> (#[trigger] results[i]).completeness
                    == Completeness::Complete
        }),
{
    let n = results.len() as int;
    lemma_found_weakest(results, n);
    let w = weakest_of(results, n);
    assert forall|i: int| 0 <= i < n && w == Completeness::Complete implies (
    #[trigger] results[i]).completeness == Completeness::Complete by {
        assert(results[i].completeness != Completeness::Unwitnessed);
    }
}

/// A result may rank above low exactly when it covers everything it is about.
pub proof fn lemma_only_complete_results_rank_high(c: Completeness)
    ensures
        c == Completeness::Complete ==> ceiling_for(c) == Severity::Critical,
        c != Completeness::Complete ==> ceiling_for(c) == Severity::Low,
{
}

/// What a demoted result says of what it could not see: how many nodes made no sense,
/// how many were missing, and of how many, in that order.
pub proof fn lemma_what_a_demoted_result_says(health: ParseHealth)
    ensures
        health.caveat() == "anything about the code the parser could not read"@ + " ("@
            + text::decimal(health.error_nodes as nat) + " error and "@ + text::decimal(
            health.missing_nodes as nat,
        ) + " missing of "@ + text::decimal(health.total_nodes as nat) + " nodes)"@,
{
}

} // verus!
