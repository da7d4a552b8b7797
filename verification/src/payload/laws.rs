//! What holds of every payload that assembly lets through.
use vstd::prelude::*;

use super::{AssembleRequest, AssemblyErrorModel, EngineOutput, Item, PreparedModel};
use crate::canonical;
use crate::engine;
use crate::engine::EngineDescriptor;
use crate::parse_health;
use crate::payload;
use crate::payload::registry_load;
use crate::payload::registry_load::LoadedRegistry;
use crate::payload::tamper_signals;
use crate::policy::Policy;
use crate::registry::ResolvedModel;
use crate::schema::enums::{
    Completeness, EngineFamily, EvidenceTier, RecordKind, Severity, TamperSignal,
};
use crate::schema::payload as schema_payload;
use crate::schema::payload::{CompareContext, MeasurementResult};
use crate::sorting;
use crate::strmap;
use crate::text;
use crate::verdict;
use crate::verdict::iteration::LoopOutcome;
use crate::verdict::ladder::SeverityLadder;
use crate::verdict::meaning;
use crate::verdict::severity;
use crate::verdict::EngineFailure;

verus! {

// --- the order of engines -------------------------------------------------

/// The engine ids of outputs, in order.
spec fn ids_of(engines: Seq<EngineOutput>) -> Seq<Seq<char>> {
    engines.map_values(|e: EngineOutput| e.descriptor.engine_id@)
}

proof fn lemma_same_ids(s: Seq<EngineOutput>, t: Seq<EngineOutput>, n: int)
    requires
        ids_of(s) == ids_of(t),
        n <= s.len(),
    ensures
        payload::output_ids(s, n) == payload::output_ids(t, n),
    decreases n,
{
    assert(ids_of(s).len() == s.len() && ids_of(t).len() == t.len());
    if n > 0 {
        lemma_same_ids(s, t, n - 1);
        assert(ids_of(s)[n - 1] == s[n - 1].descriptor.engine_id@);
        assert(ids_of(t)[n - 1] == t[n - 1].descriptor.engine_id@);
    }
}

proof fn lemma_same_repeats(s: Seq<EngineOutput>, t: Seq<EngineOutput>, i: int)
    requires
        ids_of(s) == ids_of(t),
        0 <= i,
    ensures
        payload::repeated_output(s, i) == payload::repeated_output(t, i),
    decreases s.len() - i,
{
    assert(ids_of(s).len() == s.len() && ids_of(t).len() == t.len());
    if i < s.len() {
        lemma_same_ids(s, t, i);
        assert(ids_of(s)[i] == s[i].descriptor.engine_id@);
        assert(ids_of(t)[i] == t[i].descriptor.engine_id@);
        lemma_same_repeats(s, t, i + 1);
    }
}

proof fn lemma_output_ids(engines: Seq<EngineOutput>, n: int, k: int)
    requires
        0 <= n <= engines.len(),
        0 <= k < n,
    ensures
        strmap::keys_ascend(payload::output_ids(engines, n)),
        strmap::has_key(payload::output_ids(engines, n), engines[k].descriptor.engine_id@),
    decreases n,
{
    let before = payload::output_ids(engines, n - 1);
    if n > 1 {
        lemma_output_ids(engines, n - 1, if k < n - 1 { k } else { 0 });
    }
    strmap::lemma_inserted(before, engines[n - 1].descriptor.engine_id@, ());
}

proof fn lemma_no_repeat_means_distinct(engines: Seq<EngineOutput>, from: int, i: int, j: int)
    requires
        payload::repeated_output(engines, from) is None,
        0 <= from <= j,
        0 <= i < j < engines.len(),
    ensures
        engines[i].descriptor.engine_id@ != engines[j].descriptor.engine_id@,
    decreases j - from,
{
    if from < j {
        lemma_no_repeat_means_distinct(engines, from + 1, i, j);
    } else {
        lemma_output_ids(engines, j, i);
    }
}

/// The order a caller registers engines in does not matter: it changes neither
/// whether a payload is refused, and why, nor what the payload is.
pub proof fn lemma_engine_order_is_irrelevant<'a>(a: AssembleRequest<'a>, b: AssembleRequest<'a>)
    requires
        b == (AssembleRequest { engines: b.engines, ..a }),
        a.engines@.to_multiset() =~= b.engines@.to_multiset(),
    ensures
        payload::request_problem(a) == payload::request_problem(b),
        payload::request_problem(a) is None ==> forall|p: PreparedModel|
            #[trigger] payload::is_prepared(p, a) == payload::is_prepared(p, b),
{
    let lt = payload::engine_order();
    let id = |e: EngineOutput| e.descriptor.engine_id@;
    let sa = sorting::sorted(a.engines@, lt);
    let sb = sorting::sorted(b.engines@, lt);
    sorting::lemma_order_by_key(
        lt,
        |e: EngineOutput| text::byte_key(e.descriptor.engine_id@),
    );
    sorting::lemma_order_by_key(registry_load::id_order(), |s: Seq<char>| text::byte_key(s));
    sorting::lemma_sorted_map(a.engines@, id, lt, registry_load::id_order());
    sorting::lemma_sorted_map(b.engines@, id, lt, registry_load::id_order());
    sorting::lemma_mapped_multiset(a.engines@, b.engines@, id);
    let ia = a.engines@.map_values(id);
    let ib = b.engines@.map_values(id);
    assert forall|i: int, j: int| 0 <= i < j < ia.len() implies registry_load::id_order()(
        #[trigger] ia[i],
        #[trigger] ia[j],
    ) || registry_load::id_order()(ia[j], ia[i]) || ia[i] == ia[j] by {
        text::lemma_text_less_total(ia[i], ia[j]);
    }
    sorting::lemma_sorted_permuted(ia, ib, registry_load::id_order());
    assert(ids_of(sa) == ids_of(sb));
    lemma_same_repeats(sa, sb, 0);
    if payload::repeated_output(sa, 0) is None {
        sorting::lemma_sorted_keeps_items(a.engines@, lt);
        sorting::lemma_sorted_keeps_items(b.engines@, lt);
        sorting::lemma_sorted_ascending(a.engines@, lt);
        sorting::lemma_sorted_ascending(b.engines@, lt);
        assert forall|i: int, j: int| 0 <= i < j < sa.len() implies lt(
            #[trigger] sa[i],
            #[trigger] sa[j],
        ) || lt(sa[j], sa[i]) || sa[i] == sa[j] by {
            lemma_no_repeat_means_distinct(sa, 0, i, j);
            text::lemma_text_less_total(
                sa[i].descriptor.engine_id@,
                sa[j].descriptor.engine_id@,
            );
        }
        sorting::lemma_one_order(sa, sb, lt);
    }
}

// --- the roster -----------------------------------------------------------

proof fn lemma_expected(
    named: Seq<(Seq<char>, ())>,
    expected: Seq<(Seq<char>, ())>,
    from: int,
    i: int,
)
    requires
        payload::unexpected(named, expected, from) is None,
        0 <= from <= i < named.len(),
    ensures
        strmap::has_key(expected, named[i].0),
    decreases i - from,
{
    if from < i {
        lemma_expected(named, expected, from + 1, i);
    }
}

proof fn lemma_accounted(
    expected: Seq<(Seq<char>, ())>,
    succeeded: Seq<(Seq<char>, ())>,
    failed: Seq<(Seq<char>, ())>,
    from: int,
    i: int,
)
    requires
        payload::unaccounted(expected, succeeded, failed, from) is None,
        0 <= from <= i < expected.len(),
    ensures
        strmap::has_key(succeeded, expected[i].0) || strmap::has_key(failed, expected[i].0),
    decreases i - from,
{
    if from < i {
        lemma_accounted(expected, succeeded, failed, from + 1, i);
    }
}

proof fn lemma_not_both(
    succeeded: Seq<(Seq<char>, ())>,
    failures: Seq<EngineFailure>,
    from: int,
    k: int,
)
    requires
        payload::contradicting_failure(succeeded, failures, from) is None,
        0 <= from <= k < failures.len(),
    ensures
        !strmap::has_key(succeeded, failures[k].engine_id@),
        !strmap::has_key(payload::failure_ids(failures, k), failures[k].engine_id@),
    decreases k - from,
{
    if from < k {
        lemma_not_both(succeeded, failures, from + 1, k);
    }
}

proof fn lemma_failure_id(failures: Seq<EngineFailure>, n: int, id: Seq<char>)
    requires
        0 <= n <= failures.len(),
    ensures
        strmap::keys_ascend(payload::failure_ids(failures, n)),
        strmap::has_key(payload::failure_ids(failures, n), id) <==> exists|k: int|
            0 <= k < n && (#[trigger] failures[k]).engine_id@ == id,
    decreases n,
{
    if n > 0 {
        let before = payload::failure_ids(failures, n - 1);
        lemma_failure_id(failures, n - 1, id);
        strmap::lemma_inserted(before, failures[n - 1].engine_id@, ());
        if strmap::has_key(before, id) {
            let k = choose|k: int| 0 <= k < n - 1 && (#[trigger] failures[k]).engine_id@ == id;
            assert(failures[k].engine_id@ == id);
        }
    }
}

proof fn lemma_output_id(engines: Seq<EngineOutput>, n: int, id: Seq<char>)
    requires
        0 <= n <= engines.len(),
    ensures
        strmap::keys_ascend(payload::output_ids(engines, n)),
        strmap::has_key(payload::output_ids(engines, n), id) <==> exists|k: int|
            0 <= k < n && (#[trigger] engines[k]).descriptor.engine_id@ == id,
    decreases n,
{
    if n > 0 {
        let before = payload::output_ids(engines, n - 1);
        lemma_output_id(engines, n - 1, id);
        strmap::lemma_inserted(before, engines[n - 1].descriptor.engine_id@, ());
        if strmap::has_key(before, id) {
            let k = choose|k: int|
                0 <= k < n - 1 && (#[trigger] engines[k]).descriptor.engine_id@ == id;
            assert(engines[k].descriptor.engine_id@ == id);
        }
    }
}

/// Whether an output names an engine.
pub open spec fn contributes(engines: Seq<EngineOutput>, id: Seq<char>) -> bool {
    exists|k: int| 0 <= k < engines.len() && (#[trigger] engines[k]).descriptor.engine_id@ == id
}

/// Whether a failure names an engine.
pub open spec fn fails(failures: Seq<EngineFailure>, id: Seq<char>) -> bool {
    exists|k: int| 0 <= k < failures.len() && (#[trigger] failures[k]).engine_id@ == id
}

/// In a payload that is let through, the engines that contributed or failed are
/// exactly the ones this measurement expects, and none did both.
pub proof fn lemma_every_engine_is_accounted_for(request: AssembleRequest, id: Seq<char>)
    requires
        payload::request_problem(request) is None,
    ensures
        strmap::has_key(payload::roster(*request.registry, *request.policy), id) <==> (contributes(
            request.engines@,
            id,
        ) || fails(request.engine_failures@, id)),
        !(contributes(request.engines@, id) && fails(request.engine_failures@, id)),
{
    broadcast use vstd::seq_lib::group_to_multiset_ensures;

    let engines = sorting::sorted(request.engines@, payload::engine_order());
    let failures = request.engine_failures@;
    let expected = payload::roster(*request.registry, *request.policy);
    let succeeded = payload::output_ids(engines, engines.len() as int);
    let failed = payload::failure_ids(failures, failures.len() as int);
    lemma_output_id(engines, engines.len() as int, id);
    lemma_failure_id(failures, failures.len() as int, id);
    sorting::lemma_sorted_keeps_items(request.engines@, payload::engine_order());
    if contributes(request.engines@, id) {
        let k = choose|k: int|
            0 <= k < request.engines@.len() && (
            #[trigger] request.engines@[k]).descriptor.engine_id@ == id;
        assert(request.engines@.contains(request.engines@[k]));
        assert(engines.to_multiset().count(request.engines@[k]) > 0);
        assert(engines.contains(request.engines@[k]));
        let m = choose|m: int| 0 <= m < engines.len() && engines[m] == request.engines@[k];
        assert(engines[m].descriptor.engine_id@ == id);
        assert(strmap::has_key(succeeded, id));
        strmap::lemma_lookup_iff(succeeded, id);
        let row = choose|i: int| 0 <= i < succeeded.len() && (#[trigger] succeeded[i]).0 == id;
        lemma_expected(succeeded, expected, 0, row);
    }
    if fails(failures, id) {
        let k = choose|k: int|
            0 <= k < failures.len() && (#[trigger] failures[k]).engine_id@ == id;
        lemma_not_both(succeeded, failures, 0, k);
        assert(strmap::has_key(failed, id));
        strmap::lemma_lookup_iff(failed, id);
        let row = choose|i: int| 0 <= i < failed.len() && (#[trigger] failed[i]).0 == id;
        lemma_expected(failed, expected, 0, row);
    }
    if strmap::has_key(expected, id) {
        strmap::lemma_lookup_iff(expected, id);
        let row = choose|i: int| 0 <= i < expected.len() && (#[trigger] expected[i]).0 == id;
        lemma_accounted(expected, succeeded, failed, 0, row);
        if strmap::has_key(succeeded, id) {
            let k = choose|k: int|
                0 <= k < engines.len() && (#[trigger] engines[k]).descriptor.engine_id@ == id;
            sorting::lemma_sorted_item(request.engines@, payload::engine_order(), k);
            let m = choose|m: int|
                0 <= m < request.engines@.len() && request.engines@[m] == engines[k];
            assert(request.engines@[m].descriptor.engine_id@ == id);
        }
    }
}

// --- results --------------------------------------------------------------

proof fn lemma_item_passed(
    items: Seq<Item>,
    from: int,
    ctx: CompareContext,
    registry: LoadedRegistry,
    i: int,
)
    requires
        payload::items_problem(items, from, ctx, registry) is None,
        0 <= from <= i < items.len(),
    ensures
        payload::item_problem(items, i, ctx, registry) is None,
    decreases i - from,
{
    if from < i {
        lemma_item_passed(items, from + 1, ctx, registry, i);
    }
}

/// What the engine boundary lets through, assembly finds no fault with in itself:
/// its engine, its family and its digest are in order, where the engine put its
/// own name on it.
pub proof fn lemma_what_the_boundary_admits_is_in_order(
    out: MeasurementResult,
    result: MeasurementResult,
    d: EngineDescriptor,
    ladders: Seq<(Seq<char>, SeverityLadder)>,
    ctx: CompareContext,
)
    requires
        engine::refusal_of(result, d.family, ladders) is None,
        engine::is_admitted(out, result, ladders, ctx),
        result.engine_id@ == d.engine_id@,
    ensures
        payload::identity_problem(out, d, ctx) is None,
{
    assert(out.digest_facts(ctx)->Members_0 =~= result.digest_facts(ctx)->Members_0);
}

/// Every digest in a payload that is let through is the digest of the result it
/// sits on, against the payload's own tuple: reconciling evidence and applying
/// policy disturb none.
pub proof fn lemma_every_digest_recomputes(request: AssembleRequest, p: PreparedModel, i: int)
    requires
        payload::request_problem(request) is None,
        payload::is_prepared(p, request),
        0 <= i < p.results.len(),
    ensures
        p.results[i].sealable(),
        p.results[i].digest@ == p.results[i].digest_against(p.compare_context),
{
    let items = payload::all_items(request.engines@);
    let ctx = request.compare_context;
    lemma_item_passed(items, 0, ctx, *request.registry, i);
    let result = items[i].result;
    let out = p.results[i];
    assert(payload::is_assembled(out, items[i], *request.registry, *request.policy));
    assert(out.digest_facts(ctx)->Members_0 =~= result.digest_facts(ctx)->Members_0);
}

/// No two results of a payload that is let through share a metric and a scope,
/// so the verifier pairs each with at most one.
pub proof fn lemma_nothing_pairs_twice(request: AssembleRequest, p: PreparedModel, i: int, j: int)
    requires
        payload::request_problem(request) is None,
        payload::is_prepared(p, request),
        0 <= i < j < p.results.len(),
    ensures
        !payload::pairs_with(p.results[i], p.results[j]),
{
    let items = payload::all_items(request.engines@);
    lemma_item_passed(items, 0, request.compare_context, *request.registry, j);
    assert(payload::is_assembled(p.results[i], items[i], *request.registry, *request.policy));
    assert(payload::is_assembled(p.results[j], items[j], *request.registry, *request.policy));
    assert(!payload::is_shadowed(items, j));
    assert(!payload::pairs_with(items[i].result, items[j].result));
}

proof fn lemma_merged(lines: Seq<Seq<char>>, extra: Seq<Seq<char>>, n: int, k: int)
    requires
        0 <= n <= extra.len(),
    ensures
        lines.len() <= payload::merged(lines, extra, n).len(),
        payload::merged(lines, extra, n).take(lines.len() as int) == lines,
        0 <= k < n ==> payload::merged(lines, extra, n).contains(extra[k]),
    decreases n,
{
    if n > 0 {
        let before = payload::merged(lines, extra, n - 1);
        let after = payload::merged(lines, extra, n);
        lemma_merged(lines, extra, n - 1, k);
        assert(after.take(lines.len() as int) =~= before.take(lines.len() as int));
        if before.contains(extra[n - 1]) {
        } else {
            assert(after[after.len() - 1] == extra[n - 1]);
        }
        if 0 <= k < n - 1 {
            let m = choose|m: int| 0 <= m < before.len() && before[m] == extra[k];
            assert(after[m] == extra[k]);
        }
    } else {
        assert(lines.take(lines.len() as int) =~= lines);
    }
}

/// Reconciling evidence erases nothing: the lines an engine put on a result stay
/// where they were, in front, and every line of the claim is there.
pub proof fn lemma_caveats_survive(
    out: MeasurementResult,
    result: MeasurementResult,
    claim: ResolvedModel,
    k: int,
)
    requires
        payload::is_reconciled(out, result, claim),
        0 <= k < claim.claim.does_not_predict.len(),
    ensures
        text::texts(out.evidence.does_not_predict@).take(
            result.evidence.does_not_predict@.len() as int,
        ) == text::texts(result.evidence.does_not_predict@),
        text::texts(out.evidence.does_not_predict@).contains(claim.claim.does_not_predict[k]),
{
    let extra = claim.claim.does_not_predict;
    lemma_merged(
        text::texts(result.evidence.does_not_predict@),
        extra,
        extra.len() as int,
        k,
    );
}

/// Every number in a payload that is let through stands on its own claim: the
/// registry declares its metric, with the same claim, class and determinism, and
/// that claim is there; and the result says of its evidence whether it is stale
/// and everything the claim is no evidence for.
pub proof fn lemma_every_number_stands_on_its_claim(
    request: AssembleRequest,
    p: PreparedModel,
    i: int,
    k: int,
)
    requires
        payload::request_problem(request) is None,
        payload::is_prepared(p, request),
        0 <= i < p.results.len(),
    ensures
        ({
            let out = p.results[i];
            let claims = request.registry.registry.claims@;
            &&& strmap::lookup(request.registry.registry.metrics@, out.metric_id@) matches Some(
                decl,
            ) && decl.claim_id@ == out.claim_id@ && decl.class == out.metric_class
                && decl.deterministic == out.deterministic
            &&& out.evidence.claim_id@ == out.claim_id@
            &&& strmap::lookup(claims, out.claim_id@) matches Some(claim) && out.evidence.stale
                == claim.stale && (0 <= k < claim.claim.does_not_predict.len() ==> text::texts(
                out.evidence.does_not_predict@,
            ).contains(claim.claim.does_not_predict[k]))
        }),
{
    let items = payload::all_items(request.engines@);
    lemma_item_passed(items, 0, request.compare_context, *request.registry, i);
    let out = p.results[i];
    let result = items[i].result;
    assert(payload::is_assembled(out, items[i], *request.registry, *request.policy));
    let claim = strmap::lookup(request.registry.registry.claims@, result.claim_id@)->Some_0;
    if 0 <= k < claim.claim.does_not_predict.len() {
        lemma_caveats_survive(
            MeasurementResult { severity: result.severity, ..out },
            result,
            claim,
            k,
        );
    }
}

// --- the record -----------------------------------------------------------

/// A measurement an engine failed in is neither complete nor finished.
pub proof fn lemma_a_failed_engine_leaves_a_gap(request: AssembleRequest, p: PreparedModel)
    requires
        payload::is_prepared(p, request),
        request.engine_failures@.len() > 0,
    ensures
        p.completeness != Completeness::Complete,
        parse_health::weakness(p.completeness) <= parse_health::weakness(Completeness::Partial),
        p.outcome() != LoopOutcome::Finished,
{
}

/// What the counter was told there is to act on is what the verdict acts on,
/// whether or not the counter restarted in between.
pub proof fn lemma_the_countable_answer_survives(
    request: AssembleRequest,
    p: PreparedModel,
    recovered: bool,
)
    requires
        payload::is_prepared(p, request),
    ensures
        p.countable == verdict::countable(p.results, p.judged_in(recovered)),
{
    verdict::lemma_what_there_is_to_act_on(p.results, p.judged_in(false), p.judged_in(recovered));
}

/// A self-report never carries a justification marked as verified.
pub proof fn lemma_no_self_report_excuses_itself(request: AssembleRequest, p: PreparedModel)
    requires
        payload::request_problem(request) is None,
        payload::is_prepared(p, request),
        p.record_kind == RecordKind::SelfReport,
    ensures
        !(p.policy_change matches Some(c) && c.justified()),
{
}

/// A record is no more complete than any result in it.
pub proof fn lemma_no_record_outclaims_its_results(
    request: AssembleRequest,
    p: PreparedModel,
    i: int,
)
    requires
        payload::is_prepared(p, request),
        0 <= i < p.results.len(),
    ensures
        parse_health::weakness(p.completeness) <= parse_health::weakness(
            p.results[i].completeness,
        ),
{
    parse_health::lemma_weakest_is_the_weakest(p.results, p.results.len() as int, i);
}

/// How complete a record is. One result nobody could witness makes it unwitnessed.
/// Short of that, an engine that failed, or a result that covers only a part, makes
/// it partial. Short of that, a result over a partly read file makes it degraded.
/// It is complete where every engine ran and every result is.
pub proof fn lemma_how_complete_a_record_is(request: AssembleRequest, p: PreparedModel)
    requires
        payload::is_prepared(p, request),
    ensures
        ({
            let failed = request.engine_failures@.len() > 0;
            let some = |c: Completeness| parse_health::some_are(p.results, c);
            &&& p.completeness == Completeness::Unwitnessed <==> some(Completeness::Unwitnessed)
            &&& p.completeness == Completeness::Partial <==> !some(Completeness::Unwitnessed) && (
            failed || some(Completeness::Partial))
            &&& p.completeness == Completeness::ParseDegraded <==> !failed && !some(
                Completeness::Unwitnessed,
            ) && !some(Completeness::Partial) && some(Completeness::ParseDegraded)
            &&& p.completeness == Completeness::Complete <==> !failed && forall|i: int|
                0 <= i < p.results.len() ==> (#[trigger] p.results[i]).completeness
                    == Completeness::Complete
        }),
{
    parse_health::lemma_what_the_weakest_says(p.results);
}

/// What a run says of the loop it is part of. It counts a pass exactly where it
/// leaves the agent something to fix. It ends the loop where it leaves nothing,
/// every engine ran, every changed path was read, and no result stands on part of
/// what it is about. Otherwise it says nothing either way.
pub proof fn lemma_what_a_run_says_of_its_loop(request: AssembleRequest, p: PreparedModel)
    requires
        payload::is_prepared(p, request),
    ensures
        ({
            let work = meaning::work_left(p.results, p.judged_in(false));
            let seen = request.engine_failures@.len() == 0 && request.unreadable_paths@.len() == 0
                && forall|i: int|
                0 <= i < p.results.len() ==> (#[trigger] p.results[i]).completeness
                    == Completeness::Complete || p.results[i].completeness
                    == Completeness::Unwitnessed;
            &&& p.outcome() == LoopOutcome::Countable <==> work
            &&& p.outcome() == LoopOutcome::Finished <==> !work && seen
            &&& p.outcome() == LoopOutcome::Inconclusive <==> !work && !seen
        }),
{
    meaning::lemma_stops_and_counts(p.results, p.judged_in(false));
    let rs = p.results;
    if forall|i: int|
        0 <= i < rs.len() ==> (#[trigger] rs[i]).completeness != Completeness::Partial
            && rs[i].completeness != Completeness::ParseDegraded {
        assert forall|i: int| 0 <= i < rs.len() implies (#[trigger] rs[i]).completeness
            == Completeness::Complete || rs[i].completeness == Completeness::Unwitnessed by {
            assert(rs[i].completeness != Completeness::Partial);
        }
    }
    if forall|i: int|
        0 <= i < rs.len() ==> (#[trigger] rs[i]).completeness == Completeness::Complete
            || rs[i].completeness == Completeness::Unwitnessed {
        assert forall|i: int| 0 <= i < rs.len() implies (#[trigger] rs[i]).completeness
            != Completeness::Partial && rs[i].completeness != Completeness::ParseDegraded by {
            assert(rs[i].completeness == Completeness::Complete || rs[i].completeness
                == Completeness::Unwitnessed);
        }
    }
}

// --- who is expected ------------------------------------------------------

/// Whether the registry declares an engine, and the engine is not one that runs the
/// user's tests in a deployment that runs none.
pub open spec fn awaited(registry: LoadedRegistry, policy: Policy, id: Seq<char>) -> bool {
    &&& strmap::has_key(registry.expected_engines@, id)
    &&& strmap::lookup(registry.engine_families@, id) == Some(EngineFamily::Tests)
        ==> policy.sandbox.enabled && policy.sandbox.test_command is Some
}

proof fn lemma_expected_among(registry: LoadedRegistry, policy: Policy, n: int, id: Seq<char>)
    requires
        0 <= n <= registry.expected_engines@.len(),
    ensures
        ({
            let declared = registry.expected_engines@;
            let rows = payload::expected_among(declared, registry.engine_families@, policy, n);
            &&& strmap::keys_ascend(rows)
            &&& strmap::has_key(rows, id) <==> (exists|i: int|
                0 <= i < n && (#[trigger] declared[i]).0 == id) && (strmap::lookup(
                registry.engine_families@,
                id,
            ) == Some(EngineFamily::Tests) ==> policy.sandbox.enabled
                && policy.sandbox.test_command is Some)
        }),
    decreases n,
{
    let declared = registry.expected_engines@;
    let families = registry.engine_families@;
    if n > 0 {
        lemma_expected_among(registry, policy, n - 1, id);
        let before = payload::expected_among(declared, families, policy, n - 1);
        strmap::lemma_inserted(before, declared[n - 1].0, ());
        if exists|i: int| 0 <= i < n - 1 && (#[trigger] declared[i]).0 == id {
            let i = choose|i: int| 0 <= i < n - 1 && (#[trigger] declared[i]).0 == id;
            assert(declared[i].0 == id);
        }
    } else {
        strmap::lemma_lookup_iff(payload::expected_among(declared, families, policy, n), id);
    }
}

/// A measurement waits for every declared engine, except that engines which run the
/// user's tests are waited for only where policy switches them on and says what to
/// run.
pub proof fn lemma_who_is_awaited(registry: LoadedRegistry, policy: Policy, id: Seq<char>)
    ensures
        strmap::has_key(payload::roster(registry, policy), id) <==> awaited(registry, policy, id),
{
    let declared = registry.expected_engines@;
    lemma_expected_among(registry, policy, declared.len() as int, id);
    strmap::lemma_lookup_iff(declared, id);
}

// --- what is refused ------------------------------------------------------

proof fn lemma_repeats(engines: Seq<EngineOutput>, from: int)
    requires
        0 <= from <= engines.len(),
    ensures
        payload::repeated_output(engines, from) is None <==> forall|i: int, j: int|
            0 <= i < j < engines.len() && from <= j ==> (
            #[trigger] engines[i]).descriptor.engine_id@ != (
            #[trigger] engines[j]).descriptor.engine_id@,
    decreases engines.len() - from,
{
    if from < engines.len() {
        lemma_repeats(engines, from + 1);
        let id = engines[from].descriptor.engine_id@;
        lemma_output_id(engines, from, id);
        if strmap::has_key(payload::output_ids(engines, from), id) {
            let k = choose|k: int|
                0 <= k < from && (#[trigger] engines[k]).descriptor.engine_id@ == id;
            assert(engines[k].descriptor.engine_id@ == engines[from].descriptor.engine_id@);
        } else {
            assert forall|i: int, j: int|
                0 <= i < j < engines.len() && from <= j
                    && payload::repeated_output(engines, from) is None implies (
            #[trigger] engines[i]).descriptor.engine_id@ != (
            #[trigger] engines[j]).descriptor.engine_id@ by {}
        }
    }
}

proof fn lemma_contradictions(
    succeeded: Seq<(Seq<char>, ())>,
    failures: Seq<EngineFailure>,
    from: int,
)
    requires
        0 <= from <= failures.len(),
    ensures
        payload::contradicting_failure(succeeded, failures, from) is None <==> forall|j: int|
            from <= j < failures.len() ==> !strmap::has_key(
                succeeded,
                (#[trigger] failures[j]).engine_id@,
            ) && !strmap::has_key(payload::failure_ids(failures, j), failures[j].engine_id@),
    decreases failures.len() - from,
{
    if from < failures.len() {
        lemma_contradictions(succeeded, failures, from + 1);
        assert(failures[from].engine_id@ == failures[from].engine_id@);
    }
}

proof fn lemma_strangers(
    named: Seq<(Seq<char>, ())>,
    expected: Seq<(Seq<char>, ())>,
    from: int,
)
    requires
        0 <= from <= named.len(),
    ensures
        payload::unexpected(named, expected, from) is None <==> forall|i: int|
            from <= i < named.len() ==> strmap::has_key(expected, (#[trigger] named[i]).0),
    decreases named.len() - from,
{
    if from < named.len() {
        lemma_strangers(named, expected, from + 1);
        assert(named[from].0 == named[from].0);
    }
}

proof fn lemma_gaps(
    expected: Seq<(Seq<char>, ())>,
    succeeded: Seq<(Seq<char>, ())>,
    failed: Seq<(Seq<char>, ())>,
    from: int,
)
    requires
        0 <= from <= expected.len(),
    ensures
        payload::unaccounted(expected, succeeded, failed, from) is None <==> forall|i: int|
            from <= i < expected.len() ==> strmap::has_key(succeeded, (#[trigger] expected[i]).0)
                || strmap::has_key(failed, expected[i].0),
    decreases expected.len() - from,
{
    if from < expected.len() {
        lemma_gaps(expected, succeeded, failed, from + 1);
        assert(expected[from].0 == expected[from].0);
    }
}

/// Whether every engine that is waited for is there once, with results or with a
/// failure, and nobody else is.
pub open spec fn all_present(
    engines: Seq<EngineOutput>,
    failures: Seq<EngineFailure>,
    registry: LoadedRegistry,
    policy: Policy,
) -> bool {
    &&& forall|i: int, j: int|
        0 <= i < j < engines.len() ==> (#[trigger] engines[i]).descriptor.engine_id@ != (
        #[trigger] engines[j]).descriptor.engine_id@
    &&& forall|i: int, j: int|
        0 <= i < j < failures.len() ==> (#[trigger] failures[i]).engine_id@ != (
        #[trigger] failures[j]).engine_id@
    &&& forall|id: Seq<char>| !(#[trigger] contributes(engines, id) && fails(failures, id))
    &&& forall|id: Seq<char>|
        #[trigger] awaited(registry, policy, id) <==> contributes(engines, id) || fails(
            failures,
            id,
        )
}

proof fn lemma_failures_once(succeeded: Seq<(Seq<char>, ())>, failures: Seq<EngineFailure>)
    ensures
        payload::contradicting_failure(succeeded, failures, 0) is None <==> (forall|i: int, j: int|
            0 <= i < j < failures.len() ==> (#[trigger] failures[i]).engine_id@ != (
            #[trigger] failures[j]).engine_id@) && forall|j: int|
            0 <= j < failures.len() ==> !strmap::has_key(
                succeeded,
                (#[trigger] failures[j]).engine_id@,
            ),
{
    lemma_contradictions(succeeded, failures, 0);
    let fine = payload::contradicting_failure(succeeded, failures, 0) is None;
    assert forall|i: int, j: int| fine && 0 <= i < j < failures.len() implies (
    #[trigger] failures[i]).engine_id@ != (#[trigger] failures[j]).engine_id@ by {
        lemma_failure_id(failures, j, failures[j].engine_id@);
        assert(!strmap::has_key(payload::failure_ids(failures, j), failures[j].engine_id@));
    }
    if !fine {
        let j = choose|j: int|
            0 <= j < failures.len() && (strmap::has_key(
                succeeded,
                (#[trigger] failures[j]).engine_id@,
            ) || strmap::has_key(payload::failure_ids(failures, j), failures[j].engine_id@));
        lemma_failure_id(failures, j, failures[j].engine_id@);
        if strmap::has_key(payload::failure_ids(failures, j), failures[j].engine_id@) {
            let i = choose|i: int|
                0 <= i < j && (#[trigger] failures[i]).engine_id@ == failures[j].engine_id@;
            assert(failures[i].engine_id@ == failures[j].engine_id@);
        }
    }
}

proof fn lemma_nobody_missing(
    engines: Seq<EngineOutput>,
    failures: Seq<EngineFailure>,
    registry: LoadedRegistry,
    policy: Policy,
)
    ensures
        payload::roster_problem(engines, failures, payload::roster(registry, policy)) is None
            <==> all_present(engines, failures, registry, policy),
{
    let expected = payload::roster(registry, policy);
    let succeeded = payload::output_ids(engines, engines.len() as int);
    let failed = payload::failure_ids(failures, failures.len() as int);
    let fine = payload::roster_problem(engines, failures, expected) is None;
    let good = all_present(engines, failures, registry, policy);
    lemma_repeats(engines, 0);
    lemma_failures_once(succeeded, failures);
    lemma_strangers(succeeded, expected, 0);
    lemma_strangers(failed, expected, 0);
    lemma_gaps(expected, succeeded, failed, 0);
    assert forall|id: Seq<char>| #[trigger]
        contributes(engines, id) == strmap::has_key(succeeded, id) by {
        lemma_output_id(engines, engines.len() as int, id);
    }
    assert forall|id: Seq<char>| #[trigger] fails(failures, id) == strmap::has_key(failed, id) by {
        lemma_failure_id(failures, failures.len() as int, id);
    }
    assert forall|id: Seq<char>| #[trigger]
        awaited(registry, policy, id) == strmap::has_key(expected, id) by {
        lemma_who_is_awaited(registry, policy, id);
    }
    if fine {
        assert forall|id: Seq<char>| !(#[trigger] contributes(engines, id) && fails(failures, id)) by {
            if fails(failures, id) {
                let j = choose|j: int|
                    0 <= j < failures.len() && (#[trigger] failures[j]).engine_id@ == id;
                assert(!strmap::has_key(succeeded, failures[j].engine_id@));
            }
        }
        assert forall|id: Seq<char>| #[trigger]
            awaited(registry, policy, id) <==> contributes(engines, id) || fails(failures, id) by {
            strmap::lemma_lookup_iff(expected, id);
            strmap::lemma_lookup_iff(succeeded, id);
            strmap::lemma_lookup_iff(failed, id);
            if strmap::has_key(expected, id) {
                let i = choose|i: int|
                    0 <= i < expected.len() && (#[trigger] expected[i]).0 == id;
                assert(strmap::has_key(succeeded, expected[i].0) || strmap::has_key(
                    failed,
                    expected[i].0,
                ));
            }
            if strmap::has_key(succeeded, id) {
                let i = choose|i: int|
                    0 <= i < succeeded.len() && (#[trigger] succeeded[i]).0 == id;
                assert(strmap::has_key(expected, succeeded[i].0));
            }
            if strmap::has_key(failed, id) {
                let i = choose|i: int| 0 <= i < failed.len() && (#[trigger] failed[i]).0 == id;
                assert(strmap::has_key(expected, failed[i].0));
            }
        }
    }
    if good {
        assert forall|j: int| 0 <= j < failures.len() implies !strmap::has_key(
            succeeded,
            (#[trigger] failures[j]).engine_id@,
        ) by {
            let id = failures[j].engine_id@;
            assert(fails(failures, id));
            assert(!(contributes(engines, id) && fails(failures, id)));
        }
        assert forall|i: int| 0 <= i < succeeded.len() implies strmap::has_key(
            expected,
            (#[trigger] succeeded[i]).0,
        ) by {
            let id = succeeded[i].0;
            strmap::lemma_lookup_iff(succeeded, id);
            assert(contributes(engines, id));
            assert(awaited(registry, policy, id));
        }
        assert forall|i: int| 0 <= i < failed.len() implies strmap::has_key(
            expected,
            (#[trigger] failed[i]).0,
        ) by {
            let id = failed[i].0;
            strmap::lemma_lookup_iff(failed, id);
            assert(fails(failures, id));
            assert(awaited(registry, policy, id));
        }
        assert forall|i: int| 0 <= i < expected.len() implies strmap::has_key(
            succeeded,
            (#[trigger] expected[i]).0,
        ) || strmap::has_key(failed, expected[i].0) by {
            let id = expected[i].0;
            strmap::lemma_lookup_iff(expected, id);
            assert(awaited(registry, policy, id));
            assert(contributes(engines, id) || fails(failures, id));
        }
    }
}

/// Whether one result is in order: it carries its engine's name and family, under a
/// regime of that family; its digest is its own, against the payload's tuple; the
/// registry declares its metric as the result has it, and its claim; and where it
/// is a detector's flag, it is that of a signal.
pub open spec fn in_order(
    result: MeasurementResult,
    d: EngineDescriptor,
    ctx: CompareContext,
    registry: LoadedRegistry,
) -> bool {
    &&& result.engine_id@ == d.engine_id@
    &&& result.family == d.family
    &&& result.measurement_regime.family_of() == d.family
    &&& result.digest@.len() > 0
    &&& engine::fits(result.value)
    &&& result.delta matches Some(delta) ==> engine::fits(delta)
    &&& result.digest@ == result.digest_against(ctx)
    &&& strmap::lookup(registry.registry.metrics@, result.metric_id@) matches Some(decl)
        && decl.claim_id@ == result.claim_id@ && decl.class == result.metric_class
        && decl.deterministic == result.deterministic
    &&& result.evidence.claim_id@ == result.claim_id@
    &&& strmap::lookup(registry.registry.claims@, result.claim_id@) is Some
    &&& result.family == EngineFamily::Tamper && result.value is Flag && !text::ends_in(
        result.metric_id@,
        ".magnitude"@,
    ) ==> exists|signal: TamperSignal| #[trigger] named_for(result, signal)
}

/// Whether a result is reported under the metric of a signal's flag.
pub open spec fn named_for(result: MeasurementResult, signal: TamperSignal) -> bool {
    result.metric_id@ == "tamper."@ + signal.wire_name()
}

proof fn lemma_result_in_order(
    result: MeasurementResult,
    d: EngineDescriptor,
    ctx: CompareContext,
    registry: LoadedRegistry,
)
    ensures
        payload::result_problem(
            result,
            d,
            ctx,
            registry.registry.metrics@,
            registry.registry.claims@,
        ) is None <==> in_order(result, d, ctx, registry),
{
    meaning::lemma_named_by_its_own(result.metric_id@, 0);
    if exists|signal: TamperSignal| #[trigger] named_for(result, signal) {
        let signal = choose|signal: TamperSignal| #[trigger] named_for(result, signal);
        tamper_signals::lemma_flags_name_their_signals(signal);
    }
    if let Some(signal) = tamper_signals::signal_named(result.metric_id@) {
        assert(named_for(result, signal));
    }
}

proof fn lemma_items_in_order(
    items: Seq<Item>,
    from: int,
    ctx: CompareContext,
    registry: LoadedRegistry,
)
    requires
        0 <= from <= items.len(),
    ensures
        payload::items_problem(items, from, ctx, registry) is None <==> forall|i: int|
            from <= i < items.len() ==> in_order(
                (#[trigger] items[i]).result,
                items[i].descriptor,
                ctx,
                registry,
            ) && !payload::is_shadowed(items, i),
    decreases items.len() - from,
{
    if from < items.len() {
        lemma_items_in_order(items, from + 1, ctx, registry);
        lemma_result_in_order(items[from].result, items[from].descriptor, ctx, registry);
        assert(payload::item_problem(items, from, ctx, registry) is None <==> in_order(
            items[from].result,
            items[from].descriptor,
            ctx,
            registry,
        ) && !payload::is_shadowed(items, from));
    }
}

proof fn lemma_present_in_any_order(
    a: Seq<EngineOutput>,
    b: Seq<EngineOutput>,
    failures: Seq<EngineFailure>,
    registry: LoadedRegistry,
    policy: Policy,
)
    requires
        a.to_multiset() =~= b.to_multiset(),
        all_present(a, failures, registry, policy),
    ensures
        all_present(b, failures, registry, policy),
{
    broadcast use vstd::seq_lib::group_to_multiset_ensures;

    assert forall|id: Seq<char>| contributes(a, id) == #[trigger] contributes(b, id) by {
        if contributes(a, id) {
            let k = choose|k: int|
                0 <= k < a.len() && (#[trigger] a[k]).descriptor.engine_id@ == id;
            assert(a.contains(a[k]));
            assert(b.to_multiset().count(a[k]) > 0);
            let m = choose|m: int| 0 <= m < b.len() && b[m] == a[k];
            assert(b[m].descriptor.engine_id@ == id);
        }
        if contributes(b, id) {
            let k = choose|k: int|
                0 <= k < b.len() && (#[trigger] b[k]).descriptor.engine_id@ == id;
            assert(b.contains(b[k]));
            assert(a.to_multiset().count(b[k]) > 0);
            let m = choose|m: int| 0 <= m < a.len() && a[m] == b[k];
            assert(a[m].descriptor.engine_id@ == id);
        }
    }
    assert(a.no_duplicates()) by {
        assert forall|i: int, j: int|
            0 <= i < a.len() && 0 <= j < a.len() && i != j implies a[i] != a[j] by {
            if i < j {
                assert(a[i].descriptor.engine_id@ != a[j].descriptor.engine_id@);
            } else {
                assert(a[j].descriptor.engine_id@ != a[i].descriptor.engine_id@);
            }
        }
    }
    a.lemma_multiset_has_no_duplicates();
    b.lemma_multiset_has_no_duplicates_conv();
    assert forall|id: Seq<char>| #[trigger]
        awaited(registry, policy, id) <==> contributes(b, id) || fails(failures, id) by {
        assert(contributes(a, id) == contributes(b, id));
    }
    assert forall|id: Seq<char>| !(#[trigger] contributes(b, id) && fails(failures, id)) by {
        assert(!(contributes(a, id) && fails(failures, id)));
    }
    assert forall|i: int, j: int| 0 <= i < j < b.len() implies (
    #[trigger] b[i]).descriptor.engine_id@ != (#[trigger] b[j]).descriptor.engine_id@ by {
        assert(b.contains(b[i]) && b.contains(b[j]));
        assert(a.to_multiset().count(b[i]) > 0 && a.to_multiset().count(b[j]) > 0);
        let p = choose|p: int| 0 <= p < a.len() && a[p] == b[i];
        let q = choose|q: int| 0 <= q < a.len() && a[q] == b[j];
        assert(b[i] != b[j]);
        if p < q {
            assert(a[p].descriptor.engine_id@ != a[q].descriptor.engine_id@);
        } else {
            assert(a[q].descriptor.engine_id@ != a[p].descriptor.engine_id@);
        }
    }
}

/// What assembly refuses, and that it refuses nothing else: a payload is let through
/// exactly when every engine that is waited for is there once and nobody else is, a
/// self-report does not vouch for its own policy edit, every result is in order, and
/// no two results share a metric and a scope.
pub proof fn lemma_what_assembly_lets_through(request: AssembleRequest)
    ensures
        payload::request_problem(request) is None <==> {
            let items = payload::all_items(request.engines@);
            &&& all_present(
                request.engines@,
                request.engine_failures@,
                *request.registry,
                *request.policy,
            )
            &&& !(request.record_kind == RecordKind::SelfReport && meaning::vouched(
                request.policy_change,
            ))
            &&& forall|i: int|
                0 <= i < items.len() ==> in_order(
                    (#[trigger] items[i]).result,
                    items[i].descriptor,
                    request.compare_context,
                    *request.registry,
                )
            &&& forall|i: int, j: int|
                0 <= i < j < items.len() ==> !payload::pairs_with(
                    (#[trigger] items[i]).result,
                    (#[trigger] items[j]).result,
                )
        },
{
    let lt = payload::engine_order();
    let ordered = sorting::sorted(request.engines@, lt);
    let items = payload::all_items(request.engines@);
    let failures = request.engine_failures@;
    sorting::lemma_sorted_keeps_items(request.engines@, lt);
    lemma_nobody_missing(ordered, failures, *request.registry, *request.policy);
    if all_present(ordered, failures, *request.registry, *request.policy) {
        lemma_present_in_any_order(
            ordered,
            request.engines@,
            failures,
            *request.registry,
            *request.policy,
        );
    }
    if all_present(request.engines@, failures, *request.registry, *request.policy) {
        lemma_present_in_any_order(
            request.engines@,
            ordered,
            failures,
            *request.registry,
            *request.policy,
        );
    }
    lemma_items_in_order(items, 0, request.compare_context, *request.registry);
    if forall|i: int| 0 <= i < items.len() ==> !payload::is_shadowed(items, i) {
        assert forall|i: int, j: int| 0 <= i < j < items.len() implies !payload::pairs_with(
            (#[trigger] items[i]).result,
            (#[trigger] items[j]).result,
        ) by {
            assert(!payload::is_shadowed(items, j));
        }
    }
    if payload::items_problem(items, 0, request.compare_context, *request.registry) is None {
        assert forall|i: int| 0 <= i < items.len() implies !payload::is_shadowed(items, i) by {
            assert(in_order(
                items[i].result,
                items[i].descriptor,
                request.compare_context,
                *request.registry,
            ));
        }
    }
}

// --- what enters the record -----------------------------------------------

proof fn lemma_item_from(engines: Seq<EngineOutput>, n: int, i: int)
    requires
        0 <= n <= engines.len(),
        0 <= i < payload::items_among(engines, n).len(),
    ensures
        exists|e: int, r: int|
            #![trigger engines[e].results@[r]]
            0 <= e < n && 0 <= r < engines[e].results@.len() && payload::items_among(engines, n)[i]
                == (Item { descriptor: engines[e].descriptor, result: engines[e].results@[r] }),
    decreases n,
{
    let before = payload::items_among(engines, n - 1);
    let all = payload::items_among(engines, n);
    if i < before.len() {
        lemma_item_from(engines, n - 1, i);
        let (e, r) = choose|e: int, r: int|
            #![trigger engines[e].results@[r]]
            0 <= e < n - 1 && 0 <= r < engines[e].results@.len() && before[i] == (Item {
                descriptor: engines[e].descriptor,
                result: engines[e].results@[r],
            });
        assert(all[i] == (Item {
            descriptor: engines[e].descriptor,
            result: engines[e].results@[r],
        }));
    } else {
        let r = i - before.len();
        assert(all[i] == (Item {
            descriptor: engines[n - 1].descriptor,
            result: engines[n - 1].results@[r],
        }));
    }
}

proof fn lemma_item_of(engines: Seq<EngineOutput>, n: int, e: int, r: int)
    requires
        0 <= e < n <= engines.len(),
        0 <= r < engines[e].results@.len(),
    ensures
        payload::items_among(engines, n).contains(
            Item { descriptor: engines[e].descriptor, result: engines[e].results@[r] },
        ),
    decreases n,
{
    let before = payload::items_among(engines, n - 1);
    let all = payload::items_among(engines, n);
    let item = Item { descriptor: engines[e].descriptor, result: engines[e].results@[r] };
    if e == n - 1 {
        assert(all[before.len() + r] == item);
    } else {
        lemma_item_of(engines, n - 1, e, r);
        let i = choose|i: int| 0 <= i < before.len() && before[i] == item;
        assert(all[i] == item);
    }
}

proof fn lemma_items_ordered(engines: Seq<EngineOutput>, n: int, i: int, j: int)
    requires
        0 <= n <= engines.len(),
        0 <= i < j < payload::items_among(engines, n).len(),
        forall|a: int, b: int|
            0 <= a < b < engines.len() ==> !text::text_less(
                (#[trigger] engines[b]).descriptor.engine_id@,
                (#[trigger] engines[a]).descriptor.engine_id@,
            ),
    ensures
        !text::text_less(
            payload::items_among(engines, n)[j].descriptor.engine_id@,
            payload::items_among(engines, n)[i].descriptor.engine_id@,
        ),
    decreases n,
{
    let before = payload::items_among(engines, n - 1);
    if j < before.len() {
        lemma_items_ordered(engines, n - 1, i, j);
    } else if i >= before.len() {
        text::lemma_text_less_irreflexive(engines[n - 1].descriptor.engine_id@);
    } else {
        lemma_item_from(engines, n - 1, i);
        let (e, r) = choose|e: int, r: int|
            #![trigger engines[e].results@[r]]
            0 <= e < n - 1 && 0 <= r < engines[e].results@.len() && before[i] == (Item {
                descriptor: engines[e].descriptor,
                result: engines[e].results@[r],
            });
        assert(!text::text_less(
            engines[n - 1].descriptor.engine_id@,
            engines[e].descriptor.engine_id@,
        ));
    }
}

/// The results of a request in record order: every result of every engine is there,
/// with its engine, and nothing else is; and engines stand in the order of their
/// ids.
pub proof fn lemma_the_record_order(engines: Seq<EngineOutput>, i: int, j: int, e: int, r: int)
    requires
        0 <= i <= j < payload::all_items(engines).len(),
        0 <= e < engines.len(),
        0 <= r < engines[e].results@.len(),
    ensures
        exists|f: int, q: int|
            #![trigger engines[f].results@[q]]
            0 <= f < engines.len() && 0 <= q < engines[f].results@.len() && payload::all_items(
                engines,
            )[i] == (Item { descriptor: engines[f].descriptor, result: engines[f].results@[q] }),
        payload::all_items(engines).contains(
            Item { descriptor: engines[e].descriptor, result: engines[e].results@[r] },
        ),
        !text::text_less(
            payload::all_items(engines)[j].descriptor.engine_id@,
            payload::all_items(engines)[i].descriptor.engine_id@,
        ),
{
    broadcast use vstd::seq_lib::group_to_multiset_ensures;

    let lt = payload::engine_order();
    let ordered = sorting::sorted(engines, lt);
    sorting::lemma_sorted_keeps_items(engines, lt);
    sorting::lemma_order_by_key(
        lt,
        |x: EngineOutput| text::byte_key(x.descriptor.engine_id@),
    );
    sorting::lemma_sorted_ascending(engines, lt);
    lemma_item_from(ordered, ordered.len() as int, i);
    let items = payload::all_items(engines);
    let (a, q) = choose|a: int, q: int|
        #![trigger ordered[a].results@[q]]
        0 <= a < ordered.len() && 0 <= q < ordered[a].results@.len() && items[i] == (Item {
            descriptor: ordered[a].descriptor,
            result: ordered[a].results@[q],
        });
    sorting::lemma_sorted_item(engines, lt, a);
    let f = choose|f: int| 0 <= f < engines.len() && engines[f] == ordered[a];
    assert(engines[f].results@[q] == ordered[a].results@[q]);
    assert(engines.contains(engines[e]));
    assert(ordered.to_multiset().count(engines[e]) > 0);
    let b = choose|b: int| 0 <= b < ordered.len() && ordered[b] == engines[e];
    lemma_item_of(ordered, ordered.len() as int, b, r);
    assert forall|x: int, y: int| 0 <= x < y < ordered.len() implies !text::text_less(
        (#[trigger] ordered[y]).descriptor.engine_id@,
        (#[trigger] ordered[x]).descriptor.engine_id@,
    ) by {
        assert(!lt(ordered[y], ordered[x]));
    }
    if i < j {
        lemma_items_ordered(ordered, ordered.len() as int, i, j);
    } else {
        text::lemma_text_less_irreflexive(items[i].descriptor.engine_id@);
    }
}

/// What assembly does to a result. It marks the evidence stale exactly when the
/// registry does, adds what the claim is no evidence for, and applies policy to the
/// severity. Nothing else of it moves.
pub proof fn lemma_what_enters_the_record(request: AssembleRequest, p: PreparedModel, i: int)
    requires
        payload::request_problem(request) is None,
        payload::is_prepared(p, request),
        0 <= i < p.results.len(),
    ensures
        p.results.len() == payload::all_items(request.engines@).len(),
        ({
            let was = payload::all_items(request.engines@)[i].result;
            let now = p.results[i];
            let policy = request.policy.severity;
            let low = severity::kept_low(was, policy);
            let c = was.evidence.tier == EvidenceTier::C;
            &&& now == (MeasurementResult {
                severity: now.severity,
                evidence: now.evidence,
                ..was
            })
            &&& now.evidence.claim_id@ == was.evidence.claim_id@
            &&& now.evidence.tier == was.evidence.tier
            &&& now.evidence.citation@ == was.evidence.citation@
            &&& strmap::lookup(request.registry.registry.claims@, was.claim_id@) matches Some(claim)
                && now.evidence.stale == claim.stale
            &&& !low && !c ==> now.severity == was.severity
            &&& low && !c ==> if was.severity == Severity::Info {
                now.severity == Severity::Info
            } else {
                now.severity == Severity::Low
            }
            &&& c ==> now.severity.rank() <= policy.max_severity_for_c_tier.rank()
            &&& now.severity.rank() <= was.severity.rank()
        }),
{
    let items = payload::all_items(request.engines@);
    lemma_item_passed(items, 0, request.compare_context, *request.registry, i);
    assert(payload::is_assembled(p.results[i], items[i], *request.registry, *request.policy));
}

proof fn lemma_merged_only(lines: Seq<Seq<char>>, extra: Seq<Seq<char>>, n: int, line: Seq<char>)
    requires
        0 <= n <= extra.len(),
    ensures
        payload::merged(lines, extra, n).contains(line) ==> lines.contains(line) || extra.contains(
            line,
        ),
    decreases n,
{
    if n > 0 {
        lemma_merged_only(lines, extra, n - 1, line);
        let before = payload::merged(lines, extra, n - 1);
        let after = payload::merged(lines, extra, n);
        if after.contains(line) {
            let i = choose|i: int| 0 <= i < after.len() && after[i] == line;
            if i < before.len() {
                assert(before[i] == line);
            } else {
                assert(extra[n - 1] == line);
            }
        }
    }
}

/// Reconciling evidence makes no line up: each is the engine's or the claim's.
pub proof fn lemma_no_caveat_is_made_up(
    out: MeasurementResult,
    result: MeasurementResult,
    claim: ResolvedModel,
    line: Seq<char>,
)
    requires
        payload::is_reconciled(out, result, claim),
        text::texts(out.evidence.does_not_predict@).contains(line),
    ensures
        text::texts(result.evidence.does_not_predict@).contains(line)
            || claim.claim.does_not_predict.contains(line),
{
    let extra = claim.claim.does_not_predict;
    lemma_merged_only(
        text::texts(result.evidence.does_not_predict@),
        extra,
        extra.len() as int,
        line,
    );
}

/// Whether a result says of its claim that it is of one tier where the registry says
/// another.
pub open spec fn tier_disputed(
    result: MeasurementResult,
    claims: Seq<(Seq<char>, ResolvedModel)>,
    line: Seq<char>,
) -> bool {
    strmap::lookup(claims, result.claim_id@) matches Some(claim) && result.evidence.tier
        != claim.claim.tier && line == result.claim_id@ + " is tier "@
        + result.evidence.tier.wire_name() + " here and tier "@ + claim.claim.tier.wire_name()
        + " in the registry"@
}

proof fn lemma_disputes(
    results: Seq<MeasurementResult>,
    claims: Seq<(Seq<char>, ResolvedModel)>,
    n: int,
    line: Seq<char>,
)
    requires
        0 <= n <= results.len(),
    ensures
        strmap::keys_ascend(payload::skew_lines(results, claims, n)),
        strmap::has_key(payload::skew_lines(results, claims, n), line) <==> exists|i: int|
            0 <= i < n && tier_disputed(#[trigger] results[i], claims, line),
    decreases n,
{
    let rows = payload::skew_lines(results, claims, n);
    if n > 0 {
        lemma_disputes(results, claims, n - 1, line);
        let before = payload::skew_lines(results, claims, n - 1);
        let r = results[n - 1];
        if payload::is_skewed(r, claims) {
            strmap::lemma_inserted(
                before,
                payload::skew_line(r, strmap::lookup(claims, r.claim_id@)->Some_0),
                (),
            );
        }
        if strmap::has_key(before, line) {
            let i = choose|i: int| 0 <= i < n - 1 && tier_disputed(#[trigger] results[i], claims, line);
            assert(tier_disputed(results[i], claims, line));
        }
    } else {
        strmap::lemma_lookup_iff(rows, line);
    }
}

/// A payload says of a claim that its tier is disputed exactly when a result and the
/// registry grade it differently.
pub proof fn lemma_every_disputed_tier_is_reported(
    request: AssembleRequest,
    p: PreparedModel,
    line: Seq<char>,
)
    requires
        payload::is_prepared(p, request),
    ensures
        p.registry_skew.contains(line) <==> exists|i: int|
            0 <= i < p.results.len() && tier_disputed(
                #[trigger] p.results[i],
                request.registry.registry.claims@,
                line,
            ),
{
    let claims = request.registry.registry.claims@;
    let n = p.results.len() as int;
    let rows = payload::skew_lines(p.results, claims, n);
    lemma_disputes(p.results, claims, n, line);
    strmap::lemma_lookup_iff(rows, line);
    if p.registry_skew.contains(line) {
        let i = choose|i: int| 0 <= i < p.registry_skew.len() && p.registry_skew[i] == line;
        assert(rows[i].0 == line);
    }
    if strmap::has_key(rows, line) {
        let i = choose|i: int| 0 <= i < rows.len() && (#[trigger] rows[i]).0 == line;
        assert(p.registry_skew[i] == line);
    }
}

/// The results of an engine are the results that name it, in the order they stand.
pub proof fn lemma_grouping_is_by_engine(
    results: Seq<MeasurementResult>,
    engine_id: Seq<char>,
    n: int,
)
    requires
        0 <= n <= results.len(),
    ensures
        payload::of_engine(results, engine_id, n).map_values(|r: &MeasurementResult| *r)
            == results.take(n).filter(|r: MeasurementResult| r.engine_id@ == engine_id),
    decreases n,
{
    reveal(Seq::filter);
    let own = |r: MeasurementResult| r.engine_id@ == engine_id;
    let group = payload::of_engine(results, engine_id, n).map_values(
        |r: &MeasurementResult| *r,
    );
    if n > 0 {
        lemma_grouping_is_by_engine(results, engine_id, n - 1);
        assert(results.take(n).drop_last() =~= results.take(n - 1));
        assert(results.take(n).last() == results[n - 1]);
    }
    assert(group =~= results.take(n).filter(own));
}

/// Two results share a pairing key exactly when they are of one metric at one place.
pub proof fn lemma_what_pairs(a: MeasurementResult, b: MeasurementResult)
    ensures
        payload::pairs_with(a, b) <==> {
            &&& a.metric_id@ == b.metric_id@
            &&& a.scope.kind == b.scope.kind
            &&& schema_payload::optional_view(a.scope.path) == schema_payload::optional_view(
                b.scope.path,
            )
            &&& schema_payload::optional_view(a.scope.blob_oid) == schema_payload::optional_view(
                b.scope.blob_oid,
            )
            &&& schema_payload::optional_view(a.scope.symbol) == schema_payload::optional_view(
                b.scope.symbol,
            )
            &&& a.scope.line_span == b.scope.line_span
        },
{
    schema_payload::lemma_scopes_bind(a.scope, b.scope);
}

// --- why it is refused ----------------------------------------------------

/// Whether a result has the defect that an error tells of.
pub open spec fn has_defect(
    items: Seq<Item>,
    i: int,
    ctx: CompareContext,
    registry: LoadedRegistry,
    e: AssemblyErrorModel,
) -> bool {
    let r = items[i].result;
    let d = items[i].descriptor;
    let decl = strmap::lookup(registry.registry.metrics@, r.metric_id@);
    match e {
        AssemblyErrorModel::EngineMismatch { metric_id, claimed, actual } => metric_id
            == r.metric_id@ && claimed == r.engine_id@ && actual == d.engine_id@ && claimed
            != actual,
        AssemblyErrorModel::FamilyMismatch { engine_id, metric_id, result, descriptor, regime } =>
        engine_id == d.engine_id@ && metric_id == r.metric_id@ && result == r.family && descriptor
            == d.family && regime == r.measurement_regime.family_of() && (result != descriptor
            || result != regime),
        AssemblyErrorModel::Unsealed { engine_id, metric_id } => engine_id == d.engine_id@
            && metric_id == r.metric_id@ && r.digest@.len() == 0,
        AssemblyErrorModel::PolicyHash(_) => !engine::fits(r.value) || (r.delta matches Some(delta)
            && !engine::fits(delta)),
        AssemblyErrorModel::DigestMismatch { engine_id, metric_id, base_oid, head_oid } => engine_id
            == d.engine_id@ && metric_id == r.metric_id@ && base_oid == ctx.base_oid@ && head_oid
            == ctx.head_oid@ && r.digest@ != r.digest_against(ctx),
        AssemblyErrorModel::UndeclaredMetric { engine_id, metric_id } => engine_id == d.engine_id@
            && metric_id == r.metric_id@ && decl is None,
        AssemblyErrorModel::MetricRebound { metric_id, declared, cited } => metric_id
            == r.metric_id@ && cited == r.claim_id@ && declared != cited && (decl matches Some(x)
            && x.claim_id@ == declared),
        AssemblyErrorModel::MetricDeclarationMismatch { metric_id, field, declared, carried } =>
        metric_id == r.metric_id@ && (decl matches Some(x) && ((field == "class"@ && x.class
            != r.metric_class && declared == x.class.variant_name() && carried
            == r.metric_class.variant_name()) || (field == "deterministic"@ && x.deterministic
            != r.deterministic && declared == (if x.deterministic {
            "true"@
        } else {
            "false"@
        }) && carried == (if r.deterministic {
            "true"@
        } else {
            "false"@
        })))),
        AssemblyErrorModel::EvidenceClaimMismatch { metric_id, claim_id, evidence_claim_id } =>
        metric_id == r.metric_id@ && claim_id == r.claim_id@ && evidence_claim_id
            == r.evidence.claim_id@ && claim_id != evidence_claim_id,
        AssemblyErrorModel::UnknownTamperSignal(metric_id) => metric_id == r.metric_id@ && r.family
            == EngineFamily::Tamper && forall|signal: TamperSignal| !#[trigger]
            named_for(r, signal),
        AssemblyErrorModel::UnknownClaim { metric_id, claim_id } => metric_id == r.metric_id@
            && claim_id == r.claim_id@ && strmap::lookup(registry.registry.claims@, claim_id)
            is None,
        AssemblyErrorModel::DuplicateResult { metric_id, scope } => metric_id == r.metric_id@
            && scope == r.scope && exists|j: int|
            0 <= j < i && payload::pairs_with((#[trigger] items[j]).result, r),
        _ => false,
    }
}

proof fn lemma_item_defect(
    items: Seq<Item>,
    from: int,
    ctx: CompareContext,
    registry: LoadedRegistry,
) -> (i: int)
    requires
        0 <= from <= items.len(),
        payload::items_problem(items, from, ctx, registry) is Some,
    ensures
        0 <= i < items.len(),
        has_defect(
            items,
            i,
            ctx,
            registry,
            payload::items_problem(items, from, ctx, registry)->Some_0,
        ),
    decreases items.len() - from,
{
    if payload::item_problem(items, from, ctx, registry) is Some {
        let r = items[from].result;
        assert forall|signal: TamperSignal| tamper_signals::signal_named(r.metric_id@) is None implies
        !#[trigger] named_for(r, signal) by {
            if named_for(r, signal) {
                tamper_signals::lemma_flags_name_their_signals(signal);
            }
        }
        from
    } else {
        lemma_item_defect(items, from + 1, ctx, registry)
    }
}

/// Whether a set of engines has the defect that an error tells of.
pub open spec fn roster_defect(
    engines: Seq<EngineOutput>,
    failures: Seq<EngineFailure>,
    registry: LoadedRegistry,
    policy: Policy,
    e: AssemblyErrorModel,
) -> bool {
    match e {
        AssemblyErrorModel::DuplicateEngine(id) => exists|i: int, j: int|
            0 <= i < j < engines.len() && (#[trigger] engines[i]).descriptor.engine_id@ == id && (
            #[trigger] engines[j]).descriptor.engine_id@ == id,
        AssemblyErrorModel::DuplicateFailure(id) => exists|i: int, j: int|
            0 <= i < j < failures.len() && (#[trigger] failures[i]).engine_id@ == id && (
            #[trigger] failures[j]).engine_id@ == id,
        AssemblyErrorModel::EngineSucceededAndFailed(id) => contributes(engines, id) && fails(
            failures,
            id,
        ),
        AssemblyErrorModel::UnknownEngine(id) => (contributes(engines, id) || fails(failures, id))
            && !awaited(registry, policy, id),
        AssemblyErrorModel::MissingEngine(id) => awaited(registry, policy, id) && !contributes(
            engines,
            id,
        ) && !fails(failures, id),
        _ => false,
    }
}

proof fn lemma_repeat_found(engines: Seq<EngineOutput>, from: int)
    requires
        0 <= from <= engines.len(),
    ensures
        payload::repeated_output(engines, from) matches Some(e) ==> (e
            matches AssemblyErrorModel::DuplicateEngine(id) && exists|i: int, j: int|
            0 <= i < j < engines.len() && (#[trigger] engines[i]).descriptor.engine_id@ == id && (
            #[trigger] engines[j]).descriptor.engine_id@ == id),
    decreases engines.len() - from,
{
    if from < engines.len() {
        let id = engines[from].descriptor.engine_id@;
        lemma_output_id(engines, from, id);
        if strmap::has_key(payload::output_ids(engines, from), id) {
            let k = choose|k: int|
                0 <= k < from && (#[trigger] engines[k]).descriptor.engine_id@ == id;
            assert(engines[k].descriptor.engine_id@ == id && engines[from].descriptor.engine_id@
                == id);
        } else {
            lemma_repeat_found(engines, from + 1);
        }
    }
}

proof fn lemma_contradiction_found(
    succeeded: Seq<(Seq<char>, ())>,
    failures: Seq<EngineFailure>,
    from: int,
)
    requires
        0 <= from <= failures.len(),
    ensures
        payload::contradicting_failure(succeeded, failures, from) matches Some(e) ==> match e {
            AssemblyErrorModel::DuplicateFailure(id) => exists|i: int, j: int|
                0 <= i < j < failures.len() && (#[trigger] failures[i]).engine_id@ == id && (
                #[trigger] failures[j]).engine_id@ == id,
            AssemblyErrorModel::EngineSucceededAndFailed(id) => strmap::has_key(succeeded, id)
                && fails(failures, id),
            _ => false,
        },
    decreases failures.len() - from,
{
    if from < failures.len() {
        let id = failures[from].engine_id@;
        lemma_failure_id(failures, from, id);
        if strmap::has_key(payload::failure_ids(failures, from), id) {
            let k = choose|k: int| 0 <= k < from && (#[trigger] failures[k]).engine_id@ == id;
            assert(failures[k].engine_id@ == id && failures[from].engine_id@ == id);
        } else {
            lemma_contradiction_found(succeeded, failures, from + 1);
        }
    }
}

proof fn lemma_stranger_found(
    named: Seq<(Seq<char>, ())>,
    expected: Seq<(Seq<char>, ())>,
    from: int,
)
    requires
        0 <= from <= named.len(),
    ensures
        payload::unexpected(named, expected, from) matches Some(e) ==> (e
            matches AssemblyErrorModel::UnknownEngine(id) && !strmap::has_key(expected, id)
            && exists|i: int| 0 <= i < named.len() && (#[trigger] named[i]).0 == id),
    decreases named.len() - from,
{
    if from < named.len() {
        if strmap::has_key(expected, named[from].0) {
            lemma_stranger_found(named, expected, from + 1);
        } else {
            assert(named[from].0 == named[from].0);
        }
    }
}

proof fn lemma_gap_found(
    expected: Seq<(Seq<char>, ())>,
    succeeded: Seq<(Seq<char>, ())>,
    failed: Seq<(Seq<char>, ())>,
    from: int,
)
    requires
        0 <= from <= expected.len(),
    ensures
        payload::unaccounted(expected, succeeded, failed, from) matches Some(e) ==> (e
            matches AssemblyErrorModel::MissingEngine(id) && !strmap::has_key(succeeded, id)
            && !strmap::has_key(failed, id) && exists|i: int|
            0 <= i < expected.len() && (#[trigger] expected[i]).0 == id),
    decreases expected.len() - from,
{
    if from < expected.len() {
        if strmap::has_key(succeeded, expected[from].0) || strmap::has_key(
            failed,
            expected[from].0,
        ) {
            lemma_gap_found(expected, succeeded, failed, from + 1);
        }
    }
}

proof fn lemma_roster_defect(
    engines: Seq<EngineOutput>,
    failures: Seq<EngineFailure>,
    registry: LoadedRegistry,
    policy: Policy,
)
    ensures
        payload::roster_problem(engines, failures, payload::roster(registry, policy)) matches Some(
            e,
        ) ==> roster_defect(engines, failures, registry, policy, e),
{
    let expected = payload::roster(registry, policy);
    let succeeded = payload::output_ids(engines, engines.len() as int);
    let failed = payload::failure_ids(failures, failures.len() as int);
    lemma_repeat_found(engines, 0);
    lemma_contradiction_found(succeeded, failures, 0);
    lemma_stranger_found(succeeded, expected, 0);
    lemma_stranger_found(failed, expected, 0);
    lemma_gap_found(expected, succeeded, failed, 0);
    if let Some(e) = payload::roster_problem(engines, failures, expected) {
        match e {
            AssemblyErrorModel::EngineSucceededAndFailed(id) => {
                lemma_output_id(engines, engines.len() as int, id);
            },
            AssemblyErrorModel::UnknownEngine(id) => {
                lemma_output_id(engines, engines.len() as int, id);
                lemma_failure_id(failures, failures.len() as int, id);
                lemma_who_is_awaited(registry, policy, id);
                strmap::lemma_lookup_iff(succeeded, id);
                strmap::lemma_lookup_iff(failed, id);
            },
            AssemblyErrorModel::MissingEngine(id) => {
                lemma_output_id(engines, engines.len() as int, id);
                lemma_failure_id(failures, failures.len() as int, id);
                lemma_who_is_awaited(registry, policy, id);
                strmap::lemma_lookup_iff(expected, id);
            },
            _ => {},
        }
    }
}

/// Every refusal tells of a defect that is there: of the set of engines, of a
/// self-report that vouches for its own policy edit, or of a result.
pub proof fn lemma_every_refusal_names_a_defect(request: AssembleRequest)
    ensures
        payload::request_problem(request) matches Some(e) ==> {
            let engines = sorting::sorted(request.engines@, payload::engine_order());
            let items = payload::all_items(request.engines@);
            ||| roster_defect(
                engines,
                request.engine_failures@,
                *request.registry,
                *request.policy,
                e,
            )
            ||| (e matches AssemblyErrorModel::UnverifiableJustification(reference)
                && request.record_kind == RecordKind::SelfReport && meaning::vouched(
                request.policy_change,
            ) && reference == request.policy_change->Some_0.justification->Some_0.source())
            ||| exists|i: int|
                0 <= i < items.len() && #[trigger] has_defect(
                    items,
                    i,
                    request.compare_context,
                    *request.registry,
                    e,
                )
        },
{
    let engines = sorting::sorted(request.engines@, payload::engine_order());
    let items = payload::all_items(request.engines@);
    lemma_roster_defect(engines, request.engine_failures@, *request.registry, *request.policy);
    if payload::items_problem(items, 0, request.compare_context, *request.registry) is Some {
        let i = lemma_item_defect(items, 0, request.compare_context, *request.registry);
    }
}

/// What a request says of itself is carried over as it stands: the binary, the kind,
/// the comparison, the invocation, what was measured instead, what was not read, the
/// failures and the policy edit. The policy is carried by its digest. The verdict is
/// reached over all of that.
pub proof fn lemma_what_is_carried_over(request: AssembleRequest, p: PreparedModel, recovered: bool)
    requires
        payload::is_prepared(p, request),
    ensures
        p.tool == request.tool,
        p.record_kind == request.record_kind,
        p.compare_context == request.compare_context,
        p.invocation == request.invocation,
        p.reserved == request.reserved,
        p.substitution == request.substitution,
        p.unreadable_paths == request.unreadable_paths@,
        p.self_measure == request.self_measure,
        p.policy_hash == canonical::digest_of(request.policy.json_model()),
        ({
            let ctx = p.judged_in(recovered);
            &&& ctx.policy == *request.policy
            &&& ctx.policy_change == request.policy_change
            &&& ctx.engine_failures == request.engine_failures@
            &&& ctx.unreadable_paths == text::texts(request.unreadable_paths@)
            &&& ctx.completeness == p.completeness
            &&& ctx.iteration_state_recovered == recovered
            &&& ctx.registry_skew == p.registry_skew
            &&& forall|id: Seq<char>| #[trigger]
                ctx.stale_claim_ids.contains(id) <==> exists|i: int|
                    0 <= i < request.registry.registry.claims@.len() && (
                    #[trigger] request.registry.registry.claims@[i]).1.stale
                        && request.registry.registry.claims@[i].1.claim.claim_id == id
        }),
{
    let claims = request.registry.registry.claims@;
    assert forall|id: Seq<char>| #[trigger]
        registry_load::stale_ids(claims).contains(id) <==> exists|i: int|
            0 <= i < claims.len() && (#[trigger] claims[i]).1.stale && claims[i].1.claim.claim_id
                == id by {
        registry_load::lemma_the_stale_claims(claims, id);
    }
}

} // verus!
