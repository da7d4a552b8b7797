//! A verdict does not depend on the order its results arrived in.
use vstd::prelude::*;

use super::severity;
use super::ContextModel;
use crate::schema::enums::{EngineFamily, Severity};
use crate::schema::payload::{IterationState, MeasurementResult, ReasonModel};
use crate::sorting;
use crate::strmap;
use crate::text;
use crate::verdict;

verus! {

/// Whether a result gives a reason, or a sentence, of its own.
pub open spec fn speaks(result: MeasurementResult) -> bool {
    ||| severity::signal_of(result) is Some
    ||| severity::suite_failed(result)
    ||| is_outcome(result)
}

/// Whether a result is the sentence a suite's outcome is told in.
pub open spec fn is_outcome(result: MeasurementResult) -> bool {
    result.family == EngineFamily::Tests && result.metric_id@ == severity::SUITE_OUTCOME_METRIC@
}

/// Whether no two different results speak under one metric.
pub open spec fn speak_once(results: Seq<MeasurementResult>) -> bool {
    forall|i: int, j: int|
        0 <= i < results.len() && 0 <= j < results.len() && speaks(#[trigger] results[i]) && speaks(
            #[trigger] results[j],
        ) && results[i].metric_id@ == results[j].metric_id@ ==> results[i] == results[j]
}

proof fn lemma_shared(a: Seq<MeasurementResult>, b: Seq<MeasurementResult>, i: int) -> (j: int)
    requires
        a.to_multiset() =~= b.to_multiset(),
        0 <= i < a.len(),
    ensures
        0 <= j < b.len(),
        b[j] == a[i],
{
    broadcast use vstd::seq_lib::group_to_multiset_ensures;

    assert(a.contains(a[i]));
    assert(b.to_multiset().count(a[i]) > 0);
    assert(b.contains(a[i]));
    choose|j: int| 0 <= j < b.len() && b[j] == a[i]
}

// --- sets of names --------------------------------------------------------

/// The keys of the first `n` kept items, once each, in order.
spec fn gathered(
    s: Seq<MeasurementResult>,
    keep: spec_fn(MeasurementResult) -> bool,
    key: spec_fn(MeasurementResult) -> Seq<char>,
    n: int,
) -> Seq<(Seq<char>, ())>
    decreases n,
{
    if n <= 0 {
        Seq::empty()
    } else if keep(s[n - 1]) {
        strmap::inserted(gathered(s, keep, key, n - 1), key(s[n - 1]), ())
    } else {
        gathered(s, keep, key, n - 1)
    }
}

proof fn lemma_gathered(
    s: Seq<MeasurementResult>,
    keep: spec_fn(MeasurementResult) -> bool,
    key: spec_fn(MeasurementResult) -> Seq<char>,
    n: int,
    k: Seq<char>,
)
    requires
        0 <= n <= s.len(),
    ensures
        strmap::keys_ascend(gathered(s, keep, key, n)),
        strmap::has_key(gathered(s, keep, key, n), k) <==> exists|i: int|
            0 <= i < n && keep(#[trigger] s[i]) && key(s[i]) == k,
    decreases n,
{
    if n > 0 {
        lemma_gathered(s, keep, key, n - 1, k);
        let before = gathered(s, keep, key, n - 1);
        if strmap::has_key(before, k) {
            let i = choose|i: int| 0 <= i < n - 1 && keep(#[trigger] s[i]) && key(s[i]) == k;
            assert(keep(s[i]) && key(s[i]) == k);
        }
        if keep(s[n - 1]) {
            strmap::lemma_inserted(before, key(s[n - 1]), ());
        }
    }
}

proof fn lemma_gathered_permuted(
    a: Seq<MeasurementResult>,
    b: Seq<MeasurementResult>,
    keep: spec_fn(MeasurementResult) -> bool,
    key: spec_fn(MeasurementResult) -> Seq<char>,
)
    requires
        a.to_multiset() =~= b.to_multiset(),
    ensures
        gathered(a, keep, key, a.len() as int) == gathered(b, keep, key, b.len() as int),
{
    let x = gathered(a, keep, key, a.len() as int);
    let y = gathered(b, keep, key, b.len() as int);
    lemma_gathered(a, keep, key, a.len() as int, Seq::empty());
    lemma_gathered(b, keep, key, b.len() as int, Seq::empty());
    assert forall|k: Seq<char>| #[trigger] strmap::has_key(x, k) == strmap::has_key(y, k) by {
        lemma_gathered(a, keep, key, a.len() as int, k);
        lemma_gathered(b, keep, key, b.len() as int, k);
        if strmap::has_key(x, k) {
            let i = choose|i: int| 0 <= i < a.len() && keep(#[trigger] a[i]) && key(a[i]) == k;
            let j = lemma_shared(a, b, i);
            assert(keep(b[j]) && key(b[j]) == k);
        }
        if strmap::has_key(y, k) {
            let i = choose|i: int| 0 <= i < b.len() && keep(#[trigger] b[i]) && key(b[i]) == k;
            let j = lemma_shared(b, a, i);
            assert(keep(a[j]) && key(a[j]) == k);
        }
    }
    strmap::lemma_same_keys(x, y);
}

proof fn lemma_ids_gathered(
    s: Seq<MeasurementResult>,
    keep: spec_fn(MeasurementResult) -> bool,
    n: int,
)
    ensures
        verdict::ids_where(s, keep, n) == gathered(
            s,
            keep,
            |r: MeasurementResult| r.metric_id@,
            n,
        ),
    decreases n,
{
    if n > 0 {
        lemma_ids_gathered(s, keep, n - 1);
    }
}

proof fn lemma_stale_gathered(s: Seq<MeasurementResult>, stale: Seq<Seq<char>>, n: int)
    ensures
        verdict::stale_cited(s, stale, n) == gathered(
            s,
            |r: MeasurementResult| verdict::cites_stale(r, stale),
            |r: MeasurementResult| r.claim_id@,
            n,
        ),
    decreases n,
{
    if n > 0 {
        lemma_stale_gathered(s, stale, n - 1);
    }
}

// --- flags ----------------------------------------------------------------

proof fn lemma_flag_count(s: Seq<MeasurementResult>, n: int, v: MeasurementResult)
    requires
        0 <= n <= s.len(),
    ensures
        verdict::fired_flags(s, n).to_multiset().count(v) == (if severity::signal_of(v) is Some {
            s.take(n).to_multiset().count(v)
        } else {
            0
        }),
    decreases n,
{
    broadcast use vstd::seq_lib::group_to_multiset_ensures;

    if n == 0 {
        assert(verdict::fired_flags(s, 0) =~= s.take(0));
        assert(!s.take(0).contains(v));
    } else {
        lemma_flag_count(s, n - 1, v);
        assert(s.take(n) =~= s.take(n - 1).push(s[n - 1]));
        assert(s.take(n).to_multiset() =~= s.take(n - 1).to_multiset().insert(s[n - 1]));
        let before = verdict::fired_flags(s, n - 1);
        if severity::signal_of(s[n - 1]) is Some {
            assert(verdict::fired_flags(s, n).to_multiset() =~= before.to_multiset().insert(
                s[n - 1],
            ));
        }
    }
}

proof fn lemma_flags_permuted(
    a: Seq<MeasurementResult>,
    b: Seq<MeasurementResult>,
    ctx: ContextModel,
)
    requires
        a.to_multiset() =~= b.to_multiset(),
        speak_once(a),
    ensures
        verdict::flag_reasons(a, ctx) == verdict::flag_reasons(b, ctx),
{
    let fa = verdict::fired_flags(a, a.len() as int);
    let fb = verdict::fired_flags(b, b.len() as int);
    assert(a.take(a.len() as int) =~= a);
    assert(b.take(b.len() as int) =~= b);
    assert forall|v: MeasurementResult| #[trigger]
        fa.to_multiset().count(v) == fb.to_multiset().count(v) by {
        lemma_flag_count(a, a.len() as int, v);
        lemma_flag_count(b, b.len() as int, v);
    }
    assert(fa.to_multiset() =~= fb.to_multiset());
    let lt = verdict::flag_order();
    sorting::lemma_order_by_key(lt, |r: MeasurementResult| text::byte_key(r.metric_id@));
    assert forall|i: int, j: int| 0 <= i < j < fa.len() implies lt(
        #[trigger] fa[i],
        #[trigger] fa[j],
    ) || lt(fa[j], fa[i]) || fa[i] == fa[j] by {
        verdict::lemma_fired_from(a, a.len() as int, i);
        verdict::lemma_fired_from(a, a.len() as int, j);
        text::lemma_text_less_total(fa[i].metric_id@, fa[j].metric_id@);
        if fa[i].metric_id@ == fa[j].metric_id@ {
            let p = choose|p: int| 0 <= p < a.len() && a[p] == fa[i];
            let q = choose|q: int| 0 <= q < a.len() && a[q] == fa[j];
            assert(speaks(a[p]) && speaks(a[q]));
        }
    }
    sorting::lemma_sorted_permuted(fa, fb, lt);
}

// --- the suite ------------------------------------------------------------

proof fn lemma_outcome_said(s: Seq<MeasurementResult>, from: int, k: int)
    requires
        0 <= from <= k < s.len(),
        is_outcome(s[k]),
        speak_once(s),
    ensures
        verdict::suite_outcome_from(s, from) == verdict::suite_outcome_from(seq![s[k]], 0),
    decreases k - from,
{
    let one = seq![s[k]];
    assert(one[0] == s[k]);
    if is_outcome(s[from]) {
        assert(speaks(s[from]) && speaks(s[k]));
        assert(s[from] == s[k]);
    } else {
        lemma_outcome_said(s, from + 1, k);
    }
}

proof fn lemma_no_outcome_said(s: Seq<MeasurementResult>, from: int)
    requires
        0 <= from,
        forall|i: int| 0 <= i < s.len() ==> !is_outcome(#[trigger] s[i]),
    ensures
        verdict::suite_outcome_from(s, from) == "exited non-zero"@,
    decreases s.len() - from,
{
    if from < s.len() {
        lemma_no_outcome_said(s, from + 1);
    }
}

proof fn lemma_outcome_permuted(a: Seq<MeasurementResult>, b: Seq<MeasurementResult>)
    requires
        a.to_multiset() =~= b.to_multiset(),
        speak_once(a),
        speak_once(b),
    ensures
        verdict::suite_outcome_from(a, 0) == verdict::suite_outcome_from(b, 0),
{
    if exists|i: int| 0 <= i < a.len() && is_outcome(#[trigger] a[i]) {
        let i = choose|i: int| 0 <= i < a.len() && is_outcome(#[trigger] a[i]);
        let j = lemma_shared(a, b, i);
        lemma_outcome_said(a, 0, i);
        lemma_outcome_said(b, 0, j);
    } else {
        assert forall|i: int| 0 <= i < b.len() implies !is_outcome(#[trigger] b[i]) by {
            let j = lemma_shared(b, a, i);
            assert(!is_outcome(a[j]));
        }
        lemma_no_outcome_said(a, 0);
        lemma_no_outcome_said(b, 0);
    }
}

proof fn lemma_suite_reasons(
    s: Seq<MeasurementResult>,
    ctx: ContextModel,
    n: int,
    failed: MeasurementResult,
)
    requires
        0 <= n <= s.len(),
        severity::suite_failed(failed),
        forall|i: int|
            0 <= i < s.len() && severity::suite_failed(#[trigger] s[i]) ==> s[i] == failed,
    ensures
        verdict::suite_reasons(s, ctx, n) == Seq::new(
            s.take(n).to_multiset().count(failed),
            |i: int| verdict::suite_reason(failed, verdict::suite_outcome_from(s, 0), ctx),
        ),
    decreases n,
{
    broadcast use vstd::seq_lib::group_to_multiset_ensures;

    let one = verdict::suite_reason(failed, verdict::suite_outcome_from(s, 0), ctx);
    if n == 0 {
        assert(!s.take(0).contains(failed));
        assert(verdict::suite_reasons(s, ctx, 0) =~= Seq::new(0, |i: int| one));
    } else {
        lemma_suite_reasons(s, ctx, n - 1, failed);
        assert(s.take(n) =~= s.take(n - 1).push(s[n - 1]));
        assert(s.take(n).to_multiset() =~= s.take(n - 1).to_multiset().insert(s[n - 1]));
        let m = s.take(n).to_multiset().count(failed);
        assert(verdict::suite_reasons(s, ctx, n) =~= Seq::new(m, |i: int| one));
    }
}

proof fn lemma_no_suite_reasons(s: Seq<MeasurementResult>, ctx: ContextModel, n: int)
    requires
        n <= s.len(),
        forall|i: int| 0 <= i < s.len() ==> !severity::suite_failed(#[trigger] s[i]),
    ensures
        verdict::suite_reasons(s, ctx, n) == Seq::<ReasonModel>::empty(),
    decreases n,
{
    if n > 0 {
        lemma_no_suite_reasons(s, ctx, n - 1);
    }
}

proof fn lemma_suite_permuted(
    a: Seq<MeasurementResult>,
    b: Seq<MeasurementResult>,
    ctx: ContextModel,
)
    requires
        a.to_multiset() =~= b.to_multiset(),
        speak_once(a),
        speak_once(b),
    ensures
        verdict::suite_reasons(a, ctx, a.len() as int) == verdict::suite_reasons(
            b,
            ctx,
            b.len() as int,
        ),
{
    lemma_outcome_permuted(a, b);
    assert(a.take(a.len() as int) =~= a);
    assert(b.take(b.len() as int) =~= b);
    if exists|i: int| 0 <= i < a.len() && severity::suite_failed(#[trigger] a[i]) {
        let k = choose|i: int| 0 <= i < a.len() && severity::suite_failed(#[trigger] a[i]);
        let failed = a[k];
        assert forall|i: int| 0 <= i < a.len() && severity::suite_failed(#[trigger] a[i]) implies a[i]
            == failed by {
            assert(speaks(a[i]) && speaks(a[k]));
        }
        assert forall|i: int| 0 <= i < b.len() && severity::suite_failed(#[trigger] b[i]) implies b[i]
            == failed by {
            let j = lemma_shared(b, a, i);
            assert(severity::suite_failed(a[j]));
        }
        lemma_suite_reasons(a, ctx, a.len() as int, failed);
        lemma_suite_reasons(b, ctx, b.len() as int, failed);
    } else {
        assert forall|i: int| 0 <= i < b.len() implies !severity::suite_failed(
            #[trigger] b[i],
        ) by {
            let j = lemma_shared(b, a, i);
            assert(!severity::suite_failed(a[j]));
        }
        lemma_no_suite_reasons(a, ctx, a.len() as int);
        lemma_no_suite_reasons(b, ctx, b.len() as int);
    }
}

// --- findings -------------------------------------------------------------

proof fn lemma_strongest(s: Seq<MeasurementResult>, ids: Seq<Seq<char>>, n: int, i: int)
    requires
        0 <= n <= s.len(),
    ensures
        0 <= i < n && ids.contains(s[i].metric_id@) ==> s[i].severity.rank()
            <= verdict::strongest_named(s, ids, n).rank(),
        verdict::strongest_named(s, ids, n) == Severity::Info || exists|k: int|
            0 <= k < n && ids.contains((#[trigger] s[k]).metric_id@) && s[k].severity
                == verdict::strongest_named(s, ids, n),
    decreases n,
{
    if n > 0 {
        lemma_strongest(s, ids, n - 1, i);
        let before = verdict::strongest_named(s, ids, n - 1);
        let after = verdict::strongest_named(s, ids, n);
        if after != Severity::Info {
            if after == before {
                let k = choose|k: int|
                    0 <= k < n - 1 && ids.contains((#[trigger] s[k]).metric_id@)
                        && s[k].severity == before;
                assert(ids.contains(s[k].metric_id@) && s[k].severity == after);
            } else {
                assert(ids.contains(s[n - 1].metric_id@) && s[n - 1].severity == after);
            }
        }
    }
}

proof fn lemma_strongest_no_less(
    a: Seq<MeasurementResult>,
    b: Seq<MeasurementResult>,
    ids: Seq<Seq<char>>,
)
    requires
        a.to_multiset() =~= b.to_multiset(),
    ensures
        verdict::strongest_named(a, ids, a.len() as int).rank() <= verdict::strongest_named(
            b,
            ids,
            b.len() as int,
        ).rank(),
{
    lemma_strongest(a, ids, a.len() as int, 0);
    let top = verdict::strongest_named(a, ids, a.len() as int);
    if top != Severity::Info {
        let k = choose|k: int|
            0 <= k < a.len() && ids.contains((#[trigger] a[k]).metric_id@) && a[k].severity == top;
        let j = lemma_shared(a, b, k);
        lemma_strongest(b, ids, b.len() as int, j);
    }
}

proof fn lemma_findings_permuted(
    a: Seq<MeasurementResult>,
    b: Seq<MeasurementResult>,
    ctx: ContextModel,
)
    requires
        a.to_multiset() =~= b.to_multiset(),
    ensures
        verdict::finding_reasons(a, ctx) == verdict::finding_reasons(b, ctx),
{
    let key = |r: MeasurementResult| r.metric_id@;
    let blocks = verdict::blocks_plainly(ctx);
    let advises = verdict::advises_plainly(ctx);
    lemma_ids_gathered(a, blocks, a.len() as int);
    lemma_ids_gathered(b, blocks, b.len() as int);
    lemma_gathered_permuted(a, b, blocks, key);
    lemma_ids_gathered(a, advises, a.len() as int);
    lemma_ids_gathered(b, advises, b.len() as int);
    lemma_gathered_permuted(a, b, advises, key);
    let blocking = verdict::blocking_ids(a, ctx);
    let advisory = verdict::advisory_ids(a, ctx);
    lemma_strongest_no_less(a, b, blocking);
    lemma_strongest_no_less(b, a, blocking);
    lemma_strongest_no_less(a, b, advisory);
    lemma_strongest_no_less(b, a, advisory);
}

// --- the law --------------------------------------------------------------

proof fn lemma_one_way(a: Seq<MeasurementResult>, b: Seq<MeasurementResult>, ctx: ContextModel)
    requires
        a.to_multiset() =~= b.to_multiset(),
    ensures
        verdict::countable(a, ctx) ==> verdict::countable(b, ctx),
        verdict::blocks(a, ctx) ==> verdict::blocks(b, ctx),
        speak_once(a) ==> speak_once(b),
{
    if exists|i: int| 0 <= i < a.len() && severity::counts(#[trigger] a[i], ctx) {
        let i = choose|i: int| 0 <= i < a.len() && severity::counts(#[trigger] a[i], ctx);
        let j = lemma_shared(a, b, i);
        assert(severity::counts(b[j], ctx));
    }
    if exists|i: int| 0 <= i < a.len() && severity::stops(#[trigger] a[i], ctx) {
        let i = choose|i: int| 0 <= i < a.len() && severity::stops(#[trigger] a[i], ctx);
        let j = lemma_shared(a, b, i);
        assert(severity::stops(b[j], ctx));
    }
    if speak_once(a) {
        assert forall|i: int, j: int|
            0 <= i < b.len() && 0 <= j < b.len() && speaks(#[trigger] b[i]) && speaks(
                #[trigger] b[j],
            ) && b[i].metric_id@ == b[j].metric_id@ implies b[i] == b[j] by {
            let p = lemma_shared(b, a, i);
            let q = lemma_shared(b, a, j);
            assert(speaks(a[p]) && speaks(a[q]));
        }
    }
}

/// Neither the verdict nor a single reason depends on the order the results
/// arrived in, where no two different results speak under one metric.
pub proof fn lemma_result_order_is_irrelevant(
    a: Seq<MeasurementResult>,
    b: Seq<MeasurementResult>,
    ctx: ContextModel,
    iteration: IterationState,
)
    requires
        a.to_multiset() =~= b.to_multiset(),
        speak_once(a),
    ensures
        verdict::all_reasons(a, ctx, iteration) == verdict::all_reasons(b, ctx, iteration),
        verdict::verdict_of(a, ctx, iteration) == verdict::verdict_of(b, ctx, iteration),
{
    lemma_one_way(a, b, ctx);
    lemma_one_way(b, a, ctx);
    lemma_flags_permuted(a, b, ctx);
    lemma_suite_permuted(a, b, ctx);
    lemma_findings_permuted(a, b, ctx);
    lemma_stale_gathered(a, ctx.stale_claim_ids, a.len() as int);
    lemma_stale_gathered(b, ctx.stale_claim_ids, b.len() as int);
    lemma_gathered_permuted(
        a,
        b,
        |r: MeasurementResult| verdict::cites_stale(r, ctx.stale_claim_ids),
        |r: MeasurementResult| r.claim_id@,
    );
    assert(verdict::notice_reasons(a, ctx) == verdict::notice_reasons(b, ctx));
    assert(verdict::cap_reasons(a, ctx, iteration) == verdict::cap_reasons(b, ctx, iteration));
}

} // verus!
