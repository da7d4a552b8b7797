//! What a comparison of two policies reports.
use vstd::prelude::*;

use super::meaning;
use super::policy_change;
use super::policy_change::{DeltaModel, Direction, Knob, PolicyChange};
use super::severity;
use crate::canonical;
use crate::canonical::JsonModel;
use crate::policy::{
    AgentPolicy, HistoryPolicy, LoopPolicy, PerfPolicy, Policy, RegistryPolicy, SandboxPolicy,
    SelfMeasureBinary, SelfMeasurePolicy, SeverityPolicy,
};
use crate::schema::enums::{EvidenceTier, Severity, TamperSignal};
use crate::schema::payload::MeasurementResult;
use crate::sorting;
use crate::strmap;
use crate::text;

verus! {

// --- walking members ------------------------------------------------------

/// Whether two objects have the same keys in the same places, each once.
spec fn aligned(b: Seq<(Seq<char>, JsonModel)>, a: Seq<(Seq<char>, JsonModel)>) -> bool {
    &&& b.len() == a.len()
    &&& forall|i: int| 0 <= i < b.len() ==> (#[trigger] b[i]).0 == a[i].0
    &&& forall|i: int, j: int|
        0 <= i < j < b.len() ==> (#[trigger] b[i]).0 != (#[trigger] b[j]).0
}

proof fn lemma_index(rows: Seq<(Seq<char>, JsonModel)>, from: int, i: int)
    requires
        0 <= from <= i < rows.len(),
        forall|p: int, q: int|
            0 <= p < q < rows.len() ==> (#[trigger] rows[p]).0 != (#[trigger] rows[q]).0,
    ensures
        policy_change::member_index(rows, rows[i].0, from) == i,
    decreases i - from,
{
    if from < i {
        assert(rows[from].0 != rows[i].0);
        lemma_index(rows, from + 1, i);
    }
}

proof fn lemma_keys_with(
    keys: Seq<(Seq<char>, ())>,
    rows: Seq<(Seq<char>, JsonModel)>,
    n: int,
    key: Seq<char>,
)
    requires
        strmap::keys_ascend(keys),
        0 <= n <= rows.len(),
    ensures
        strmap::keys_ascend(policy_change::keys_with(keys, rows, n)),
        strmap::has_key(policy_change::keys_with(keys, rows, n), key) <==> strmap::has_key(keys, key)
            || exists|i: int| 0 <= i < n && (#[trigger] rows[i]).0 == key,
    decreases n,
{
    if n > 0 {
        lemma_keys_with(keys, rows, n - 1, key);
        let before = policy_change::keys_with(keys, rows, n - 1);
        strmap::lemma_inserted(before, rows[n - 1].0, ());
        if exists|i: int| 0 <= i < n - 1 && (#[trigger] rows[i]).0 == key {
            let i = choose|i: int| 0 <= i < n - 1 && (#[trigger] rows[i]).0 == key;
            assert(rows[i].0 == key);
        }
    }
}

proof fn lemma_all_keys(
    b: Seq<(Seq<char>, JsonModel)>,
    a: Seq<(Seq<char>, JsonModel)>,
    key: Seq<char>,
)
    requires
        aligned(b, a),
    ensures
        strmap::keys_ascend(policy_change::all_keys(b, a)),
        strmap::has_key(policy_change::all_keys(b, a), key) <==> exists|i: int|
            0 <= i < b.len() && (#[trigger] b[i]).0 == key,
{
    let none = Seq::<(Seq<char>, ())>::empty();
    strmap::lemma_lookup_iff(none, key);
    lemma_keys_with(none, b, b.len() as int, key);
    let half = policy_change::keys_with(none, b, b.len() as int);
    lemma_keys_with(half, a, a.len() as int, key);
    if exists|i: int| 0 <= i < a.len() && (#[trigger] a[i]).0 == key {
        let i = choose|i: int| 0 <= i < a.len() && (#[trigger] a[i]).0 == key;
        assert(b[i].0 == key);
    }
}

/// The deltas under the member at `i`.
spec fn under(
    prefix: Seq<char>,
    b: Seq<(Seq<char>, JsonModel)>,
    a: Seq<(Seq<char>, JsonModel)>,
    i: int,
) -> Seq<DeltaModel> {
    policy_change::walked(policy_change::path_to(prefix, b[i].0), b[i].1, a[i].1)
}

proof fn lemma_walked_keys(
    prefix: Seq<char>,
    b: Seq<(Seq<char>, JsonModel)>,
    a: Seq<(Seq<char>, JsonModel)>,
    n: int,
    d: DeltaModel,
)
    requires
        aligned(b, a),
        0 <= n <= policy_change::all_keys(b, a).len(),
    ensures
        policy_change::walked_keys(prefix, b, a, policy_change::all_keys(b, a), n).contains(d)
            <==> exists|k: int, i: int|
            #![trigger policy_change::all_keys(b, a)[k], b[i]]
            0 <= k < n && 0 <= i < b.len() && b[i].0 == policy_change::all_keys(b, a)[k].0 && under(
                prefix,
                b,
                a,
                i,
            ).contains(d),
    decreases n,
{
    let keys = policy_change::all_keys(b, a);
    if n > 0 {
        lemma_walked_keys(prefix, b, a, n - 1, d);
        let before = policy_change::walked_keys(prefix, b, a, keys, n - 1);
        let all = policy_change::walked_keys(prefix, b, a, keys, n);
        let key = keys[n - 1].0;
        lemma_all_keys(b, a, key);
        strmap::lemma_lookup_row(keys, n - 1);
        assert(strmap::has_key(keys, key));
        let at = choose|i: int| 0 <= i < b.len() && (#[trigger] b[i]).0 == key;
        lemma_index(b, 0, at);
        assert(a[at].0 == key);
        assert forall|p: int, q: int| 0 <= p < q < a.len() implies (#[trigger] a[p]).0 != (
        #[trigger] a[q]).0 by {
            assert(b[p].0 != b[q].0);
        }
        lemma_index(a, 0, at);
        let here = under(prefix, b, a, at);
        assert(all == before + here);
        if before.contains(d) {
            let p = choose|p: int| 0 <= p < before.len() && before[p] == d;
            assert(all[p] == d);
            let (k, i) = choose|k: int, i: int|
                #![trigger keys[k], b[i]]
                0 <= k < n - 1 && 0 <= i < b.len() && b[i].0 == keys[k].0 && under(prefix, b, a, i).contains(
                    d,
                );
            assert(b[i].0 == keys[k].0);
        }
        if here.contains(d) {
            let p = choose|p: int| 0 <= p < here.len() && here[p] == d;
            assert(all[before.len() + p] == d);
            assert(b[at].0 == keys[n - 1].0);
        }
        if all.contains(d) {
            let p = choose|p: int| 0 <= p < all.len() && all[p] == d;
            if p < before.len() {
                assert(before[p] == d);
            } else {
                assert(here[p - before.len()] == d);
            }
        }
        if exists|k: int, i: int|
            #![trigger keys[k], b[i]]
            0 <= k < n && 0 <= i < b.len() && b[i].0 == keys[k].0 && under(prefix, b, a, i).contains(d) {
            let (k, i) = choose|k: int, i: int|
                #![trigger keys[k], b[i]]
                0 <= k < n && 0 <= i < b.len() && b[i].0 == keys[k].0 && under(prefix, b, a, i).contains(d);
            if k == n - 1 {
                if i != at {
                    assert(b[i].0 != b[at].0);
                }
            } else {
                assert(keys[k].0 == b[i].0);
                assert(before.contains(d));
            }
        }
    }
}

/// A walk over two objects reports exactly what it reports under each member.
proof fn lemma_walked_members(
    prefix: Seq<char>,
    b: Seq<(Seq<char>, JsonModel)>,
    a: Seq<(Seq<char>, JsonModel)>,
    d: DeltaModel,
)
    requires
        aligned(b, a),
    ensures
        policy_change::walked(prefix, JsonModel::Members(b), JsonModel::Members(a)).contains(d)
            <==> exists|i: int|
            #![trigger b[i]]
            0 <= i < b.len() && under(prefix, b, a, i).contains(d),
{
    let keys = policy_change::all_keys(b, a);
    if b == a {
        assert forall|i: int| #![trigger b[i]] 0 <= i < b.len() implies !under(prefix, b, a, i).contains(
            d,
        ) by {
            assert(under(prefix, b, a, i) =~= Seq::empty());
        }
        assert(policy_change::walked(prefix, JsonModel::Members(b), JsonModel::Members(a))
            =~= Seq::empty());
    } else {
        lemma_walked_keys(prefix, b, a, keys.len() as int, d);
        if exists|i: int|
            #![trigger b[i]]
            0 <= i < b.len() && under(prefix, b, a, i).contains(d) {
            let i = choose|i: int|
                #![trigger b[i]]
                0 <= i < b.len() && under(prefix, b, a, i).contains(d);
            lemma_all_keys(b, a, b[i].0);
            strmap::lemma_lookup_iff(keys, b[i].0);
            let k = choose|k: int| 0 <= k < keys.len() && (#[trigger] keys[k]).0 == b[i].0;
            assert(keys[k].0 == b[i].0);
        }
    }
}

// --- sections -------------------------------------------------------------

/// Whether every value of an object is a leaf.
spec fn flat(rows: Seq<(Seq<char>, JsonModel)>) -> bool {
    forall|i: int| 0 <= i < rows.len() ==> !((#[trigger] rows[i]).1 is Members)
}

proof fn lemma_flat_difference(
    prefix: Seq<char>,
    b: Seq<(Seq<char>, JsonModel)>,
    a: Seq<(Seq<char>, JsonModel)>,
) -> (d: DeltaModel)
    requires
        aligned(b, a),
        flat(b),
        b != a,
    ensures
        policy_change::walked(prefix, JsonModel::Members(b), JsonModel::Members(a)).contains(d),
{
    if forall|i: int| 0 <= i < b.len() ==> (#[trigger] b[i]).1 == a[i].1 {
        assert forall|i: int| 0 <= i < b.len() implies b[i] == a[i] by {
            assert(b[i].0 == a[i].0);
        }
        assert(b =~= a);
    }
    let i = choose|i: int| 0 <= i < b.len() && (#[trigger] b[i]).1 != a[i].1;
    let d = policy_change::leaf_delta(policy_change::path_to(prefix, b[i].0), b[i].1, a[i].1);
    assert(under(prefix, b, a, i) == seq![d]);
    assert(under(prefix, b, a, i)[0] == d);
    lemma_walked_members(prefix, b, a, d);
    d
}

/// The members of an object.
spec fn rows_of(j: JsonModel) -> Seq<(Seq<char>, JsonModel)> {
    j->Members_0
}

proof fn lemma_severity_section(b: SeverityPolicy, a: SeverityPolicy, d: DeltaModel)
    ensures
        aligned(rows_of(b.json_model()), rows_of(a.json_model())),
        flat(rows_of(b.json_model())),
        policy_change::walked("severity"@, b.json_model(), a.json_model()).contains(d)
            ==> policy_change::knob_of(d.field) is Some,
{
    let x = rows_of(b.json_model());
    let y = rows_of(a.json_model());
    reveal_strlit("block_on_tamper");
    reveal_strlit("block_on_test_failure");
    reveal_strlit("max_severity_for_c_tier");
    reveal_strlit("med_plus_requires_diff_actionable");
    reveal_strlit("med_plus_tiers");
    assert("block_on_tamper"@.len() == 15);
    assert("block_on_test_failure"@.len() == 21);
    assert("max_severity_for_c_tier"@.len() == 23);
    assert("med_plus_requires_diff_actionable"@.len() == 33);
    assert("med_plus_tiers"@.len() == 14);
    reveal_strlit("severity");
    reveal_strlit(".");
    reveal_strlit("severity.block_on_tamper");
    assert("severity"@ + "."@ + "block_on_tamper"@ =~= "severity.block_on_tamper"@);
    reveal_strlit("severity.block_on_test_failure");
    assert("severity"@ + "."@ + "block_on_test_failure"@ =~= "severity.block_on_test_failure"@);
    reveal_strlit("severity.max_severity_for_c_tier");
    assert("severity"@ + "."@ + "max_severity_for_c_tier"@ =~= "severity.max_severity_for_c_tier"@);
    reveal_strlit("severity.med_plus_requires_diff_actionable");
    assert("severity"@ + "."@ + "med_plus_requires_diff_actionable"@ =~= "severity.med_plus_requires_diff_actionable"@);
    reveal_strlit("severity.med_plus_tiers");
    assert("severity"@ + "."@ + "med_plus_tiers"@ =~= "severity.med_plus_tiers"@);
    assert(aligned(x, y));
    lemma_walked_members("severity"@, x, y, d);
    if policy_change::walked("severity"@, b.json_model(), a.json_model()).contains(d) {
        let i = choose|i: int|
            #![trigger x[i]]
            0 <= i < x.len() && under("severity"@, x, y, i).contains(d);
        assert(d.field == policy_change::path_to("severity"@, x[i].0));
    }
}

proof fn lemma_loop_section(b: LoopPolicy, a: LoopPolicy, d: DeltaModel)
    ensures
        aligned(rows_of(b.json_model()), rows_of(a.json_model())),
        flat(rows_of(b.json_model())),
        policy_change::walked("loop"@, b.json_model(), a.json_model()).contains(d)
            ==> policy_change::knob_of(d.field) is Some,
{
    let x = rows_of(b.json_model());
    let y = rows_of(a.json_model());
    reveal_strlit("iteration_cap");
    reveal_strlit("count_context_informational");
    assert("iteration_cap"@.len() == 13);
    assert("count_context_informational"@.len() == 27);
    reveal_strlit("loop");
    reveal_strlit(".");
    reveal_strlit("loop.iteration_cap");
    assert("loop"@ + "."@ + "iteration_cap"@ =~= "loop.iteration_cap"@);
    reveal_strlit("loop.count_context_informational");
    assert("loop"@ + "."@ + "count_context_informational"@ =~= "loop.count_context_informational"@);
    assert(aligned(x, y));
    lemma_walked_members("loop"@, x, y, d);
    if policy_change::walked("loop"@, b.json_model(), a.json_model()).contains(d) {
        let i = choose|i: int|
            #![trigger x[i]]
            0 <= i < x.len() && under("loop"@, x, y, i).contains(d);
        assert(d.field == policy_change::path_to("loop"@, x[i].0));
    }
}

proof fn lemma_agent_section(b: AgentPolicy, a: AgentPolicy, d: DeltaModel)
    ensures
        aligned(rows_of(b.json_model()), rows_of(a.json_model())),
        flat(rows_of(b.json_model())),
        policy_change::walked("agent"@, b.json_model(), a.json_model()).contains(d)
            ==> policy_change::knob_of(d.field) is Some,
{
    let x = rows_of(b.json_model());
    let y = rows_of(a.json_model());
    reveal_strlit("profile_token_budget");
    reveal_strlit("bytes_per_token");
    assert("profile_token_budget"@.len() == 20);
    assert("bytes_per_token"@.len() == 15);
    reveal_strlit("agent");
    reveal_strlit(".");
    reveal_strlit("agent.profile_token_budget");
    assert("agent"@ + "."@ + "profile_token_budget"@ =~= "agent.profile_token_budget"@);
    reveal_strlit("agent.bytes_per_token");
    assert("agent"@ + "."@ + "bytes_per_token"@ =~= "agent.bytes_per_token"@);
    assert(aligned(x, y));
    lemma_walked_members("agent"@, x, y, d);
    if policy_change::walked("agent"@, b.json_model(), a.json_model()).contains(d) {
        let i = choose|i: int|
            #![trigger x[i]]
            0 <= i < x.len() && under("agent"@, x, y, i).contains(d);
        assert(d.field == policy_change::path_to("agent"@, x[i].0));
    }
}

proof fn lemma_perf_section(b: PerfPolicy, a: PerfPolicy, d: DeltaModel)
    ensures
        aligned(rows_of(b.json_model()), rows_of(a.json_model())),
        flat(rows_of(b.json_model())),
        policy_change::walked("perf"@, b.json_model(), a.json_model()).contains(d)
            ==> policy_change::knob_of(d.field) is Some,
{
    let x = rows_of(b.json_model());
    let y = rows_of(a.json_model());
    reveal_strlit("fast_lane_warm_p95_ms");
    reveal_strlit("fast_lane_warm_fallback_p95_ms");
    reveal_strlit("fast_lane_cold_cap_ms");
    reveal_strlit("max_git_spawns_per_measure");
    assert("fast_lane_warm_p95_ms"@.len() == 21);
    assert("fast_lane_warm_fallback_p95_ms"@.len() == 30);
    assert("fast_lane_cold_cap_ms"@.len() == 21);
    assert("max_git_spawns_per_measure"@.len() == 26);
    assert("fast_lane_warm_p95_ms"@[10] != "fast_lane_cold_cap_ms"@[10]);
    reveal_strlit("perf");
    reveal_strlit(".");
    reveal_strlit("perf.fast_lane_warm_p95_ms");
    assert("perf"@ + "."@ + "fast_lane_warm_p95_ms"@ =~= "perf.fast_lane_warm_p95_ms"@);
    reveal_strlit("perf.fast_lane_warm_fallback_p95_ms");
    assert("perf"@ + "."@ + "fast_lane_warm_fallback_p95_ms"@ =~= "perf.fast_lane_warm_fallback_p95_ms"@);
    reveal_strlit("perf.fast_lane_cold_cap_ms");
    assert("perf"@ + "."@ + "fast_lane_cold_cap_ms"@ =~= "perf.fast_lane_cold_cap_ms"@);
    reveal_strlit("perf.max_git_spawns_per_measure");
    assert("perf"@ + "."@ + "max_git_spawns_per_measure"@ =~= "perf.max_git_spawns_per_measure"@);
    assert(aligned(x, y));
    lemma_walked_members("perf"@, x, y, d);
    if policy_change::walked("perf"@, b.json_model(), a.json_model()).contains(d) {
        let i = choose|i: int|
            #![trigger x[i]]
            0 <= i < x.len() && under("perf"@, x, y, i).contains(d);
        assert(d.field == policy_change::path_to("perf"@, x[i].0));
    }
}

proof fn lemma_history_section(b: HistoryPolicy, a: HistoryPolicy, d: DeltaModel)
    ensures
        aligned(rows_of(b.json_model()), rows_of(a.json_model())),
        flat(rows_of(b.json_model())),
        policy_change::walked("history"@, b.json_model(), a.json_model()).contains(d)
            ==> policy_change::knob_of(d.field) is Some,
{
    let x = rows_of(b.json_model());
    let y = rows_of(a.json_model());
    reveal_strlit("window_days");
    reveal_strlit("history");
    reveal_strlit(".");
    reveal_strlit("history.window_days");
    assert("history"@ + "."@ + "window_days"@ =~= "history.window_days"@);
    assert(aligned(x, y));
    lemma_walked_members("history"@, x, y, d);
    if policy_change::walked("history"@, b.json_model(), a.json_model()).contains(d) {
        let i = choose|i: int|
            #![trigger x[i]]
            0 <= i < x.len() && under("history"@, x, y, i).contains(d);
        assert(d.field == policy_change::path_to("history"@, x[i].0));
    }
}

proof fn lemma_registry_section(b: RegistryPolicy, a: RegistryPolicy, d: DeltaModel)
    ensures
        aligned(rows_of(b.json_model()), rows_of(a.json_model())),
        flat(rows_of(b.json_model())),
        policy_change::walked("registry"@, b.json_model(), a.json_model()).contains(d)
            ==> policy_change::knob_of(d.field) is Some,
{
    let x = rows_of(b.json_model());
    let y = rows_of(a.json_model());
    reveal_strlit("claim_budget");
    reveal_strlit("max_claims_expiring_per_month");
    assert("claim_budget"@.len() == 12);
    assert("max_claims_expiring_per_month"@.len() == 29);
    reveal_strlit("registry");
    reveal_strlit(".");
    reveal_strlit("registry.claim_budget");
    assert("registry"@ + "."@ + "claim_budget"@ =~= "registry.claim_budget"@);
    reveal_strlit("registry.max_claims_expiring_per_month");
    assert("registry"@ + "."@ + "max_claims_expiring_per_month"@ =~= "registry.max_claims_expiring_per_month"@);
    assert(aligned(x, y));
    lemma_walked_members("registry"@, x, y, d);
    if policy_change::walked("registry"@, b.json_model(), a.json_model()).contains(d) {
        let i = choose|i: int|
            #![trigger x[i]]
            0 <= i < x.len() && under("registry"@, x, y, i).contains(d);
        assert(d.field == policy_change::path_to("registry"@, x[i].0));
    }
}

proof fn lemma_self_measure_section(b: SelfMeasurePolicy, a: SelfMeasurePolicy, d: DeltaModel)
    ensures
        aligned(rows_of(b.json_model()), rows_of(a.json_model())),
        flat(rows_of(b.json_model())),
        policy_change::walked("self_measure"@, b.json_model(), a.json_model()).contains(d)
            ==> policy_change::knob_of(d.field) is Some,
{
    let x = rows_of(b.json_model());
    let y = rows_of(a.json_model());
    reveal_strlit("binary");
    reveal_strlit("excluded_paths");
    reveal_strlit("exclusion_drift_signal");
    assert("binary"@.len() == 6);
    assert("excluded_paths"@.len() == 14);
    assert("exclusion_drift_signal"@.len() == 22);
    reveal_strlit("self_measure");
    reveal_strlit(".");
    reveal_strlit("self_measure.binary");
    assert("self_measure"@ + "."@ + "binary"@ =~= "self_measure.binary"@);
    reveal_strlit("self_measure.excluded_paths");
    assert("self_measure"@ + "."@ + "excluded_paths"@ =~= "self_measure.excluded_paths"@);
    reveal_strlit("self_measure.exclusion_drift_signal");
    assert("self_measure"@ + "."@ + "exclusion_drift_signal"@ =~= "self_measure.exclusion_drift_signal"@);
    assert(aligned(x, y));
    lemma_walked_members("self_measure"@, x, y, d);
    if policy_change::walked("self_measure"@, b.json_model(), a.json_model()).contains(d) {
        let i = choose|i: int|
            #![trigger x[i]]
            0 <= i < x.len() && under("self_measure"@, x, y, i).contains(d);
        assert(d.field == policy_change::path_to("self_measure"@, x[i].0));
    }
}

proof fn lemma_sandbox_section(b: SandboxPolicy, a: SandboxPolicy, d: DeltaModel)
    ensures
        aligned(rows_of(b.json_model()), rows_of(a.json_model())),
        flat(rows_of(b.json_model())),
        policy_change::walked("sandbox"@, b.json_model(), a.json_model()).contains(d)
            ==> policy_change::knob_of(d.field) is Some,
{
    let x = rows_of(b.json_model());
    let y = rows_of(a.json_model());
    reveal_strlit("enabled");
    reveal_strlit("test_command");
    reveal_strlit("test_timeout_ms");
    reveal_strlit("env_allow");
    reveal_strlit("memory_limit_mb");
    assert("enabled"@.len() == 7);
    assert("test_command"@.len() == 12);
    assert("test_timeout_ms"@.len() == 15);
    assert("env_allow"@.len() == 9);
    assert("memory_limit_mb"@.len() == 15);
    assert("test_timeout_ms"@[0] != "memory_limit_mb"@[0]);
    reveal_strlit("sandbox");
    reveal_strlit(".");
    reveal_strlit("sandbox.enabled");
    assert("sandbox"@ + "."@ + "enabled"@ =~= "sandbox.enabled"@);
    reveal_strlit("sandbox.test_command");
    assert("sandbox"@ + "."@ + "test_command"@ =~= "sandbox.test_command"@);
    reveal_strlit("sandbox.test_timeout_ms");
    assert("sandbox"@ + "."@ + "test_timeout_ms"@ =~= "sandbox.test_timeout_ms"@);
    reveal_strlit("sandbox.env_allow");
    assert("sandbox"@ + "."@ + "env_allow"@ =~= "sandbox.env_allow"@);
    reveal_strlit("sandbox.memory_limit_mb");
    assert("sandbox"@ + "."@ + "memory_limit_mb"@ =~= "sandbox.memory_limit_mb"@);
    assert(aligned(x, y));
    lemma_walked_members("sandbox"@, x, y, d);
    if policy_change::walked("sandbox"@, b.json_model(), a.json_model()).contains(d) {
        let i = choose|i: int|
            #![trigger x[i]]
            0 <= i < x.len() && under("sandbox"@, x, y, i).contains(d);
        assert(d.field == policy_change::path_to("sandbox"@, x[i].0));
    }
}

proof fn lemma_top_level(b: Policy, a: Policy)
    ensures
        aligned(rows_of(b.json_model()), rows_of(a.json_model())),
{
    reveal_strlit("schema_version");
    reveal_strlit("severity");
    reveal_strlit("loop");
    reveal_strlit("agent");
    reveal_strlit("perf");
    reveal_strlit("history");
    reveal_strlit("registry");
    reveal_strlit("self_measure");
    reveal_strlit("sandbox");
    assert("schema_version"@.len() == 14);
    assert("severity"@.len() == 8);
    assert("loop"@.len() == 4);
    assert("agent"@.len() == 5);
    assert("perf"@.len() == 4);
    assert("history"@.len() == 7);
    assert("registry"@.len() == 8);
    assert("self_measure"@.len() == 12);
    assert("sandbox"@.len() == 7);
    assert("severity"@[0] != "registry"@[0]);
    assert("loop"@[0] != "perf"@[0]);
    assert("history"@[0] != "sandbox"@[0]);
    assert(aligned(rows_of(b.json_model()), rows_of(a.json_model())));
}

/// Where a section stands among the members of a policy, the deltas under it are
/// those of the section.
proof fn lemma_under_section(b: Policy, a: Policy, i: int)
    requires
        0 <= i < 9,
    ensures
        ({
            let x = rows_of(b.json_model());
            let y = rows_of(a.json_model());
            under(Seq::empty(), x, y, i) == policy_change::walked(x[i].0, x[i].1, y[i].1)
        }),
{
}

proof fn lemma_known(b: Policy, a: Policy, d: DeltaModel, i: int)
    requires
        0 <= i < 9,
        under(Seq::empty(), rows_of(b.json_model()), rows_of(a.json_model()), i).contains(d),
    ensures
        policy_change::knob_of(d.field) is Some,
{
    lemma_under_section(b, a, i);
    if i == 1 {
        lemma_severity_section(b.severity, a.severity, d);
    } else if i == 2 {
        lemma_loop_section(b.loop_policy, a.loop_policy, d);
    } else if i == 3 {
        lemma_agent_section(b.agent, a.agent, d);
    } else if i == 4 {
        lemma_perf_section(b.perf, a.perf, d);
    } else if i == 5 {
        lemma_history_section(b.history, a.history, d);
    } else if i == 6 {
        lemma_registry_section(b.registry, a.registry, d);
    } else if i == 7 {
        lemma_self_measure_section(b.self_measure, a.self_measure, d);
    } else if i == 8 {
        lemma_sandbox_section(b.sandbox, a.sandbox, d);
    } else {
        let here = policy_change::walked(
            "schema_version"@,
            JsonModel::Whole(b.schema_version as int),
            JsonModel::Whole(a.schema_version as int),
        );
        let p = choose|p: int| 0 <= p < here.len() && here[p] == d;
        assert(d.field == "schema_version"@);
    }
}

/// Every section of a policy has its own keys, each once, and leaves under them.
proof fn lemma_section_shape(b: Policy, a: Policy, i: int)
    requires
        1 <= i < 9,
    ensures
        rows_of(b.json_model())[i].1 is Members,
        rows_of(a.json_model())[i].1 is Members,
        aligned(
            rows_of(rows_of(b.json_model())[i].1),
            rows_of(rows_of(a.json_model())[i].1),
        ),
        flat(rows_of(rows_of(b.json_model())[i].1)),
{
    let x = rows_of(b.json_model());
    let y = rows_of(a.json_model());
    let any = policy_change::leaf_delta("schema_version"@, x[0].1, y[0].1);
    if i == 1 {
        lemma_severity_section(b.severity, a.severity, any);
    } else if i == 2 {
        lemma_loop_section(b.loop_policy, a.loop_policy, any);
    } else if i == 3 {
        lemma_agent_section(b.agent, a.agent, any);
    } else if i == 4 {
        lemma_perf_section(b.perf, a.perf, any);
    } else if i == 5 {
        lemma_history_section(b.history, a.history, any);
    } else if i == 6 {
        lemma_registry_section(b.registry, a.registry, any);
    } else if i == 7 {
        lemma_self_measure_section(b.self_measure, a.self_measure, any);
    } else if i == 8 {
        lemma_sandbox_section(b.sandbox, a.sandbox, any);
    }
}

proof fn lemma_section_difference(b: Policy, a: Policy, i: int) -> (d: DeltaModel)
    requires
        0 <= i < 9,
        rows_of(b.json_model())[i].1 != rows_of(a.json_model())[i].1,
    ensures
        under(Seq::empty(), rows_of(b.json_model()), rows_of(a.json_model()), i).contains(d),
{
    let x = rows_of(b.json_model());
    let y = rows_of(a.json_model());
    lemma_under_section(b, a, i);
    if i == 0 {
        let d = policy_change::leaf_delta("schema_version"@, x[0].1, y[0].1);
        assert(under(Seq::empty(), x, y, 0)[0] == d);
        d
    } else {
        lemma_section_shape(b, a, i);
        lemma_flat_difference(x[i].0, rows_of(x[i].1), rows_of(y[i].1))
    }
}

// --- laws -----------------------------------------------------------------

proof fn lemma_reported(b: Policy, a: Policy, d: DeltaModel)
    ensures
        policy_change::policy_deltas(b, a).contains(d) <==> policy_change::walked(
            Seq::empty(),
            b.json_model(),
            a.json_model(),
        ).contains(d),
{
    broadcast use vstd::seq_lib::group_to_multiset_ensures;

    let found = policy_change::walked(Seq::empty(), b.json_model(), a.json_model());
    sorting::lemma_sorted_keeps_items(found, policy_change::delta_order());
    let ordered = policy_change::policy_deltas(b, a);
    assert(ordered.to_multiset().count(d) == found.to_multiset().count(d));
    assert(ordered.contains(d) <==> ordered.to_multiset().count(d) > 0);
    assert(found.contains(d) <==> found.to_multiset().count(d) > 0);
}

/// Every edit is reported, and nothing else is: two policies have no delta
/// between them exactly when they say the same.
pub proof fn lemma_every_edit_is_reported(base: Policy, head: Policy)
    ensures
        policy_change::policy_deltas(base, head).len() == 0 <==> base.json_model()
            == head.json_model(),
{
    let x = rows_of(base.json_model());
    let y = rows_of(head.json_model());
    let found = policy_change::walked(Seq::empty(), base.json_model(), head.json_model());
    sorting::lemma_sorted_keeps_items(found, policy_change::delta_order());
    if base.json_model() != head.json_model() {
        lemma_top_level(base, head);
        if forall|i: int| 0 <= i < x.len() ==> (#[trigger] x[i]).1 == y[i].1 {
            assert forall|i: int| 0 <= i < x.len() implies x[i] == y[i] by {
                assert(x[i].0 == y[i].0);
            }
            assert(x =~= y);
        }
        let i = choose|i: int| 0 <= i < x.len() && (#[trigger] x[i]).1 != y[i].1;
        let d = lemma_section_difference(base, head, i);
        lemma_walked_members(Seq::empty(), x, y, d);
        assert(found.contains(d));
    }
}

/// Every field that can move has a direction: no edit is reported under a field
/// that nobody classified.
pub proof fn lemma_every_field_is_classified(base: Policy, head: Policy, i: int)
    requires
        0 <= i < policy_change::policy_deltas(base, head).len(),
    ensures
        policy_change::knob_of(policy_change::policy_deltas(base, head)[i].field) is Some,
{
    let d = policy_change::policy_deltas(base, head)[i];
    let x = rows_of(base.json_model());
    let y = rows_of(head.json_model());
    assert(policy_change::policy_deltas(base, head).contains(d));
    lemma_reported(base, head, d);
    lemma_top_level(base, head);
    lemma_walked_members(Seq::empty(), x, y, d);
    let k = choose|k: int|
        #![trigger x[k]]
        0 <= k < x.len() && under(Seq::empty(), x, y, k).contains(d);
    lemma_known(base, head, d, k);
}

// --- one delta per field --------------------------------------------------

/// Whether no field is named twice.
spec fn fields_once(s: Seq<DeltaModel>) -> bool {
    forall|p: int, q: int|
        0 <= p < q < s.len() ==> (#[trigger] s[p]).field != (#[trigger] s[q]).field
}

/// Whether a field is a key, or stands under it.
spec fn belongs(field: Seq<char>, key: Seq<char>) -> bool {
    ||| field == key
    ||| field.len() > key.len() && field.take(key.len() as int) == key && field[key.len() as int]
        == '.'
}

/// Keys without a dot in them share no field.
proof fn lemma_belongs_once(field: Seq<char>, a: Seq<char>, b: Seq<char>)
    requires
        !a.contains('.'),
        !b.contains('.'),
        belongs(field, a),
        belongs(field, b),
    ensures
        a == b,
{
    if a.len() < b.len() {
        assert(b == field || b == field.take(b.len() as int));
        assert(b[a.len() as int] == '.');
    } else if b.len() < a.len() {
        assert(a == field || a == field.take(a.len() as int));
        assert(a[b.len() as int] == '.');
    } else {
        assert(field.take(a.len() as int) =~= a);
        assert(field.take(b.len() as int) =~= b);
    }
}

/// Where every member has fields of its own, each once, so has the object.
proof fn lemma_fields_once(
    prefix: Seq<char>,
    b: Seq<(Seq<char>, JsonModel)>,
    a: Seq<(Seq<char>, JsonModel)>,
    own: spec_fn(Seq<char>, int) -> bool,
    n: int,
)
    requires
        aligned(b, a),
        0 <= n <= policy_change::all_keys(b, a).len(),
        forall|i: int| #![trigger b[i]] 0 <= i < b.len() ==> fields_once(under(prefix, b, a, i)),
        forall|i: int, p: int|
            #![trigger under(prefix, b, a, i)[p]]
            0 <= i < b.len() && 0 <= p < under(prefix, b, a, i).len() ==> own(
                under(prefix, b, a, i)[p].field,
                i,
            ),
        forall|f: Seq<char>, i: int, j: int|
            0 <= i < b.len() && 0 <= j < b.len() && #[trigger] own(f, i) && #[trigger] own(f, j)
                ==> i == j,
    ensures
        fields_once(
            policy_change::walked_keys(prefix, b, a, policy_change::all_keys(b, a), n),
        ),
    decreases n,
{
    let keys = policy_change::all_keys(b, a);
    if n > 0 {
        lemma_fields_once(prefix, b, a, own, n - 1);
        let before = policy_change::walked_keys(prefix, b, a, keys, n - 1);
        let all = policy_change::walked_keys(prefix, b, a, keys, n);
        let key = keys[n - 1].0;
        lemma_all_keys(b, a, key);
        strmap::lemma_lookup_row(keys, n - 1);
        assert(strmap::has_key(keys, key));
        let at = choose|i: int| 0 <= i < b.len() && (#[trigger] b[i]).0 == key;
        lemma_index(b, 0, at);
        assert(a[at].0 == key);
        assert forall|p: int, q: int| 0 <= p < q < a.len() implies (#[trigger] a[p]).0 != (
        #[trigger] a[q]).0 by {
            assert(b[p].0 != b[q].0);
        }
        lemma_index(a, 0, at);
        let here = under(prefix, b, a, at);
        assert(all == before + here);
        assert(fields_once(here));
        assert forall|p: int, q: int| 0 <= p < q < all.len() implies (#[trigger] all[p]).field != (
        #[trigger] all[q]).field by {
            if q < before.len() {
                assert(before[p].field != before[q].field);
            } else if p >= before.len() {
                assert(here[p - before.len()].field != here[q - before.len()].field);
            } else {
                let d = before[p];
                assert(before.contains(d));
                lemma_walked_keys(prefix, b, a, n - 1, d);
                let (k, i) = choose|k: int, i: int|
                    #![trigger keys[k], b[i]]
                    0 <= k < n - 1 && 0 <= i < b.len() && b[i].0 == keys[k].0 && under(
                        prefix,
                        b,
                        a,
                        i,
                    ).contains(d);
                let there = under(prefix, b, a, i);
                let t = choose|t: int| 0 <= t < there.len() && there[t] == d;
                assert(own(there[t].field, i));
                assert(own(here[q - before.len()].field, at));
                assert(text::text_less(keys[k].0, keys[n - 1].0));
                if i == at {
                    text::lemma_text_less_irreflexive(key);
                }
            }
        }
    }
}

/// A section reports no field twice, and none but its own.
proof fn lemma_section_fields(
    prefix: Seq<char>,
    b: Seq<(Seq<char>, JsonModel)>,
    a: Seq<(Seq<char>, JsonModel)>,
)
    requires
        aligned(b, a),
        flat(b),
        prefix.len() > 0,
    ensures
        fields_once(
            policy_change::walked(prefix, JsonModel::Members(b), JsonModel::Members(a)),
        ),
        forall|p: int|
            0 <= p < policy_change::walked(
                prefix,
                JsonModel::Members(b),
                JsonModel::Members(a),
            ).len() ==> belongs(
                (#[trigger] policy_change::walked(
                    prefix,
                    JsonModel::Members(b),
                    JsonModel::Members(a),
                )[p]).field,
                prefix,
            ),
{
    let found = policy_change::walked(prefix, JsonModel::Members(b), JsonModel::Members(a));
    let own = |f: Seq<char>, i: int| f == policy_change::path_to(prefix, b[i].0);
    reveal_strlit(".");
    if b != a {
        assert forall|f: Seq<char>, i: int, j: int|
            0 <= i < b.len() && 0 <= j < b.len() && #[trigger] own(f, i) && #[trigger] own(
                f,
                j,
            ) implies i == j by {
            let from = prefix.len() as int + 1;
            assert(f.subrange(from, f.len() as int) =~= b[i].0);
            assert(f.subrange(from, f.len() as int) =~= b[j].0);
        }
        lemma_fields_once(prefix, b, a, own, policy_change::all_keys(b, a).len() as int);
    }
    assert forall|p: int| 0 <= p < found.len() implies belongs(
        (#[trigger] found[p]).field,
        prefix,
    ) by {
        let d = found[p];
        assert(found.contains(d));
        lemma_walked_members(prefix, b, a, d);
        let i = choose|i: int|
            #![trigger b[i]]
            0 <= i < b.len() && under(prefix, b, a, i).contains(d);
        assert(d.field == prefix + "."@ + b[i].0);
        assert(d.field.take(prefix.len() as int) =~= prefix);
    }
}

/// The names of the sections have no dot in them.
proof fn lemma_plain_names(b: Policy, i: int)
    requires
        0 <= i < 9,
    ensures
        rows_of(b.json_model())[i].0.len() > 0,
        !rows_of(b.json_model())[i].0.contains('.'),
{
    reveal_strlit("schema_version");
    reveal_strlit("severity");
    reveal_strlit("loop");
    reveal_strlit("agent");
    reveal_strlit("perf");
    reveal_strlit("history");
    reveal_strlit("registry");
    reveal_strlit("self_measure");
    reveal_strlit("sandbox");
}

proof fn lemma_strictly_ascending(found: Seq<DeltaModel>)
    requires
        fields_once(found),
    ensures
        forall|i: int, j: int|
            0 <= i < j < sorting::sorted(found, policy_change::delta_order()).len()
                ==> text::text_less(
                (#[trigger] sorting::sorted(found, policy_change::delta_order())[i]).field,
                (#[trigger] sorting::sorted(found, policy_change::delta_order())[j]).field,
            ),
{
    let lt = policy_change::delta_order();
    let ordered = sorting::sorted(found, lt);
    assert forall|a: DeltaModel| !(#[trigger] lt(a, a)) by {
        text::lemma_text_less_irreflexive(a.field);
    }
    assert forall|a: DeltaModel, b: DeltaModel, c: DeltaModel| #[trigger]
        lt(a, b) && #[trigger] lt(b, c) implies lt(a, c) by {
        text::lemma_text_less_transitive(a.field, b.field, c.field);
    }
    assert forall|a: DeltaModel, b: DeltaModel, c: DeltaModel|
        !(#[trigger] lt(a, b)) && !(#[trigger] lt(b, c)) implies !lt(a, c) by {
        text::lemma_text_less_total(a.field, b.field);
        text::lemma_text_less_total(b.field, c.field);
        if lt(a, c) && a.field != b.field && b.field != c.field {
            text::lemma_text_less_transitive(c.field, b.field, a.field);
            text::lemma_text_less_transitive(a.field, c.field, a.field);
            text::lemma_text_less_irreflexive(a.field);
        }
    }
    sorting::lemma_sorted_keeps_items(found, lt);
    sorting::lemma_sorted_ascending(found, lt);
    assert(found.no_duplicates()) by {
        assert forall|p: int, q: int|
            0 <= p < found.len() && 0 <= q < found.len() && p != q implies found[p]
            != found[q] by {
            if p < q {
                assert(found[p].field != found[q].field);
            } else {
                assert(found[q].field != found[p].field);
            }
        }
    }
    found.lemma_multiset_has_no_duplicates();
    ordered.lemma_multiset_has_no_duplicates_conv();
    assert forall|i: int, j: int| 0 <= i < j < ordered.len() implies text::text_less(
        (#[trigger] ordered[i]).field,
        (#[trigger] ordered[j]).field,
    ) by {
        assert(!lt(ordered[j], ordered[i]));
        text::lemma_text_less_total(ordered[i].field, ordered[j].field);
        sorting::lemma_sorted_item(found, lt, i);
        sorting::lemma_sorted_item(found, lt, j);
        let p = choose|p: int| 0 <= p < found.len() && found[p] == ordered[i];
        let q = choose|q: int| 0 <= q < found.len() && found[q] == ordered[j];
        assert(ordered[i] != ordered[j]);
        if p < q {
            assert(found[p].field != found[q].field);
        } else {
            assert(found[q].field != found[p].field);
        }
    }
}

/// Deltas ascend by field, so no field is reported twice.
pub proof fn lemma_every_field_is_reported_once(base: Policy, head: Policy, i: int, j: int)
    requires
        0 <= i < j < policy_change::policy_deltas(base, head).len(),
    ensures
        text::text_less(
            policy_change::policy_deltas(base, head)[i].field,
            policy_change::policy_deltas(base, head)[j].field,
        ),
{
    let x = rows_of(base.json_model());
    let y = rows_of(head.json_model());
    let found = policy_change::walked(Seq::empty(), base.json_model(), head.json_model());
    lemma_top_level(base, head);
    let own = |f: Seq<char>, k: int| belongs(f, x[k].0);
    assert forall|f: Seq<char>, p: int, q: int|
        0 <= p < x.len() && 0 <= q < x.len() && #[trigger] own(f, p) && #[trigger] own(
            f,
            q,
        ) implies p == q by {
        lemma_plain_names(base, p);
        lemma_plain_names(base, q);
        lemma_belongs_once(f, x[p].0, x[q].0);
    }
    assert forall|k: int| #![trigger x[k]] 0 <= k < x.len() implies fields_once(
        under(Seq::empty(), x, y, k),
    ) && forall|p: int|
        0 <= p < under(Seq::empty(), x, y, k).len() ==> own(
            (#[trigger] under(Seq::empty(), x, y, k)[p]).field,
            k,
        ) by {
        lemma_under_section(base, head, k);
        lemma_plain_names(base, k);
        if k > 0 {
            lemma_section_shape(base, head, k);
            lemma_section_fields(x[k].0, rows_of(x[k].1), rows_of(y[k].1));
        }
    }
    lemma_fields_once(Seq::empty(), x, y, own, policy_change::all_keys(x, y).len() as int);
    lemma_strictly_ascending(found);
}

// --- which way a setting moved --------------------------------------------

/// Whether a comparison reports that a setting moved this way.
pub open spec fn moves(base: Policy, head: Policy, field: Seq<char>, way: Direction) -> bool {
    exists|i: int|
        0 <= i < policy_change::policy_deltas(base, head).len() && (
        #[trigger] policy_change::policy_deltas(base, head)[i]).field == field
            && policy_change::policy_deltas(base, head)[i].direction == way
}

/// Whether a switch is reported as it moved: one way when it ended up in its
/// relaxed position, the other way when it left it, and not at all otherwise.
pub open spec fn a_switch(
    base: Policy,
    head: Policy,
    field: Seq<char>,
    before: bool,
    after: bool,
    relaxed: bool,
) -> bool {
    &&& moves(base, head, field, Direction::Loosening) <==> before != after && after == relaxed
    &&& moves(base, head, field, Direction::Tightening) <==> before != after && before == relaxed
    &&& !moves(base, head, field, Direction::Neutral)
    &&& !moves(base, head, field, Direction::Unclassified)
}

/// Whether a setting that grows as it relaxes is reported as it moved.
pub open spec fn a_scale(
    base: Policy,
    head: Policy,
    field: Seq<char>,
    before: int,
    after: int,
) -> bool {
    &&& moves(base, head, field, Direction::Loosening) <==> after > before
    &&& moves(base, head, field, Direction::Tightening) <==> after < before
    &&& !moves(base, head, field, Direction::Neutral)
    &&& !moves(base, head, field, Direction::Unclassified)
}

/// Whether a set is reported as it moved: what relaxes it outweighs what does not,
/// and putting the same entries down differently is neither.
pub open spec fn a_set(
    base: Policy,
    head: Policy,
    field: Seq<char>,
    relaxed: bool,
    tightened: bool,
    rewritten: bool,
) -> bool {
    &&& moves(base, head, field, Direction::Loosening) <==> relaxed
    &&& moves(base, head, field, Direction::Tightening) <==> tightened && !relaxed
    &&& moves(base, head, field, Direction::Neutral) <==> rewritten && !relaxed && !tightened
    &&& !moves(base, head, field, Direction::Unclassified)
}

/// Whether a setting that is about something other than strictness is reported
/// when it differs, as moving neither way.
pub open spec fn a_fact(base: Policy, head: Policy, field: Seq<char>, differs: bool) -> bool {
    &&& moves(base, head, field, Direction::Neutral) <==> differs
    &&& !moves(base, head, field, Direction::Loosening)
    &&& !moves(base, head, field, Direction::Tightening)
    &&& !moves(base, head, field, Direction::Unclassified)
}

/// Whether one list of texts has an entry that another lacks.
pub open spec fn lacks(a: Seq<Seq<char>>, b: Seq<Seq<char>>) -> bool {
    exists|t: Seq<char>| a.contains(t) && !(#[trigger] b.contains(t))
}

proof fn lemma_severity_paths()
    ensures
        "severity"@ + "."@ + "block_on_tamper"@ == "severity.block_on_tamper"@,
        "severity"@ + "."@ + "block_on_test_failure"@ == "severity.block_on_test_failure"@,
        "severity"@ + "."@ + "max_severity_for_c_tier"@ == "severity.max_severity_for_c_tier"@,
        "severity"@ + "."@ + "med_plus_requires_diff_actionable"@ == "severity.med_plus_requires_diff_actionable"@,
        "severity"@ + "."@ + "med_plus_tiers"@ == "severity.med_plus_tiers"@,
{
    reveal_strlit("severity");
    reveal_strlit(".");
    reveal_strlit("block_on_tamper");
    reveal_strlit("severity.block_on_tamper");
    assert("severity"@ + "."@ + "block_on_tamper"@ =~= "severity.block_on_tamper"@);
    reveal_strlit("block_on_test_failure");
    reveal_strlit("severity.block_on_test_failure");
    assert("severity"@ + "."@ + "block_on_test_failure"@ =~= "severity.block_on_test_failure"@);
    reveal_strlit("max_severity_for_c_tier");
    reveal_strlit("severity.max_severity_for_c_tier");
    assert("severity"@ + "."@ + "max_severity_for_c_tier"@ =~= "severity.max_severity_for_c_tier"@);
    reveal_strlit("med_plus_requires_diff_actionable");
    reveal_strlit("severity.med_plus_requires_diff_actionable");
    assert("severity"@ + "."@ + "med_plus_requires_diff_actionable"@ =~= "severity.med_plus_requires_diff_actionable"@);
    reveal_strlit("med_plus_tiers");
    reveal_strlit("severity.med_plus_tiers");
    assert("severity"@ + "."@ + "med_plus_tiers"@ =~= "severity.med_plus_tiers"@);
}

proof fn lemma_loop_paths()
    ensures
        "loop"@ + "."@ + "iteration_cap"@ == "loop.iteration_cap"@,
        "loop"@ + "."@ + "count_context_informational"@ == "loop.count_context_informational"@,
{
    reveal_strlit("loop");
    reveal_strlit(".");
    reveal_strlit("iteration_cap");
    reveal_strlit("loop.iteration_cap");
    assert("loop"@ + "."@ + "iteration_cap"@ =~= "loop.iteration_cap"@);
    reveal_strlit("count_context_informational");
    reveal_strlit("loop.count_context_informational");
    assert("loop"@ + "."@ + "count_context_informational"@ =~= "loop.count_context_informational"@);
}

proof fn lemma_agent_paths()
    ensures
        "agent"@ + "."@ + "profile_token_budget"@ == "agent.profile_token_budget"@,
        "agent"@ + "."@ + "bytes_per_token"@ == "agent.bytes_per_token"@,
{
    reveal_strlit("agent");
    reveal_strlit(".");
    reveal_strlit("profile_token_budget");
    reveal_strlit("agent.profile_token_budget");
    assert("agent"@ + "."@ + "profile_token_budget"@ =~= "agent.profile_token_budget"@);
    reveal_strlit("bytes_per_token");
    reveal_strlit("agent.bytes_per_token");
    assert("agent"@ + "."@ + "bytes_per_token"@ =~= "agent.bytes_per_token"@);
}

proof fn lemma_perf_paths()
    ensures
        "perf"@ + "."@ + "fast_lane_warm_p95_ms"@ == "perf.fast_lane_warm_p95_ms"@,
        "perf"@ + "."@ + "fast_lane_warm_fallback_p95_ms"@ == "perf.fast_lane_warm_fallback_p95_ms"@,
        "perf"@ + "."@ + "fast_lane_cold_cap_ms"@ == "perf.fast_lane_cold_cap_ms"@,
        "perf"@ + "."@ + "max_git_spawns_per_measure"@ == "perf.max_git_spawns_per_measure"@,
{
    reveal_strlit("perf");
    reveal_strlit(".");
    reveal_strlit("fast_lane_warm_p95_ms");
    reveal_strlit("perf.fast_lane_warm_p95_ms");
    assert("perf"@ + "."@ + "fast_lane_warm_p95_ms"@ =~= "perf.fast_lane_warm_p95_ms"@);
    reveal_strlit("fast_lane_warm_fallback_p95_ms");
    reveal_strlit("perf.fast_lane_warm_fallback_p95_ms");
    assert("perf"@ + "."@ + "fast_lane_warm_fallback_p95_ms"@ =~= "perf.fast_lane_warm_fallback_p95_ms"@);
    reveal_strlit("fast_lane_cold_cap_ms");
    reveal_strlit("perf.fast_lane_cold_cap_ms");
    assert("perf"@ + "."@ + "fast_lane_cold_cap_ms"@ =~= "perf.fast_lane_cold_cap_ms"@);
    reveal_strlit("max_git_spawns_per_measure");
    reveal_strlit("perf.max_git_spawns_per_measure");
    assert("perf"@ + "."@ + "max_git_spawns_per_measure"@ =~= "perf.max_git_spawns_per_measure"@);
}

proof fn lemma_history_paths()
    ensures
        "history"@ + "."@ + "window_days"@ == "history.window_days"@,
{
    reveal_strlit("history");
    reveal_strlit(".");
    reveal_strlit("window_days");
    reveal_strlit("history.window_days");
    assert("history"@ + "."@ + "window_days"@ =~= "history.window_days"@);
}

proof fn lemma_registry_paths()
    ensures
        "registry"@ + "."@ + "claim_budget"@ == "registry.claim_budget"@,
        "registry"@ + "."@ + "max_claims_expiring_per_month"@ == "registry.max_claims_expiring_per_month"@,
{
    reveal_strlit("registry");
    reveal_strlit(".");
    reveal_strlit("claim_budget");
    reveal_strlit("registry.claim_budget");
    assert("registry"@ + "."@ + "claim_budget"@ =~= "registry.claim_budget"@);
    reveal_strlit("max_claims_expiring_per_month");
    reveal_strlit("registry.max_claims_expiring_per_month");
    assert("registry"@ + "."@ + "max_claims_expiring_per_month"@ =~= "registry.max_claims_expiring_per_month"@);
}

proof fn lemma_self_measure_paths()
    ensures
        "self_measure"@ + "."@ + "binary"@ == "self_measure.binary"@,
        "self_measure"@ + "."@ + "excluded_paths"@ == "self_measure.excluded_paths"@,
        "self_measure"@ + "."@ + "exclusion_drift_signal"@ == "self_measure.exclusion_drift_signal"@,
{
    reveal_strlit("self_measure");
    reveal_strlit(".");
    reveal_strlit("binary");
    reveal_strlit("self_measure.binary");
    assert("self_measure"@ + "."@ + "binary"@ =~= "self_measure.binary"@);
    reveal_strlit("excluded_paths");
    reveal_strlit("self_measure.excluded_paths");
    assert("self_measure"@ + "."@ + "excluded_paths"@ =~= "self_measure.excluded_paths"@);
    reveal_strlit("exclusion_drift_signal");
    reveal_strlit("self_measure.exclusion_drift_signal");
    assert("self_measure"@ + "."@ + "exclusion_drift_signal"@ =~= "self_measure.exclusion_drift_signal"@);
}

proof fn lemma_sandbox_paths()
    ensures
        "sandbox"@ + "."@ + "enabled"@ == "sandbox.enabled"@,
        "sandbox"@ + "."@ + "test_command"@ == "sandbox.test_command"@,
        "sandbox"@ + "."@ + "test_timeout_ms"@ == "sandbox.test_timeout_ms"@,
        "sandbox"@ + "."@ + "env_allow"@ == "sandbox.env_allow"@,
        "sandbox"@ + "."@ + "memory_limit_mb"@ == "sandbox.memory_limit_mb"@,
{
    reveal_strlit("sandbox");
    reveal_strlit(".");
    reveal_strlit("enabled");
    reveal_strlit("sandbox.enabled");
    assert("sandbox"@ + "."@ + "enabled"@ =~= "sandbox.enabled"@);
    reveal_strlit("test_command");
    reveal_strlit("sandbox.test_command");
    assert("sandbox"@ + "."@ + "test_command"@ =~= "sandbox.test_command"@);
    reveal_strlit("test_timeout_ms");
    reveal_strlit("sandbox.test_timeout_ms");
    assert("sandbox"@ + "."@ + "test_timeout_ms"@ =~= "sandbox.test_timeout_ms"@);
    reveal_strlit("env_allow");
    reveal_strlit("sandbox.env_allow");
    assert("sandbox"@ + "."@ + "env_allow"@ =~= "sandbox.env_allow"@);
    reveal_strlit("memory_limit_mb");
    reveal_strlit("sandbox.memory_limit_mb");
    assert("sandbox"@ + "."@ + "memory_limit_mb"@ =~= "sandbox.memory_limit_mb"@);
}

proof fn lemma_field_names_differ()
    ensures
        "schema_version"@.len() == 14,
        "severity.block_on_tamper"@.len() == 24,
        "severity.block_on_test_failure"@.len() == 30,
        "severity.max_severity_for_c_tier"@.len() == 32,
        "severity.med_plus_requires_diff_actionable"@.len() == 42,
        "severity.med_plus_tiers"@.len() == 23,
        "loop.iteration_cap"@.len() == 18,
        "loop.count_context_informational"@.len() == 32,
        "agent.profile_token_budget"@.len() == 26,
        "agent.bytes_per_token"@.len() == 21,
        "perf.fast_lane_warm_p95_ms"@.len() == 26,
        "perf.fast_lane_warm_fallback_p95_ms"@.len() == 35,
        "perf.fast_lane_cold_cap_ms"@.len() == 26,
        "perf.max_git_spawns_per_measure"@.len() == 31,
        "history.window_days"@.len() == 19,
        "registry.claim_budget"@.len() == 21,
        "registry.max_claims_expiring_per_month"@.len() == 38,
        "self_measure.binary"@.len() == 19,
        "self_measure.excluded_paths"@.len() == 27,
        "self_measure.exclusion_drift_signal"@.len() == 35,
        "sandbox.enabled"@.len() == 15,
        "sandbox.test_command"@.len() == 20,
        "sandbox.test_timeout_ms"@.len() == 23,
        "sandbox.env_allow"@.len() == 17,
        "sandbox.memory_limit_mb"@.len() == 23,
        "history.window_days"@ != "self_measure.binary"@,
        "agent.bytes_per_token"@ != "registry.claim_budget"@,
        "severity.med_plus_tiers"@ != "sandbox.test_timeout_ms"@,
        "severity.med_plus_tiers"@ != "sandbox.memory_limit_mb"@,
        "sandbox.test_timeout_ms"@ != "sandbox.memory_limit_mb"@,
        "agent.profile_token_budget"@ != "perf.fast_lane_warm_p95_ms"@,
        "agent.profile_token_budget"@ != "perf.fast_lane_cold_cap_ms"@,
        "perf.fast_lane_warm_p95_ms"@ != "perf.fast_lane_cold_cap_ms"@,
        "severity.max_severity_for_c_tier"@ != "loop.count_context_informational"@,
        "perf.fast_lane_warm_fallback_p95_ms"@ != "self_measure.exclusion_drift_signal"@,
{
    assert("schema_version"@.len() == 14) by {
        reveal_strlit("schema_version");
    }
    assert("severity.block_on_tamper"@.len() == 24) by {
        reveal_strlit("severity.block_on_tamper");
    }
    assert("severity.block_on_test_failure"@.len() == 30) by {
        reveal_strlit("severity.block_on_test_failure");
    }
    assert("severity.max_severity_for_c_tier"@.len() == 32) by {
        reveal_strlit("severity.max_severity_for_c_tier");
    }
    assert("severity.med_plus_requires_diff_actionable"@.len() == 42) by {
        reveal_strlit("severity.med_plus_requires_diff_actionable");
    }
    assert("severity.med_plus_tiers"@.len() == 23) by {
        reveal_strlit("severity.med_plus_tiers");
    }
    assert("loop.iteration_cap"@.len() == 18) by {
        reveal_strlit("loop.iteration_cap");
    }
    assert("loop.count_context_informational"@.len() == 32) by {
        reveal_strlit("loop.count_context_informational");
    }
    assert("agent.profile_token_budget"@.len() == 26) by {
        reveal_strlit("agent.profile_token_budget");
    }
    assert("agent.bytes_per_token"@.len() == 21) by {
        reveal_strlit("agent.bytes_per_token");
    }
    assert("perf.fast_lane_warm_p95_ms"@.len() == 26) by {
        reveal_strlit("perf.fast_lane_warm_p95_ms");
    }
    assert("perf.fast_lane_warm_fallback_p95_ms"@.len() == 35) by {
        reveal_strlit("perf.fast_lane_warm_fallback_p95_ms");
    }
    assert("perf.fast_lane_cold_cap_ms"@.len() == 26) by {
        reveal_strlit("perf.fast_lane_cold_cap_ms");
    }
    assert("perf.max_git_spawns_per_measure"@.len() == 31) by {
        reveal_strlit("perf.max_git_spawns_per_measure");
    }
    assert("history.window_days"@.len() == 19) by {
        reveal_strlit("history.window_days");
    }
    assert("registry.claim_budget"@.len() == 21) by {
        reveal_strlit("registry.claim_budget");
    }
    assert("registry.max_claims_expiring_per_month"@.len() == 38) by {
        reveal_strlit("registry.max_claims_expiring_per_month");
    }
    assert("self_measure.binary"@.len() == 19) by {
        reveal_strlit("self_measure.binary");
    }
    assert("self_measure.excluded_paths"@.len() == 27) by {
        reveal_strlit("self_measure.excluded_paths");
    }
    assert("self_measure.exclusion_drift_signal"@.len() == 35) by {
        reveal_strlit("self_measure.exclusion_drift_signal");
    }
    assert("sandbox.enabled"@.len() == 15) by {
        reveal_strlit("sandbox.enabled");
    }
    assert("sandbox.test_command"@.len() == 20) by {
        reveal_strlit("sandbox.test_command");
    }
    assert("sandbox.test_timeout_ms"@.len() == 23) by {
        reveal_strlit("sandbox.test_timeout_ms");
    }
    assert("sandbox.env_allow"@.len() == 17) by {
        reveal_strlit("sandbox.env_allow");
    }
    assert("sandbox.memory_limit_mb"@.len() == 23) by {
        reveal_strlit("sandbox.memory_limit_mb");
    }
    assert("history.window_days"@ != "self_measure.binary"@) by {
        reveal_strlit("history.window_days");
        reveal_strlit("self_measure.binary");
        assert("history.window_days"@[0] != "self_measure.binary"@[0]);
    }
    assert("agent.bytes_per_token"@ != "registry.claim_budget"@) by {
        reveal_strlit("agent.bytes_per_token");
        reveal_strlit("registry.claim_budget");
        assert("agent.bytes_per_token"@[0] != "registry.claim_budget"@[0]);
    }
    assert("severity.med_plus_tiers"@ != "sandbox.test_timeout_ms"@) by {
        reveal_strlit("severity.med_plus_tiers");
        reveal_strlit("sandbox.test_timeout_ms");
        assert("severity.med_plus_tiers"@[1] != "sandbox.test_timeout_ms"@[1]);
    }
    assert("severity.med_plus_tiers"@ != "sandbox.memory_limit_mb"@) by {
        reveal_strlit("severity.med_plus_tiers");
        reveal_strlit("sandbox.memory_limit_mb");
        assert("severity.med_plus_tiers"@[1] != "sandbox.memory_limit_mb"@[1]);
    }
    assert("sandbox.test_timeout_ms"@ != "sandbox.memory_limit_mb"@) by {
        reveal_strlit("sandbox.test_timeout_ms");
        reveal_strlit("sandbox.memory_limit_mb");
        assert("sandbox.test_timeout_ms"@[8] != "sandbox.memory_limit_mb"@[8]);
    }
    assert("agent.profile_token_budget"@ != "perf.fast_lane_warm_p95_ms"@) by {
        reveal_strlit("agent.profile_token_budget");
        reveal_strlit("perf.fast_lane_warm_p95_ms");
        assert("agent.profile_token_budget"@[0] != "perf.fast_lane_warm_p95_ms"@[0]);
    }
    assert("agent.profile_token_budget"@ != "perf.fast_lane_cold_cap_ms"@) by {
        reveal_strlit("agent.profile_token_budget");
        reveal_strlit("perf.fast_lane_cold_cap_ms");
        assert("agent.profile_token_budget"@[0] != "perf.fast_lane_cold_cap_ms"@[0]);
    }
    assert("perf.fast_lane_warm_p95_ms"@ != "perf.fast_lane_cold_cap_ms"@) by {
        reveal_strlit("perf.fast_lane_warm_p95_ms");
        reveal_strlit("perf.fast_lane_cold_cap_ms");
        assert("perf.fast_lane_warm_p95_ms"@[15] != "perf.fast_lane_cold_cap_ms"@[15]);
    }
    assert("severity.max_severity_for_c_tier"@ != "loop.count_context_informational"@) by {
        reveal_strlit("severity.max_severity_for_c_tier");
        reveal_strlit("loop.count_context_informational");
        assert("severity.max_severity_for_c_tier"@[0] != "loop.count_context_informational"@[0]);
    }
    assert("perf.fast_lane_warm_fallback_p95_ms"@ != "self_measure.exclusion_drift_signal"@) by {
        reveal_strlit("perf.fast_lane_warm_fallback_p95_ms");
        reveal_strlit("self_measure.exclusion_drift_signal");
        assert("perf.fast_lane_warm_fallback_p95_ms"@[0] != "self_measure.exclusion_drift_signal"@[0]);
    }
}

proof fn lemma_knobs()
    ensures
        policy_change::knob_of("schema_version"@) == Some(Knob::Neutral),
        policy_change::knob_of("severity.block_on_tamper"@) == Some(Knob::RelaxesWhenFalse),
        policy_change::knob_of("severity.block_on_test_failure"@) == Some(Knob::RelaxesWhenFalse),
        policy_change::knob_of("severity.max_severity_for_c_tier"@) == Some(Knob::SeverityScale),
        policy_change::knob_of("severity.med_plus_requires_diff_actionable"@) == Some(Knob::RelaxesWhenTrue),
        policy_change::knob_of("severity.med_plus_tiers"@) == Some(Knob::ShrinkRelaxes),
        policy_change::knob_of("loop.iteration_cap"@) == Some(Knob::Ceiling),
        policy_change::knob_of("loop.count_context_informational"@) == Some(Knob::RelaxesWhenFalse),
        policy_change::knob_of("agent.profile_token_budget"@) == Some(Knob::Neutral),
        policy_change::knob_of("agent.bytes_per_token"@) == Some(Knob::Neutral),
        policy_change::knob_of("perf.fast_lane_warm_p95_ms"@) == Some(Knob::Ceiling),
        policy_change::knob_of("perf.fast_lane_warm_fallback_p95_ms"@) == Some(Knob::Ceiling),
        policy_change::knob_of("perf.fast_lane_cold_cap_ms"@) == Some(Knob::Ceiling),
        policy_change::knob_of("perf.max_git_spawns_per_measure"@) == Some(Knob::Ceiling),
        policy_change::knob_of("history.window_days"@) == Some(Knob::Neutral),
        policy_change::knob_of("registry.claim_budget"@) == Some(Knob::Ceiling),
        policy_change::knob_of("registry.max_claims_expiring_per_month"@) == Some(Knob::Ceiling),
        policy_change::knob_of("self_measure.binary"@) == Some(Knob::BinaryScale),
        policy_change::knob_of("self_measure.excluded_paths"@) == Some(Knob::GrowRelaxes),
        policy_change::knob_of("self_measure.exclusion_drift_signal"@) == Some(Knob::RelaxesWhenFalse),
        policy_change::knob_of("sandbox.enabled"@) == Some(Knob::RelaxesWhenFalse),
        policy_change::knob_of("sandbox.test_command"@) == Some(Knob::Neutral),
        policy_change::knob_of("sandbox.test_timeout_ms"@) == Some(Knob::Floor),
        policy_change::knob_of("sandbox.env_allow"@) == Some(Knob::Neutral),
        policy_change::knob_of("sandbox.memory_limit_mb"@) == Some(Knob::Neutral),
{
    lemma_field_names_differ();
}

/// A setting of a section is reported under its path, exactly when it differs.
proof fn lemma_leaf(b: Policy, a: Policy, k: int, i: int, field: Seq<char>)
    requires
        1 <= k < 9,
        0 <= i < rows_of(rows_of(b.json_model())[k].1).len(),
        field == rows_of(b.json_model())[k].0 + "."@ + rows_of(rows_of(b.json_model())[k].1)[i].0,
    ensures
        ({
            let before = rows_of(rows_of(b.json_model())[k].1)[i].1;
            let after = rows_of(rows_of(a.json_model())[k].1)[i].1;
            forall|way: Direction| #[trigger]
                moves(b, a, field, way) <==> before != after && policy_change::moved(
                    field,
                    before,
                    after,
                ) == way
        }),
{
    let x = rows_of(b.json_model());
    let y = rows_of(a.json_model());
    let xs = rows_of(x[k].1);
    let ys = rows_of(y[k].1);
    let before = xs[i].1;
    let after = ys[i].1;
    let all = policy_change::policy_deltas(b, a);
    let here = policy_change::leaf_delta(field, before, after);
    lemma_top_level(b, a);
    lemma_section_shape(b, a, k);
    lemma_under_section(b, a, k);
    lemma_plain_names(b, k);
    assert(policy_change::path_to(x[k].0, xs[i].0) == field);
    assert forall|way: Direction| #[trigger] moves(b, a, field, way) implies before != after
        && policy_change::moved(field, before, after) == way by {
        let p = choose|p: int|
            0 <= p < all.len() && (#[trigger] all[p]).field == field && all[p].direction == way;
        let d = all[p];
        assert(all.contains(d));
        let (m, j) = lemma_delta_place(b, a, d);
        reveal_strlit(".");
        lemma_plain_names(b, m);
        assert(field.take(x[k].0.len() as int) =~= x[k].0);
        assert(belongs(field, x[k].0));
        if m == 0 {
            assert(belongs(field, x[0].0));
        } else {
            assert(field.take(x[m].0.len() as int) =~= x[m].0);
            assert(belongs(field, x[m].0));
        }
        lemma_belongs_once(field, x[k].0, x[m].0);
        if m < k {
            assert(x[m].0 != x[k].0);
        } else if k < m {
            assert(x[k].0 != x[m].0);
        }
        let from = x[k].0.len() as int + 1;
        assert(field.subrange(from, field.len() as int) =~= xs[i].0);
        assert(field.subrange(from, field.len() as int) =~= xs[j].0);
        if i < j {
            assert(xs[i].0 != xs[j].0);
        } else if j < i {
            assert(xs[j].0 != xs[i].0);
        }
    }
    if before != after {
        assert(under(x[k].0, xs, ys, i) == seq![here]);
        assert(under(x[k].0, xs, ys, i)[0] == here);
        lemma_walked_members(x[k].0, xs, ys, here);
        assert(x[k].1 == JsonModel::Members(xs));
        assert(y[k].1 == JsonModel::Members(ys));
        assert(under(Seq::empty(), x, y, k).contains(here));
        lemma_walked_members(Seq::empty(), x, y, here);
        lemma_reported(b, a, here);
        let p = choose|p: int| 0 <= p < all.len() && all[p] == here;
        assert(all[p].field == field);
        assert(moves(b, a, field, policy_change::moved(field, before, after)));
    }
}

/// Every delta is about the version, or about a setting of a section.
proof fn lemma_delta_place(b: Policy, a: Policy, d: DeltaModel) -> (place: (int, int))
    requires
        policy_change::policy_deltas(b, a).contains(d),
    ensures
        0 <= place.0 < 9,
        place.0 == 0 ==> d == policy_change::leaf_delta(
            "schema_version"@,
            JsonModel::Whole(b.schema_version as int),
            JsonModel::Whole(a.schema_version as int),
        ) && b.schema_version != a.schema_version,
        place.0 > 0 ==> {
            let x = rows_of(b.json_model());
            let xs = rows_of(x[place.0].1);
            let ys = rows_of(rows_of(a.json_model())[place.0].1);
            &&& 0 <= place.1 < xs.len()
            &&& xs[place.1].1 != ys[place.1].1
            &&& d == policy_change::leaf_delta(
                x[place.0].0 + "."@ + xs[place.1].0,
                xs[place.1].1,
                ys[place.1].1,
            )
        },
{
    let x = rows_of(b.json_model());
    let y = rows_of(a.json_model());
    lemma_reported(b, a, d);
    lemma_top_level(b, a);
    lemma_walked_members(Seq::empty(), x, y, d);
    let k = choose|k: int|
        #![trigger x[k]]
        0 <= k < x.len() && under(Seq::empty(), x, y, k).contains(d);
    lemma_under_section(b, a, k);
    lemma_plain_names(b, k);
    if k == 0 {
        let here = policy_change::walked(x[0].0, x[0].1, y[0].1);
        let p = choose|p: int| 0 <= p < here.len() && here[p] == d;
        (0, 0)
    } else {
        lemma_section_shape(b, a, k);
        let xs = rows_of(x[k].1);
        let ys = rows_of(y[k].1);
        assert(x[k].1 == JsonModel::Members(xs));
        assert(y[k].1 == JsonModel::Members(ys));
        lemma_walked_members(x[k].0, xs, ys, d);
        let i = choose|i: int|
            #![trigger xs[i]]
            0 <= i < xs.len() && under(x[k].0, xs, ys, i).contains(d);
        let here = under(x[k].0, xs, ys, i);
        let p = choose|p: int| 0 <= p < here.len() && here[p] == d;
        assert(policy_change::path_to(x[k].0, xs[i].0) == x[k].0 + "."@ + xs[i].0);
        (k, i)
    }
}

/// The schema version is no part of the bar.
pub proof fn lemma_version_moves(b: Policy, a: Policy)
    ensures
        a_fact(b, a, "schema_version"@, b.schema_version != a.schema_version),
{
    let x = rows_of(b.json_model());
    let y = rows_of(a.json_model());
    let all = policy_change::policy_deltas(b, a);
    let here = policy_change::leaf_delta("schema_version"@, x[0].1, y[0].1);
    lemma_knobs();
    lemma_top_level(b, a);
    lemma_under_section(b, a, 0);
    lemma_plain_names(b, 0);
    assert forall|way: Direction| #[trigger] moves(b, a, "schema_version"@, way) implies way
        == Direction::Neutral && b.schema_version != a.schema_version by {
        let p = choose|p: int|
            0 <= p < all.len() && (#[trigger] all[p]).field == "schema_version"@ && all[p].direction
                == way;
        let d = all[p];
        assert(all.contains(d));
        let (k, i) = lemma_delta_place(b, a, d);
        if k > 0 {
            reveal_strlit(".");
            assert(d.field[x[k].0.len() as int] == '.');
            assert(x[0].0.contains('.'));
        }
    }
    if b.schema_version != a.schema_version {
        assert(under(Seq::empty(), x, y, 0) == seq![here]);
        assert(under(Seq::empty(), x, y, 0)[0] == here);
        lemma_walked_members(Seq::empty(), x, y, here);
        lemma_reported(b, a, here);
        let p = choose|p: int| 0 <= p < all.len() && all[p] == here;
        assert(all[p].field == "schema_version"@);
    }
}

proof fn lemma_lists_moved(b: Seq<Seq<char>>, a: Seq<Seq<char>>, x: Seq<JsonModel>, y: Seq<JsonModel>)
    requires
        x.len() == b.len(),
        y.len() == a.len(),
        forall|i: int| 0 <= i < x.len() ==> #[trigger] x[i] == JsonModel::Text(b[i]),
        forall|i: int| 0 <= i < y.len() ==> #[trigger] y[i] == JsonModel::Text(a[i]),
    ensures
        policy_change::has_other(x, y) <==> lacks(b, a),
        policy_change::has_other(y, x) <==> lacks(a, b),
        x == y <==> b == a,
{
    lemma_one_list_moved(b, a, x, y);
    lemma_one_list_moved(a, b, y, x);
    if x == y {
        assert forall|i: int| 0 <= i < b.len() implies b[i] == a[i] by {
            assert(x[i] == y[i]);
        }
        assert(b =~= a);
    }
    if b == a {
        assert(x =~= y);
    }
}

proof fn lemma_one_list_moved(
    b: Seq<Seq<char>>,
    a: Seq<Seq<char>>,
    x: Seq<JsonModel>,
    y: Seq<JsonModel>,
)
    requires
        x.len() == b.len(),
        y.len() == a.len(),
        forall|i: int| 0 <= i < x.len() ==> #[trigger] x[i] == JsonModel::Text(b[i]),
        forall|i: int| 0 <= i < y.len() ==> #[trigger] y[i] == JsonModel::Text(a[i]),
    ensures
        policy_change::has_other(x, y) <==> lacks(b, a),
{
    if policy_change::has_other(x, y) {
        let i = choose|i: int| 0 <= i < x.len() && !y.contains(#[trigger] x[i]);
        assert(b.contains(b[i]));
        if a.contains(b[i]) {
            let j = choose|j: int| 0 <= j < a.len() && a[j] == b[i];
            assert(y[j] == x[i]);
        }
    }
    if lacks(b, a) {
        let t = choose|t: Seq<char>| b.contains(t) && !(#[trigger] a.contains(t));
        let i = choose|i: int| 0 <= i < b.len() && b[i] == t;
        if y.contains(x[i]) {
            let j = choose|j: int| 0 <= j < y.len() && y[j] == x[i];
            assert(a[j] == t);
        }
    }
}

/// The names of tiers, in the order the tiers are listed.
pub open spec fn tier_names(tiers: Seq<EvidenceTier>) -> Seq<Seq<char>> {
    tiers.map_values(|t: EvidenceTier| t.wire_name())
}

proof fn lemma_tier_named(a: EvidenceTier, b: EvidenceTier)
    ensures
        a.wire_name() == b.wire_name() ==> a == b,
{
    reveal_strlit("A");
    reveal_strlit("B");
    reveal_strlit("C");
    reveal_strlit("D");
    reveal_strlit("N");
    assert(a.wire_name().len() == 1 && b.wire_name().len() == 1);
    assert(a.wire_name() == b.wire_name() ==> a.wire_name()[0] == b.wire_name()[0]);
}

/// Whether one list of tiers has a tier that another lacks.
pub open spec fn tier_gone(b: Seq<EvidenceTier>, a: Seq<EvidenceTier>) -> bool {
    exists|t: EvidenceTier| b.contains(t) && !(#[trigger] a.contains(t))
}

proof fn lemma_tiers_gone(b: Seq<EvidenceTier>, a: Seq<EvidenceTier>)
    ensures
        lacks(tier_names(b), tier_names(a)) <==> tier_gone(b, a),
{
    let x = tier_names(b);
    let y = tier_names(a);
    if lacks(x, y) {
        let t = choose|t: Seq<char>| x.contains(t) && !(#[trigger] y.contains(t));
        let i = choose|i: int| 0 <= i < x.len() && x[i] == t;
        assert(b.contains(b[i]));
        if a.contains(b[i]) {
            let j = choose|j: int| 0 <= j < a.len() && a[j] == b[i];
            assert(y[j] == t);
        }
    }
    if tier_gone(b, a) {
        let t = choose|t: EvidenceTier| b.contains(t) && !(#[trigger] a.contains(t));
        let i = choose|i: int| 0 <= i < b.len() && b[i] == t;
        assert(x[i] == t.wire_name());
        assert(x.contains(t.wire_name()));
        if y.contains(t.wire_name()) {
            let j = choose|j: int| 0 <= j < y.len() && y[j] == t.wire_name();
            lemma_tier_named(a[j], t);
            assert(a.contains(t));
        }
    }
}

proof fn lemma_same_tiers(b: Seq<EvidenceTier>, a: Seq<EvidenceTier>)
    ensures
        tier_names(b) == tier_names(a) <==> b == a,
{
    if tier_names(b) == tier_names(a) {
        assert(b.len() == tier_names(b).len());
        assert(a.len() == tier_names(a).len());
        assert forall|i: int| 0 <= i < b.len() implies b[i] == a[i] by {
            assert(tier_names(b)[i] == tier_names(a)[i]);
            lemma_tier_named(b[i], a[i]);
        }
        assert(b =~= a);
    }
}

proof fn lemma_severity_steps(s: Severity)
    ensures
        policy_change::severity_step(JsonModel::Text(s.wire_name())) == Some(4 - s.rank()),
{
    reveal_strlit("critical");
    reveal_strlit("high");
    reveal_strlit("medium");
    reveal_strlit("low");
    reveal_strlit("info");
    assert("critical"@.len() == 8);
    assert("high"@.len() == 4);
    assert("medium"@.len() == 6);
    assert("low"@.len() == 3);
    assert("info"@.len() == 4);
    assert("high"@[0] != "info"@[0]);
}

/// How far a choice of measuring binary is from the rule.
pub open spec fn off_the_rule(binary: SelfMeasureBinary) -> int {
    match binary {
        SelfMeasureBinary::LastAttestedRelease => 0,
        SelfMeasureBinary::CurrentBuild => 1,
    }
}

proof fn lemma_binary_steps(s: SelfMeasureBinary)
    ensures
        policy_change::binary_step(JsonModel::Text(s.wire_name())) == Some(off_the_rule(s)),
{
    reveal_strlit("last-attested-release");
    reveal_strlit("current-build");
    assert("last-attested-release"@.len() == 21);
    assert("current-build"@.len() == 13);
}

/// Whether two optional texts say different things.
pub open spec fn said_otherwise(b: Option<String>, a: Option<String>) -> bool {
    match (b, a) {
        (None, None) => false,
        (Some(x), Some(y)) => x@ != y@,
        _ => true,
    }
}

/// Which way the severity settings move. Ceasing to block, weakening what a C-tier
/// claim may reach, asking MED+ to be diff-actionable and taking a tier out of the
/// MED+ band loosen; the reverse tightens.
pub proof fn lemma_severity_settings_move(base: Policy, head: Policy)
    ensures
        ({
            let b = base.severity;
            let a = head.severity;
            &&& a_switch(
                base,
                head,
                "severity.block_on_tamper"@,
                b.block_on_tamper,
                a.block_on_tamper,
                false,
            )
            &&& a_switch(
                base,
                head,
                "severity.block_on_test_failure"@,
                b.block_on_test_failure,
                a.block_on_test_failure,
                false,
            )
            &&& a_scale(
                base,
                head,
                "severity.max_severity_for_c_tier"@,
                a.max_severity_for_c_tier.rank(),
                b.max_severity_for_c_tier.rank(),
            )
            &&& a_switch(
                base,
                head,
                "severity.med_plus_requires_diff_actionable"@,
                b.med_plus_requires_diff_actionable,
                a.med_plus_requires_diff_actionable,
                true,
            )
            &&& a_set(
                base,
                head,
                "severity.med_plus_tiers"@,
                tier_gone(b.med_plus_tiers@, a.med_plus_tiers@),
                tier_gone(a.med_plus_tiers@, b.med_plus_tiers@),
                b.med_plus_tiers@ != a.med_plus_tiers@,
            )
        }),
{
    let b = base.severity;
    let a = head.severity;
    lemma_knobs();
    lemma_severity_paths();
    lemma_severity_steps(b.max_severity_for_c_tier);
    lemma_severity_steps(a.max_severity_for_c_tier);
    let x = crate::policy::tiers_model(b.med_plus_tiers@)->List_0;
    let y = crate::policy::tiers_model(a.med_plus_tiers@)->List_0;
    lemma_lists_moved(tier_names(b.med_plus_tiers@), tier_names(a.med_plus_tiers@), x, y);
    lemma_tiers_gone(b.med_plus_tiers@, a.med_plus_tiers@);
    lemma_tiers_gone(a.med_plus_tiers@, b.med_plus_tiers@);
    lemma_same_tiers(b.med_plus_tiers@, a.med_plus_tiers@);
    lemma_leaf(base, head, 1, 0, "severity.block_on_tamper"@);
    lemma_leaf(base, head, 1, 1, "severity.block_on_test_failure"@);
    lemma_leaf(base, head, 1, 2, "severity.max_severity_for_c_tier"@);
    lemma_leaf(base, head, 1, 3, "severity.med_plus_requires_diff_actionable"@);
    lemma_leaf(base, head, 1, 4, "severity.med_plus_tiers"@);
}

/// Which way the loop settings move. A higher cap loosens, and so does leaving
/// context out of the count.
pub proof fn lemma_loop_settings_move(base: Policy, head: Policy)
    ensures
        ({
            let b = base.loop_policy;
            let a = head.loop_policy;
            &&& a_scale(
                base,
                head,
                "loop.iteration_cap"@,
                b.iteration_cap as int,
                a.iteration_cap as int,
            )
            &&& a_switch(
                base,
                head,
                "loop.count_context_informational"@,
                b.count_context_informational,
                a.count_context_informational,
                false,
            )
        }),
{
    let b = base.loop_policy;
    let a = head.loop_policy;
    lemma_knobs();
    lemma_loop_paths();
    lemma_leaf(base, head, 2, 0, "loop.iteration_cap"@);
    lemma_leaf(base, head, 2, 1, "loop.count_context_informational"@);
}

/// The agent's budget is no part of the bar.
pub proof fn lemma_agent_settings_move(base: Policy, head: Policy)
    ensures
        ({
            let b = base.agent;
            let a = head.agent;
            &&& a_fact(
                base,
                head,
                "agent.profile_token_budget"@,
                b.profile_token_budget != a.profile_token_budget,
            )
            &&& a_fact(
                base,
                head,
                "agent.bytes_per_token"@,
                b.bytes_per_token != a.bytes_per_token,
            )
        }),
{
    let b = base.agent;
    let a = head.agent;
    lemma_knobs();
    lemma_agent_paths();
    lemma_leaf(base, head, 3, 0, "agent.profile_token_budget"@);
    lemma_leaf(base, head, 3, 1, "agent.bytes_per_token"@);
}

/// A higher latency or spawn budget loosens.
pub proof fn lemma_perf_settings_move(base: Policy, head: Policy)
    ensures
        ({
            let b = base.perf;
            let a = head.perf;
            &&& a_scale(
                base,
                head,
                "perf.fast_lane_warm_p95_ms"@,
                b.fast_lane_warm_p95_ms as int,
                a.fast_lane_warm_p95_ms as int,
            )
            &&& a_scale(
                base,
                head,
                "perf.fast_lane_warm_fallback_p95_ms"@,
                b.fast_lane_warm_fallback_p95_ms as int,
                a.fast_lane_warm_fallback_p95_ms as int,
            )
            &&& a_scale(
                base,
                head,
                "perf.fast_lane_cold_cap_ms"@,
                b.fast_lane_cold_cap_ms as int,
                a.fast_lane_cold_cap_ms as int,
            )
            &&& a_scale(
                base,
                head,
                "perf.max_git_spawns_per_measure"@,
                b.max_git_spawns_per_measure as int,
                a.max_git_spawns_per_measure as int,
            )
        }),
{
    let b = base.perf;
    let a = head.perf;
    lemma_knobs();
    lemma_perf_paths();
    lemma_leaf(base, head, 4, 0, "perf.fast_lane_warm_p95_ms"@);
    lemma_leaf(base, head, 4, 1, "perf.fast_lane_warm_fallback_p95_ms"@);
    lemma_leaf(base, head, 4, 2, "perf.fast_lane_cold_cap_ms"@);
    lemma_leaf(base, head, 4, 3, "perf.max_git_spawns_per_measure"@);
}

/// The history window is no part of the bar.
pub proof fn lemma_history_settings_move(base: Policy, head: Policy)
    ensures
        ({
            let b = base.history;
            let a = head.history;
            &&& a_fact(base, head, "history.window_days"@, b.window_days != a.window_days)
        }),
{
    let b = base.history;
    let a = head.history;
    lemma_knobs();
    lemma_history_paths();
    lemma_leaf(base, head, 5, 0, "history.window_days"@);
}

/// A higher claim budget loosens, and so does letting more claims fall due at once.
pub proof fn lemma_registry_settings_move(base: Policy, head: Policy)
    ensures
        ({
            let b = base.registry;
            let a = head.registry;
            &&& a_scale(
                base,
                head,
                "registry.claim_budget"@,
                b.claim_budget as int,
                a.claim_budget as int,
            )
            &&& a_scale(
                base,
                head,
                "registry.max_claims_expiring_per_month"@,
                b.max_claims_expiring_per_month as int,
                a.max_claims_expiring_per_month as int,
            )
        }),
{
    let b = base.registry;
    let a = head.registry;
    lemma_knobs();
    lemma_registry_paths();
    lemma_leaf(base, head, 6, 0, "registry.claim_budget"@);
    lemma_leaf(base, head, 6, 1, "registry.max_claims_expiring_per_month"@);
}

/// Which way the self-measurement settings move. Leaving the attested binary,
/// excluding another path and switching the drift signal off loosen; the reverse
/// tightens.
pub proof fn lemma_self_measure_settings_move(base: Policy, head: Policy)
    ensures
        ({
            let b = base.self_measure;
            let a = head.self_measure;
            &&& a_scale(
                base,
                head,
                "self_measure.binary"@,
                off_the_rule(b.binary),
                off_the_rule(a.binary),
            )
            &&& a_set(
                base,
                head,
                "self_measure.excluded_paths"@,
                lacks(text::texts(a.excluded_paths@), text::texts(b.excluded_paths@)),
                lacks(text::texts(b.excluded_paths@), text::texts(a.excluded_paths@)),
                text::texts(b.excluded_paths@) != text::texts(a.excluded_paths@),
            )
            &&& a_switch(
                base,
                head,
                "self_measure.exclusion_drift_signal"@,
                b.exclusion_drift_signal,
                a.exclusion_drift_signal,
                false,
            )
        }),
{
    let b = base.self_measure;
    let a = head.self_measure;
    lemma_knobs();
    lemma_self_measure_paths();
    lemma_binary_steps(b.binary);
    lemma_binary_steps(a.binary);
    let x = canonical::text_list(b.excluded_paths@)->List_0;
    let y = canonical::text_list(a.excluded_paths@)->List_0;
    lemma_lists_moved(text::texts(b.excluded_paths@), text::texts(a.excluded_paths@), x, y);
    lemma_leaf(base, head, 7, 0, "self_measure.binary"@);
    lemma_leaf(base, head, 7, 1, "self_measure.excluded_paths"@);
    lemma_leaf(base, head, 7, 2, "self_measure.exclusion_drift_signal"@);
}

/// Which way the sandbox settings move. Switching the lane off loosens, and so does
/// giving the suite less time. What it runs and with what is no part of the bar.
pub proof fn lemma_sandbox_settings_move(base: Policy, head: Policy)
    ensures
        ({
            let b = base.sandbox;
            let a = head.sandbox;
            &&& a_switch(base, head, "sandbox.enabled"@, b.enabled, a.enabled, false)
            &&& a_fact(
                base,
                head,
                "sandbox.test_command"@,
                said_otherwise(b.test_command, a.test_command),
            )
            &&& a_scale(
                base,
                head,
                "sandbox.test_timeout_ms"@,
                a.test_timeout_ms as int,
                b.test_timeout_ms as int,
            )
            &&& a_fact(
                base,
                head,
                "sandbox.env_allow"@,
                text::texts(b.env_allow@) != text::texts(a.env_allow@),
            )
            &&& a_fact(
                base,
                head,
                "sandbox.memory_limit_mb"@,
                b.memory_limit_mb != a.memory_limit_mb,
            )
        }),
{
    let b = base.sandbox;
    let a = head.sandbox;
    lemma_knobs();
    lemma_sandbox_paths();
    let x = canonical::text_list(b.env_allow@)->List_0;
    let y = canonical::text_list(a.env_allow@)->List_0;
    lemma_lists_moved(text::texts(b.env_allow@), text::texts(a.env_allow@), x, y);
    lemma_leaf(base, head, 8, 0, "sandbox.enabled"@);
    lemma_leaf(base, head, 8, 1, "sandbox.test_command"@);
    lemma_leaf(base, head, 8, 2, "sandbox.test_timeout_ms"@);
    lemma_leaf(base, head, 8, 3, "sandbox.env_allow"@);
    lemma_leaf(base, head, 8, 4, "sandbox.memory_limit_mb"@);
}


// --- lowering the bar -----------------------------------------------------

/// Whether an edit of the severity settings lets something past that did not get
/// past before.
pub open spec fn severity_lowered(b: SeverityPolicy, a: SeverityPolicy) -> bool {
    ||| b.block_on_tamper && !a.block_on_tamper
    ||| b.block_on_test_failure && !a.block_on_test_failure
    ||| a.max_severity_for_c_tier.rank() < b.max_severity_for_c_tier.rank()
    ||| !b.med_plus_requires_diff_actionable && a.med_plus_requires_diff_actionable
    ||| tier_gone(b.med_plus_tiers@, a.med_plus_tiers@)
}

/// Whether an edit of the loop settings makes the loop more patient.
pub open spec fn loop_lowered(b: LoopPolicy, a: LoopPolicy) -> bool {
    ||| a.iteration_cap > b.iteration_cap
    ||| b.count_context_informational && !a.count_context_informational
}

/// Whether an edit of the budgets allows more time or more spawns.
pub open spec fn perf_lowered(b: PerfPolicy, a: PerfPolicy) -> bool {
    ||| a.fast_lane_warm_p95_ms > b.fast_lane_warm_p95_ms
    ||| a.fast_lane_warm_fallback_p95_ms > b.fast_lane_warm_fallback_p95_ms
    ||| a.fast_lane_cold_cap_ms > b.fast_lane_cold_cap_ms
    ||| a.max_git_spawns_per_measure > b.max_git_spawns_per_measure
}

/// Whether an edit of the registry settings allows more claims.
pub open spec fn registry_lowered(b: RegistryPolicy, a: RegistryPolicy) -> bool {
    ||| a.claim_budget > b.claim_budget
    ||| a.max_claims_expiring_per_month > b.max_claims_expiring_per_month
}

/// Whether an edit of the self-measurement settings looks at less, or trusts more.
pub open spec fn self_measure_lowered(b: SelfMeasurePolicy, a: SelfMeasurePolicy) -> bool {
    ||| b.binary == SelfMeasureBinary::LastAttestedRelease && a.binary
        == SelfMeasureBinary::CurrentBuild
    ||| lacks(text::texts(a.excluded_paths@), text::texts(b.excluded_paths@))
    ||| b.exclusion_drift_signal && !a.exclusion_drift_signal
}

/// Whether an edit of the sandbox settings runs less.
pub open spec fn sandbox_lowered(b: SandboxPolicy, a: SandboxPolicy) -> bool {
    ||| b.enabled && !a.enabled
    ||| a.test_timeout_ms < b.test_timeout_ms
}

/// Whether an edit lowers the bar in some setting.
pub open spec fn lowered(base: Policy, head: Policy) -> bool {
    ||| severity_lowered(base.severity, head.severity)
    ||| loop_lowered(base.loop_policy, head.loop_policy)
    ||| perf_lowered(base.perf, head.perf)
    ||| registry_lowered(base.registry, head.registry)
    ||| self_measure_lowered(base.self_measure, head.self_measure)
    ||| sandbox_lowered(base.sandbox, head.sandbox)
}

proof fn lemma_severity_loosening(base: Policy, head: Policy, i: int)
    requires
        0 <= i < 5,
    ensures
        moves(
            base,
            head,
            "severity"@ + "."@ + rows_of(base.severity.json_model())[i].0,
            Direction::Loosening,
        ) ==> severity_lowered(base.severity, head.severity),
{
    lemma_severity_settings_move(base, head);
    lemma_severity_paths();
    assert(i == 0 || i == 1 || i == 2 || i == 3 || i == 4);
}

proof fn lemma_loop_loosening(base: Policy, head: Policy, i: int)
    requires
        0 <= i < 2,
    ensures
        moves(
            base,
            head,
            "loop"@ + "."@ + rows_of(base.loop_policy.json_model())[i].0,
            Direction::Loosening,
        ) ==> loop_lowered(base.loop_policy, head.loop_policy),
{
    lemma_loop_settings_move(base, head);
    lemma_loop_paths();
    assert(i == 0 || i == 1);
}

proof fn lemma_agent_loosening(base: Policy, head: Policy, i: int)
    requires
        0 <= i < 2,
    ensures
        moves(
            base,
            head,
            "agent"@ + "."@ + rows_of(base.agent.json_model())[i].0,
            Direction::Loosening,
        ) ==> false,
{
    lemma_agent_settings_move(base, head);
    lemma_agent_paths();
    assert(i == 0 || i == 1);
}

proof fn lemma_perf_loosening(base: Policy, head: Policy, i: int)
    requires
        0 <= i < 4,
    ensures
        moves(
            base,
            head,
            "perf"@ + "."@ + rows_of(base.perf.json_model())[i].0,
            Direction::Loosening,
        ) ==> perf_lowered(base.perf, head.perf),
{
    lemma_perf_settings_move(base, head);
    lemma_perf_paths();
    assert(i == 0 || i == 1 || i == 2 || i == 3);
}

proof fn lemma_history_loosening(base: Policy, head: Policy, i: int)
    requires
        0 <= i < 1,
    ensures
        moves(
            base,
            head,
            "history"@ + "."@ + rows_of(base.history.json_model())[i].0,
            Direction::Loosening,
        ) ==> false,
{
    lemma_history_settings_move(base, head);
    lemma_history_paths();
    assert(i == 0);
}

proof fn lemma_registry_loosening(base: Policy, head: Policy, i: int)
    requires
        0 <= i < 2,
    ensures
        moves(
            base,
            head,
            "registry"@ + "."@ + rows_of(base.registry.json_model())[i].0,
            Direction::Loosening,
        ) ==> registry_lowered(base.registry, head.registry),
{
    lemma_registry_settings_move(base, head);
    lemma_registry_paths();
    assert(i == 0 || i == 1);
}

proof fn lemma_self_measure_loosening(base: Policy, head: Policy, i: int)
    requires
        0 <= i < 3,
    ensures
        moves(
            base,
            head,
            "self_measure"@ + "."@ + rows_of(base.self_measure.json_model())[i].0,
            Direction::Loosening,
        ) ==> self_measure_lowered(base.self_measure, head.self_measure),
{
    lemma_self_measure_settings_move(base, head);
    lemma_self_measure_paths();
    assert(i == 0 || i == 1 || i == 2);
}

proof fn lemma_sandbox_loosening(base: Policy, head: Policy, i: int)
    requires
        0 <= i < 5,
    ensures
        moves(
            base,
            head,
            "sandbox"@ + "."@ + rows_of(base.sandbox.json_model())[i].0,
            Direction::Loosening,
        ) ==> sandbox_lowered(base.sandbox, head.sandbox),
{
    lemma_sandbox_settings_move(base, head);
    lemma_sandbox_paths();
    assert(i == 0 || i == 1 || i == 2 || i == 3 || i == 4);
}

/// An edit is reported as loosening exactly when it lowers the bar in some setting.
pub proof fn lemma_when_an_edit_loosens(base: Policy, head: Policy)
    ensures
        (exists|i: int|
            0 <= i < policy_change::policy_deltas(base, head).len() && (
            #[trigger] policy_change::policy_deltas(base, head)[i]).direction
                == Direction::Loosening) <==> lowered(base, head),
{
    let all = policy_change::policy_deltas(base, head);
    lemma_severity_settings_move(base, head);
    lemma_loop_settings_move(base, head);
    lemma_perf_settings_move(base, head);
    lemma_registry_settings_move(base, head);
    lemma_self_measure_settings_move(base, head);
    lemma_sandbox_settings_move(base, head);
    if exists|i: int| 0 <= i < all.len() && (#[trigger] all[i]).direction == Direction::Loosening {
        let i = choose|i: int|
            0 <= i < all.len() && (#[trigger] all[i]).direction == Direction::Loosening;
        let d = all[i];
        assert(all.contains(d));
        assert(moves(base, head, d.field, Direction::Loosening));
        let (k, j) = lemma_delta_place(base, head, d);
        if k == 0 {
            lemma_version_moves(base, head);
        } else if k == 1 {
            lemma_severity_loosening(base, head, j);
        } else if k == 2 {
            lemma_loop_loosening(base, head, j);
        } else if k == 3 {
            lemma_agent_loosening(base, head, j);
        } else if k == 4 {
            lemma_perf_loosening(base, head, j);
        } else if k == 5 {
            lemma_history_loosening(base, head, j);
        } else if k == 6 {
            lemma_registry_loosening(base, head, j);
        } else if k == 7 {
            lemma_self_measure_loosening(base, head, j);
        } else if k == 8 {
            lemma_sandbox_loosening(base, head, j);
        }
    }
}

/// A change stops the line exactly when it lowers the bar in some setting and
/// nobody in a position to check it vouched for that.
pub proof fn lemma_when_an_edit_stops_the_line(base: Policy, head: Policy, change: PolicyChange)
    requires
        policy_change::deltas_of(change.deltas@) == policy_change::policy_deltas(base, head),
    ensures
        change.stops() <==> lowered(base, head) && !(change.justification matches Some(j)
            && j is Verified),
{
    lemma_when_an_edit_loosens(base, head);
    let all = policy_change::policy_deltas(base, head);
    assert(all.len() == change.deltas@.len());
    if change.loosens() {
        let i = choose|i: int|
            0 <= i < change.deltas@.len() && (#[trigger] change.deltas@[i]).direction
                == Direction::Loosening;
        assert(all[i] == change.deltas@[i]@);
    }
    if lowered(base, head) {
        let i = choose|i: int|
            0 <= i < all.len() && (#[trigger] all[i]).direction == Direction::Loosening;
        assert(all[i] == change.deltas@[i]@);
    }
}

proof fn lemma_alone(base: Policy, head: Policy, field: Seq<char>, way: Direction)
    requires
        moves(base, head, field, way),
        forall|i: int|
            0 <= i < policy_change::policy_deltas(base, head).len() ==> (
            #[trigger] policy_change::policy_deltas(base, head)[i]).field == field,
    ensures
        policy_change::policy_deltas(base, head).len() == 1,
        policy_change::policy_deltas(base, head)[0].field == field,
        policy_change::policy_deltas(base, head)[0].direction == way,
{
    let all = policy_change::policy_deltas(base, head);
    if all.len() > 1 {
        lemma_every_field_is_reported_once(base, head, 0, 1);
        assert(all[0].field == field && all[1].field == field);
        text::lemma_text_less_irreflexive(field);
    }
}

/// Flipping one switch of the severity settings and nothing else is one delta. With
/// `block_on_tamper` or `block_on_test_failure` it loosens when the switch goes off
/// and tightens when it goes on; with `med_plus_requires_diff_actionable` it is the
/// other way round.
pub proof fn lemma_one_switch_is_one_delta(base: Policy, head: Policy)
    requires
        head.schema_version == base.schema_version,
        head.loop_policy == base.loop_policy,
        head.agent == base.agent,
        head.perf == base.perf,
        head.history == base.history,
        head.registry == base.registry,
        head.self_measure == base.self_measure,
        head.sandbox == base.sandbox,
    ensures
        ({
            let all = policy_change::policy_deltas(base, head);
            let b = base.severity;
            let a = head.severity;
            &&& a == (SeverityPolicy { block_on_tamper: !b.block_on_tamper, ..b }) ==> {
                &&& all.len() == 1
                &&& all[0].field == "severity.block_on_tamper"@
                &&& all[0].direction == if b.block_on_tamper {
                    Direction::Loosening
                } else {
                    Direction::Tightening
                }
            }
            &&& a == (SeverityPolicy { block_on_test_failure: !b.block_on_test_failure, ..b }) ==> {
                &&& all.len() == 1
                &&& all[0].field == "severity.block_on_test_failure"@
                &&& all[0].direction == if b.block_on_test_failure {
                    Direction::Loosening
                } else {
                    Direction::Tightening
                }
            }
            &&& a == (SeverityPolicy {
                med_plus_requires_diff_actionable: !b.med_plus_requires_diff_actionable,
                ..b
            }) ==> {
                &&& all.len() == 1
                &&& all[0].field == "severity.med_plus_requires_diff_actionable"@
                &&& all[0].direction == if b.med_plus_requires_diff_actionable {
                    Direction::Tightening
                } else {
                    Direction::Loosening
                }
            }
        }),
{
    let all = policy_change::policy_deltas(base, head);
    let b = base.severity;
    let a = head.severity;
    let x = rows_of(base.json_model());
    let xs = rows_of(b.json_model());
    let ys = rows_of(a.json_model());
    lemma_severity_settings_move(base, head);
    lemma_severity_paths();
    assert forall|i: int| #![trigger all[i]] 0 <= i < all.len() implies exists|j: int|
        0 <= j < 5 && (#[trigger] xs[j]).1 != ys[j].1 && all[i].field == "severity"@ + "."@
            + xs[j].0 by {
        assert(all.contains(all[i]));
        let (k, j) = lemma_delta_place(base, head, all[i]);
        assert(k == 1);
        assert(xs[j].1 != ys[j].1);
    }
    let way_of = |off: bool| if off { Direction::Loosening } else { Direction::Tightening };
    if a == (SeverityPolicy { block_on_tamper: !b.block_on_tamper, ..b }) {
        lemma_alone(
            base,
            head,
            "severity.block_on_tamper"@,
            way_of(b.block_on_tamper),
        );
    }
    if a == (SeverityPolicy { block_on_test_failure: !b.block_on_test_failure, ..b }) {
        lemma_alone(
            base,
            head,
            "severity.block_on_test_failure"@,
            way_of(b.block_on_test_failure),
        );
    }
    if a == (SeverityPolicy {
        med_plus_requires_diff_actionable: !b.med_plus_requires_diff_actionable,
        ..b
    }) {
        lemma_alone(
            base,
            head,
            "severity.med_plus_requires_diff_actionable"@,
            way_of(!b.med_plus_requires_diff_actionable),
        );
    }
}

/// A policy that lets a result go past which another stops has lowered the bar:
/// held to the other, its severity settings are a loosening.
pub proof fn lemma_letting_a_result_past_loosens(
    base: Policy,
    head: Policy,
    results: Seq<MeasurementResult>,
    change: Option<PolicyChange>,
    i: int,
)
    requires
        0 <= i < results.len(),
        meaning::enough_to_stop(severity::capped_all(results, base.severity)[i], base, change),
        !meaning::enough_to_stop(severity::capped_all(results, head.severity)[i], head, change),
    ensures
        severity_lowered(base.severity, head.severity),
        exists|k: int|
            0 <= k < policy_change::policy_deltas(base, head).len() && (
            #[trigger] policy_change::policy_deltas(base, head)[k]).direction
                == Direction::Loosening,
{
    let r = results[i];
    let was = severity::capped_all(results, base.severity)[i];
    let now = severity::capped_all(results, head.severity)[i];
    severity::lemma_what_policy_does_to_a_severity(results, base.severity, i);
    severity::lemma_what_policy_does_to_a_severity(results, head.severity, i);
    assert forall|signal: TamperSignal| #[trigger]
        meaning::fired(was, signal) == meaning::fired(now, signal) by {}
    if meaning::firing(was) {
        let s = choose|s: TamperSignal| #[trigger] meaning::fired(was, s);
        assert(meaning::fired(now, s));
    }
    if meaning::firing(now) {
        let s = choose|s: TamperSignal| #[trigger] meaning::fired(now, s);
        assert(meaning::fired(was, s));
    }
    if !severity_lowered(base.severity, head.severity) {
        assert(!tier_gone(base.severity.med_plus_tiers@, head.severity.med_plus_tiers@));
        if base.severity.med_plus_tiers@.contains(r.evidence.tier) {
            assert(head.severity.med_plus_tiers@.contains(r.evidence.tier));
        }
        if !meaning::firing(was) && !meaning::suite_down(was) {
            assert(!severity::kept_low(r, base.severity));
            assert(!severity::kept_low(r, head.severity));
            assert(now.severity.rank() < was.severity.rank());
        }
        assert(false);
    }
    lemma_when_an_edit_loosens(base, head);
}

// --- what a delta shows ---------------------------------------------------

/// Whether a comparison reports a setting with these two values, as a reader sees
/// them.
pub open spec fn shows(
    base: Policy,
    head: Policy,
    field: Seq<char>,
    before: Seq<char>,
    after: Seq<char>,
) -> bool {
    exists|i: int|
        0 <= i < policy_change::policy_deltas(base, head).len() && (
        #[trigger] policy_change::policy_deltas(base, head)[i]).field == field
            && policy_change::policy_deltas(base, head)[i].before == before
            && policy_change::policy_deltas(base, head)[i].after == after
}

proof fn lemma_leaf_shown(b: Policy, a: Policy, k: int, i: int, field: Seq<char>)
    requires
        1 <= k < 9,
        0 <= i < rows_of(rows_of(b.json_model())[k].1).len(),
        field == rows_of(b.json_model())[k].0 + "."@ + rows_of(rows_of(b.json_model())[k].1)[i].0,
    ensures
        ({
            let before = rows_of(rows_of(b.json_model())[k].1)[i].1;
            let after = rows_of(rows_of(a.json_model())[k].1)[i].1;
            before != after ==> shows(
                b,
                a,
                field,
                policy_change::rendered(before),
                policy_change::rendered(after),
            )
        }),
{
    let x = rows_of(b.json_model());
    let y = rows_of(a.json_model());
    let xs = rows_of(x[k].1);
    let ys = rows_of(y[k].1);
    let before = xs[i].1;
    let after = ys[i].1;
    let all = policy_change::policy_deltas(b, a);
    let here = policy_change::leaf_delta(field, before, after);
    lemma_top_level(b, a);
    lemma_section_shape(b, a, k);
    lemma_under_section(b, a, k);
    lemma_plain_names(b, k);
    assert(policy_change::path_to(x[k].0, xs[i].0) == field);
    if before != after {
        assert(under(x[k].0, xs, ys, i) == seq![here]);
        assert(under(x[k].0, xs, ys, i)[0] == here);
        lemma_walked_members(x[k].0, xs, ys, here);
        assert(x[k].1 == JsonModel::Members(xs));
        assert(y[k].1 == JsonModel::Members(ys));
        assert(under(Seq::empty(), x, y, k).contains(here));
        lemma_walked_members(Seq::empty(), x, y, here);
        lemma_reported(b, a, here);
        let p = choose|p: int| 0 <= p < all.len() && all[p] == here;
        assert(all[p].field == field && all[p].before == here.before);
    }
}

/// A switch as a reader sees it.
pub open spec fn on_off(b: bool) -> Seq<char> {
    if b {
        "true"@
    } else {
        "false"@
    }
}

proof fn lemma_values_shown(b: bool, n: u32)
    ensures
        policy_change::rendered(JsonModel::Bool(b)) == on_off(b),
        policy_change::rendered(JsonModel::Whole(n as int)) == text::decimal(n as nat),
{
    canonical::lemma_how_plain_values_are_written(n as int, Seq::empty());
}

/// A reported edit shows the value it comes from and the value it goes to, in that
/// order: a switch as a word, a number by its digits, a name as it is.
pub proof fn lemma_what_an_edit_shows(base: Policy, head: Policy)
    ensures
        base.severity.block_on_tamper != head.severity.block_on_tamper ==> shows(
            base,
            head,
            "severity.block_on_tamper"@,
            on_off(base.severity.block_on_tamper),
            on_off(head.severity.block_on_tamper),
        ),
        base.severity.block_on_test_failure != head.severity.block_on_test_failure ==> shows(
            base,
            head,
            "severity.block_on_test_failure"@,
            on_off(base.severity.block_on_test_failure),
            on_off(head.severity.block_on_test_failure),
        ),
        base.severity.max_severity_for_c_tier != head.severity.max_severity_for_c_tier ==> shows(
            base,
            head,
            "severity.max_severity_for_c_tier"@,
            base.severity.max_severity_for_c_tier.wire_name(),
            head.severity.max_severity_for_c_tier.wire_name(),
        ),
        base.loop_policy.iteration_cap != head.loop_policy.iteration_cap ==> shows(
            base,
            head,
            "loop.iteration_cap"@,
            text::decimal(base.loop_policy.iteration_cap as nat),
            text::decimal(head.loop_policy.iteration_cap as nat),
        ),
        base.self_measure.binary != head.self_measure.binary ==> shows(
            base,
            head,
            "self_measure.binary"@,
            base.self_measure.binary.wire_name(),
            head.self_measure.binary.wire_name(),
        ),
        base.sandbox.test_timeout_ms != head.sandbox.test_timeout_ms ==> shows(
            base,
            head,
            "sandbox.test_timeout_ms"@,
            text::decimal(base.sandbox.test_timeout_ms as nat),
            text::decimal(head.sandbox.test_timeout_ms as nat),
        ),
{
    lemma_severity_paths();
    lemma_loop_paths();
    lemma_self_measure_paths();
    lemma_sandbox_paths();
    lemma_severity_steps(base.severity.max_severity_for_c_tier);
    lemma_severity_steps(head.severity.max_severity_for_c_tier);
    lemma_binary_steps(base.self_measure.binary);
    lemma_binary_steps(head.self_measure.binary);
    lemma_values_shown(base.severity.block_on_tamper, base.loop_policy.iteration_cap);
    lemma_values_shown(head.severity.block_on_tamper, head.loop_policy.iteration_cap);
    lemma_values_shown(base.severity.block_on_test_failure, base.sandbox.test_timeout_ms);
    lemma_values_shown(head.severity.block_on_test_failure, head.sandbox.test_timeout_ms);
    lemma_leaf_shown(base, head, 1, 0, "severity.block_on_tamper"@);
    lemma_leaf_shown(base, head, 1, 1, "severity.block_on_test_failure"@);
    lemma_leaf_shown(base, head, 1, 2, "severity.max_severity_for_c_tier"@);
    lemma_leaf_shown(base, head, 2, 0, "loop.iteration_cap"@);
    lemma_leaf_shown(base, head, 7, 0, "self_measure.binary"@);
    lemma_leaf_shown(base, head, 8, 2, "sandbox.test_timeout_ms"@);
}

} // verus!
