//! What the lint guarantees: of a registry that got past it, and of every one.
use vstd::prelude::*;

use crate::date::DateModel;
use crate::payload::registry_load;
use crate::policy::RegistryPolicy;
use crate::registry;
use crate::registry::{
    Claim, ClaimModel, DiagnosticModel, DiagnosticSeverity, EngineRegistryFile, LintModel,
    MetricDecl, ResolvedModel,
};
use crate::strmap;
use crate::text;

verus! {

/// Whether some finding refuses the registry at run time.
pub open spec fn refused(s: Seq<DiagnosticModel>) -> bool {
    exists|i: int| 0 <= i < s.len() && registry_load::is_fatal(#[trigger] s[i])
}

/// Whether some finding fails the build.
pub open spec fn failed(s: Seq<DiagnosticModel>) -> bool {
    exists|i: int| 0 <= i < s.len() && (#[trigger] s[i]).severity == DiagnosticSeverity::Error
}

proof fn lemma_refused_concat(a: Seq<DiagnosticModel>, b: Seq<DiagnosticModel>)
    ensures
        refused(a + b) <==> refused(a) || refused(b),
{
    if refused(a) {
        let i = choose|i: int| 0 <= i < a.len() && registry_load::is_fatal(#[trigger] a[i]);
        assert(registry_load::is_fatal((a + b)[i]));
    }
    if refused(b) {
        let i = choose|i: int| 0 <= i < b.len() && registry_load::is_fatal(#[trigger] b[i]);
        assert(registry_load::is_fatal((a + b)[a.len() + i]));
    }
}

proof fn lemma_codes()
    ensures
        !registry_load::scheduling_code("registry.claim-id-format"@),
        !registry_load::scheduling_code("registry.missing-field"@),
        !registry_load::scheduling_code("registry.duplicate-claim"@),
        !registry_load::scheduling_code("registry.duplicate-metric"@),
        !registry_load::scheduling_code("registry.unmapped-metric"@),
        !registry_load::scheduling_code("registry.claim-budget"@),
{
    reveal_strlit("registry.expiry-stagger");
    reveal_strlit("registry.claim-id-format");
    reveal_strlit("registry.missing-field");
    reveal_strlit("registry.duplicate-claim");
    reveal_strlit("registry.duplicate-metric");
    reveal_strlit("registry.unmapped-metric");
    reveal_strlit("registry.claim-budget");
    assert("registry.claim-id-format"@.len() == 24);
    assert("registry.missing-field"@.len() == 22);
    assert("registry.duplicate-claim"@.len() == 24);
    assert("registry.duplicate-metric"@.len() == 25);
    assert("registry.unmapped-metric"@.len() == 24);
    assert("registry.claim-budget"@.len() == 21);
    assert(registry_load::SCHEDULING_HYGIENE_CODES@.len() == 1);
    assert(registry_load::SCHEDULING_HYGIENE_CODES@[0]@.len() == 23);
}

// --- claims ---------------------------------------------------------------

/// Whether a claim says what every claim has to say.
pub open spec fn well_stated(claim: ClaimModel) -> bool {
    &&& claim.claim_id == claim.tuple_id()
    &&& claim.does_not_predict.len() > 0
    &&& !text::is_blank(claim.citation)
    &&& !text::is_blank(claim.population)
    &&& !text::is_blank(claim.effect)
    &&& !text::is_blank(claim.owner)
}

proof fn lemma_error(s: Seq<DiagnosticModel>)
    requires
        s.len() == 1,
        registry_load::is_fatal(s[0]),
    ensures
        refused(s),
{
}

proof fn lemma_claim_findings(
    path: Seq<char>,
    claim: ClaimModel,
    as_of: DateModel,
    known: bool,
)
    requires
        !refused(registry::claim_findings(path, claim, as_of, known)),
    ensures
        well_stated(claim),
        !known,
{
    lemma_codes();
    let a = registry::misnamed(path, claim);
    let b = registry::overclaiming(path, claim);
    let c = registry::blank_field(path, claim, "citation"@, claim.citation);
    let d = registry::blank_field(path, claim, "population"@, claim.population);
    let e = registry::blank_field(path, claim, "effect"@, claim.effect);
    let f = registry::blank_field(path, claim, "owner"@, claim.owner);
    let g = registry::expired(path, claim, as_of);
    let h = registry::repeated(path, claim, known);
    lemma_refused_concat(a, b);
    lemma_refused_concat(a + b, c);
    lemma_refused_concat(a + b + c, d);
    lemma_refused_concat(a + b + c + d, e);
    lemma_refused_concat(a + b + c + d + e, f);
    lemma_refused_concat(a + b + c + d + e + f, g);
    lemma_refused_concat(a + b + c + d + e + f + g, h);
    if a.len() > 0 {
        lemma_error(a);
    }
    if b.len() > 0 {
        lemma_error(b);
    }
    if c.len() > 0 {
        lemma_error(c);
    }
    if d.len() > 0 {
        lemma_error(d);
    }
    if e.len() > 0 {
        lemma_error(e);
    }
    if f.len() > 0 {
        lemma_error(f);
    }
    if h.len() > 0 {
        lemma_error(h);
    }
}

/// Whether every claim is filed under its own id, marked stale exactly when it
/// is past its date, and well stated unless something was refused.
spec fn claims_in_order(m: LintModel, as_of: DateModel) -> bool {
    &&& strmap::keys_ascend(m.claims)
    &&& strmap::keys_ascend(m.metrics)
    &&& forall|id: Seq<char>|
        (#[trigger] strmap::lookup(m.claims, id)) matches Some(r) ==> r.claim.claim_id == id
            && r.stale == as_of.after(r.claim.expiry)
    &&& forall|id: Seq<char>|
        (#[trigger] strmap::lookup(m.claims, id)) matches Some(r) ==> refused(m.diagnostics)
            || well_stated(r.claim)
    &&& forall|id: Seq<char>|
        (#[trigger] strmap::lookup(m.metrics, id)) matches Some(d) ==> d.metric_id@ == id
}

proof fn lemma_claims_read(
    m: LintModel,
    path: Seq<char>,
    claims: Seq<Claim>,
    as_of: DateModel,
    n: int,
)
    requires
        claims_in_order(m, as_of),
        0 <= n <= claims.len(),
    ensures
        claims_in_order(registry::after_claims(m, path, claims, as_of, n), as_of),
        refused(m.diagnostics) ==> refused(
            registry::after_claims(m, path, claims, as_of, n).diagnostics,
        ),
    decreases n,
{
    if n > 0 {
        lemma_claims_read(m, path, claims, as_of, n - 1);
        let before = registry::after_claims(m, path, claims, as_of, n - 1);
        let claim = claims[n - 1]@;
        let known = strmap::has_key(before.claims, claim.claim_id);
        let found = registry::claim_findings(path, claim, as_of, known);
        let value = ResolvedModel { claim, stale: as_of.after(claim.expiry) };
        strmap::lemma_inserted(before.claims, claim.claim_id, value);
        lemma_refused_concat(before.diagnostics, found);
        if !refused(found) {
            lemma_claim_findings(path, claim, as_of, known);
        }
    }
}

proof fn lemma_metrics_read(
    m: LintModel,
    path: Seq<char>,
    metrics: Seq<MetricDecl>,
    as_of: DateModel,
    n: int,
)
    requires
        claims_in_order(m, as_of),
        0 <= n <= metrics.len(),
    ensures
        claims_in_order(registry::after_metrics(m, path, metrics, n), as_of),
        refused(m.diagnostics) ==> refused(
            registry::after_metrics(m, path, metrics, n).diagnostics,
        ),
    decreases n,
{
    if n > 0 {
        lemma_metrics_read(m, path, metrics, as_of, n - 1);
        let before = registry::after_metrics(m, path, metrics, n - 1);
        let after = registry::after_metrics(m, path, metrics, n);
        let metric = metrics[n - 1];
        strmap::lemma_inserted(before.metrics, metric.metric_id@, metric);
        let found = after.diagnostics.skip(before.diagnostics.len() as int);
        assert(after.diagnostics =~= before.diagnostics + found);
        lemma_refused_concat(before.diagnostics, found);
    }
}

proof fn lemma_files_read(files: Seq<(String, EngineRegistryFile)>, as_of: DateModel, n: int)
    requires
        0 <= n <= files.len(),
    ensures
        claims_in_order(registry::after_files(files, as_of, n), as_of),
    decreases n,
{
    if n > 0 {
        lemma_files_read(files, as_of, n - 1);
        let m = registry::after_files(files, as_of, n - 1);
        let path = files[n - 1].0@;
        let file = files[n - 1].1;
        if file.schema_version != registry::REGISTRY_SCHEMA_VERSION {
            let after = registry::after_files(files, as_of, n);
            let found = after.diagnostics.skip(m.diagnostics.len() as int);
            assert(after.diagnostics =~= m.diagnostics + found);
            lemma_refused_concat(m.diagnostics, found);
        } else {
            let claims = file.claims@;
            lemma_claims_read(m, path, claims, as_of, claims.len() as int);
            let mid = registry::after_claims(m, path, claims, as_of, claims.len() as int);
            lemma_metrics_read(mid, path, file.metrics@, as_of, file.metrics@.len() as int);
        }
    }
}

// --- metrics, budget, schedule --------------------------------------------

proof fn lemma_unmapped(m: LintModel, n: int, i: int)
    requires
        0 <= i < n <= m.metrics.len(),
        !strmap::has_key(m.claims, m.metrics[i].1.claim_id@),
    ensures
        refused(registry::unmapped_metrics(m, n)),
    decreases n,
{
    lemma_codes();
    let before = registry::unmapped_metrics(m, n - 1);
    let all = registry::unmapped_metrics(m, n);
    if i < n - 1 {
        lemma_unmapped(m, n - 1, i);
        let found = all.skip(before.len() as int);
        assert(all =~= before + found);
        lemma_refused_concat(before, found);
    } else {
        assert(registry_load::is_fatal(all[all.len() - 1]));
    }
}

proof fn lemma_due_months(claims: Seq<(Seq<char>, ResolvedModel)>, month: Seq<char>, n: int)
    requires
        0 <= n <= claims.len(),
    ensures
        strmap::keys_ascend(registry::months_due(claims, n)),
        registry::due_in(claims, month, n) > 0 ==> strmap::has_key(
            registry::months_due(claims, n),
            month,
        ),
    decreases n,
{
    if n > 0 {
        lemma_due_months(claims, month, n - 1);
        strmap::lemma_inserted(
            registry::months_due(claims, n - 1),
            claims[n - 1].1.claim.expiry.month_text(),
            (),
        );
    }
}

proof fn lemma_crowded(
    claims: Seq<(Seq<char>, ResolvedModel)>,
    months: Seq<(Seq<char>, ())>,
    limit: int,
    n: int,
    i: int,
)
    requires
        0 <= i < n <= months.len(),
        registry::due_in(claims, months[i].0, claims.len() as int) > limit,
    ensures
        failed(registry::crowded_months(claims, months, limit, n)),
    decreases n,
{
    let before = registry::crowded_months(claims, months, limit, n - 1);
    let all = registry::crowded_months(claims, months, limit, n);
    if i < n - 1 {
        lemma_crowded(claims, months, limit, n - 1, i);
        let k = choose|k: int|
            0 <= k < before.len() && (#[trigger] before[k]).severity == DiagnosticSeverity::Error;
        assert(all[k].severity == DiagnosticSeverity::Error);
    } else {
        assert(all[all.len() - 1].severity == DiagnosticSeverity::Error);
    }
}

/// Whether the evidence holds together: every claim is filed under its own id,
/// is well stated, and is stale exactly when it is past its date; every metric
/// cites a claim that is there; and the claims are within budget.
pub open spec fn holds_together(m: LintModel, budget: u32, as_of: DateModel) -> bool {
    &&& forall|id: Seq<char>|
        (#[trigger] strmap::lookup(m.claims, id)) matches Some(r) ==> r.claim.claim_id == id
            && well_stated(r.claim) && r.stale == as_of.after(r.claim.expiry)
    &&& forall|id: Seq<char>|
        (#[trigger] strmap::lookup(m.metrics, id)) matches Some(d) ==> strmap::has_key(
            m.claims,
            d.claim_id@,
        )
    &&& m.claims.len() <= budget
}

/// A registry that loads holds together: no number can be reported whose claim
/// nobody declared, or whose claim does not say what it is no evidence for.
pub proof fn lemma_what_loads_holds_together(
    files: Seq<(String, EngineRegistryFile)>,
    policy: RegistryPolicy,
    as_of: DateModel,
)
    requires
        !refused(registry_load::findings(files, policy, as_of)),
    ensures
        holds_together(
            registry::after_files(files, as_of, files.len() as int),
            policy.claim_budget,
            as_of,
        ),
{
    let m = registry::after_files(files, as_of, files.len() as int);
    lemma_files_read(files, as_of, files.len() as int);
    lemma_codes();
    let a = m.diagnostics;
    let b = registry::unmapped_metrics(m, m.metrics.len() as int);
    let c = registry::unused_claims(m, m.claims.len() as int);
    let d = registry::over_budget(m, policy.claim_budget as int);
    let months = registry::months_due(m.claims, m.claims.len() as int);
    let e = registry::crowded_months(
        m.claims,
        months,
        policy.max_claims_expiring_per_month as int,
        months.len() as int,
    );
    lemma_refused_concat(a, b);
    lemma_refused_concat(a + b, c);
    lemma_refused_concat(a + b + c, d);
    lemma_refused_concat(a + b + c + d, e);
    if d.len() > 0 {
        lemma_error(d);
    }
    assert forall|id: Seq<char>| (
    #[trigger] strmap::lookup(m.metrics, id)) matches Some(decl) implies strmap::has_key(
        m.claims,
        strmap::lookup(m.metrics, id)->Some_0.claim_id@,
    ) by {
        strmap::lemma_lookup_iff(m.metrics, id);
        let i = choose|i: int| 0 <= i < m.metrics.len() && (#[trigger] m.metrics[i]).0 == id;
        strmap::lemma_lookup_row(m.metrics, i);
        if !strmap::has_key(m.claims, m.metrics[i].1.claim_id@) {
            lemma_unmapped(m, m.metrics.len() as int, i);
        }
    }
}

/// A registry the build passes also spreads its re-review load: no month has
/// more claims falling due than policy allows.
pub proof fn lemma_what_builds_is_spread(
    files: Seq<(String, EngineRegistryFile)>,
    policy: RegistryPolicy,
    as_of: DateModel,
    month: Seq<char>,
)
    requires
        !failed(registry_load::findings(files, policy, as_of)),
    ensures
        ({
            let m = registry::after_files(files, as_of, files.len() as int);
            &&& holds_together(m, policy.claim_budget, as_of)
            &&& registry::due_in(m.claims, month, m.claims.len() as int)
                <= policy.max_claims_expiring_per_month
        }),
{
    let all = registry_load::findings(files, policy, as_of);
    if refused(all) {
        let i = choose|i: int| 0 <= i < all.len() && registry_load::is_fatal(#[trigger] all[i]);
        assert(all[i].severity == DiagnosticSeverity::Error);
    }
    lemma_what_loads_holds_together(files, policy, as_of);
    let m = registry::after_files(files, as_of, files.len() as int);
    let months = registry::months_due(m.claims, m.claims.len() as int);
    let limit = policy.max_claims_expiring_per_month as int;
    lemma_due_months(m.claims, month, m.claims.len() as int);
    if registry::due_in(m.claims, month, m.claims.len() as int) > limit {
        strmap::lemma_lookup_iff(months, month);
        let i = choose|i: int| 0 <= i < months.len() && (#[trigger] months[i]).0 == month;
        lemma_crowded(m.claims, months, limit, months.len() as int, i);
        let last = registry::crowded_months(m.claims, months, limit, months.len() as int);
        let k = choose|k: int|
            0 <= k < last.len() && (#[trigger] last[k]).severity == DiagnosticSeverity::Error;
        assert(all[all.len() - last.len() + k] == last[k]);
    }
}

// --- the date -------------------------------------------------------------

proof fn lemma_errors_concat(a: Seq<DiagnosticModel>, b: Seq<DiagnosticModel>)
    ensures
        registry::errors_among(a + b) == registry::errors_among(a) + registry::errors_among(b),
    decreases b.len(),
{
    if b.len() == 0 {
        assert(a + b =~= a);
        assert(registry::errors_among(a) + registry::errors_among(b) =~= registry::errors_among(a));
    } else {
        assert((a + b).drop_last() =~= a + b.drop_last());
        lemma_errors_concat(a, b.drop_last());
        assert(registry::errors_among(a + b) =~= registry::errors_among(a)
            + registry::errors_among(b));
    }
}

/// Whether two lists of claims differ in nothing but what is stale.
spec fn same_claims(
    x: Seq<(Seq<char>, ResolvedModel)>,
    y: Seq<(Seq<char>, ResolvedModel)>,
) -> bool {
    &&& x.len() == y.len()
    &&& forall|i: int|
        0 <= i < x.len() ==> (#[trigger] x[i]).0 == y[i].0 && x[i].1.claim == y[i].1.claim
}

proof fn lemma_same_place(
    x: Seq<(Seq<char>, ResolvedModel)>,
    y: Seq<(Seq<char>, ResolvedModel)>,
    key: Seq<char>,
    i: int,
)
    requires
        same_claims(x, y),
        0 <= i <= x.len(),
    ensures
        strmap::place(x, key, i) == strmap::place(y, key, i),
        i <= strmap::place(x, key, i) <= x.len(),
        strmap::lookup_from(x, key, i) is Some == strmap::lookup_from(y, key, i) is Some,
    decreases x.len() - i,
{
    if i < x.len() {
        assert(x[i].0 == y[i].0);
        lemma_same_place(x, y, key, i + 1);
    }
}

/// Whether two states of the lint differ in nothing but what is stale.
spec fn same_but_stale(x: LintModel, y: LintModel) -> bool {
    &&& same_claims(x.claims, y.claims)
    &&& x.metrics == y.metrics
    &&& x.sources == y.sources
    &&& registry::errors_among(x.diagnostics) == registry::errors_among(y.diagnostics)
}

proof fn lemma_claim_errors(path: Seq<char>, claim: ClaimModel, d: DateModel, known: bool)
    ensures
        ({
            let a = registry::misnamed(path, claim);
            let b = registry::overclaiming(path, claim);
            let c = registry::blank_field(path, claim, "citation"@, claim.citation);
            let e = registry::blank_field(path, claim, "population"@, claim.population);
            let f = registry::blank_field(path, claim, "effect"@, claim.effect);
            let g = registry::blank_field(path, claim, "owner"@, claim.owner);
            let h = registry::repeated(path, claim, known);
            registry::errors_among(registry::claim_findings(path, claim, d, known))
                == registry::errors_among(a + b + c + e + f + g) + registry::errors_among(h)
        }),
{
    let a = registry::misnamed(path, claim);
    let b = registry::overclaiming(path, claim);
    let c = registry::blank_field(path, claim, "citation"@, claim.citation);
    let e = registry::blank_field(path, claim, "population"@, claim.population);
    let f = registry::blank_field(path, claim, "effect"@, claim.effect);
    let g = registry::blank_field(path, claim, "owner"@, claim.owner);
    let h = registry::repeated(path, claim, known);
    let notice = registry::expired(path, claim, d);
    let head = a + b + c + e + f + g;
    lemma_errors_concat(head + notice, h);
    lemma_errors_concat(head, notice);
    reveal_with_fuel(registry::errors_among, 2);
    assert(registry::errors_among(notice) =~= Seq::empty());
    assert(registry::errors_among(head) + registry::errors_among(notice)
        =~= registry::errors_among(head));
}

proof fn lemma_claims_read_alike(
    x: LintModel,
    y: LintModel,
    path: Seq<char>,
    claims: Seq<Claim>,
    a: DateModel,
    b: DateModel,
    n: int,
)
    requires
        same_but_stale(x, y),
        0 <= n <= claims.len(),
    ensures
        same_but_stale(
            registry::after_claims(x, path, claims, a, n),
            registry::after_claims(y, path, claims, b, n),
        ),
    decreases n,
{
    if n > 0 {
        lemma_claims_read_alike(x, y, path, claims, a, b, n - 1);
        let p = registry::after_claims(x, path, claims, a, n - 1);
        let q = registry::after_claims(y, path, claims, b, n - 1);
        let claim = claims[n - 1]@;
        let known = strmap::has_key(p.claims, claim.claim_id);
        lemma_same_place(p.claims, q.claims, claim.claim_id, 0);
        lemma_claim_errors(path, claim, a, known);
        lemma_claim_errors(path, claim, b, known);
        lemma_errors_concat(p.diagnostics, registry::claim_findings(path, claim, a, known));
        lemma_errors_concat(q.diagnostics, registry::claim_findings(path, claim, b, known));
        let at = strmap::place(p.claims, claim.claim_id, 0);
        if at < p.claims.len() {
            assert(p.claims[at].0 == q.claims[at].0);
        }
        let vp = ResolvedModel { claim, stale: a.after(claim.expiry) };
        let vq = ResolvedModel { claim, stale: b.after(claim.expiry) };
        let np = strmap::inserted(p.claims, claim.claim_id, vp);
        let nq = strmap::inserted(q.claims, claim.claim_id, vq);
        assert(same_claims(np, nq)) by {
            assert(np.len() == nq.len());
            assert forall|i: int| 0 <= i < np.len() implies (#[trigger] np[i]).0 == nq[i].0
                && np[i].1.claim == nq[i].1.claim by {
                if i < p.claims.len() {
                    assert(p.claims[i].0 == q.claims[i].0);
                }
                if i > 0 && i - 1 < p.claims.len() {
                    assert(p.claims[i - 1].0 == q.claims[i - 1].0);
                }
            }
        }
    }
}

proof fn lemma_metrics_read_alike(
    x: LintModel,
    y: LintModel,
    path: Seq<char>,
    metrics: Seq<MetricDecl>,
    n: int,
)
    requires
        same_but_stale(x, y),
        0 <= n <= metrics.len(),
    ensures
        same_but_stale(
            registry::after_metrics(x, path, metrics, n),
            registry::after_metrics(y, path, metrics, n),
        ),
    decreases n,
{
    if n > 0 {
        lemma_metrics_read_alike(x, y, path, metrics, n - 1);
        let p = registry::after_metrics(x, path, metrics, n - 1);
        let q = registry::after_metrics(y, path, metrics, n - 1);
        let after = registry::after_metrics(x, path, metrics, n);
        let found = after.diagnostics.skip(p.diagnostics.len() as int);
        assert(after.diagnostics =~= p.diagnostics + found);
        assert(registry::after_metrics(y, path, metrics, n).diagnostics =~= q.diagnostics + found);
        lemma_errors_concat(p.diagnostics, found);
        lemma_errors_concat(q.diagnostics, found);
    }
}

proof fn lemma_files_read_alike(
    files: Seq<(String, EngineRegistryFile)>,
    a: DateModel,
    b: DateModel,
    n: int,
)
    requires
        0 <= n <= files.len(),
    ensures
        same_but_stale(
            registry::after_files(files, a, n),
            registry::after_files(files, b, n),
        ),
    decreases n,
{
    if n > 0 {
        lemma_files_read_alike(files, a, b, n - 1);
        let x = registry::after_files(files, a, n - 1);
        let y = registry::after_files(files, b, n - 1);
        let path = files[n - 1].0@;
        let file = files[n - 1].1;
        if file.schema_version != registry::REGISTRY_SCHEMA_VERSION {
            let after = registry::after_files(files, a, n);
            let found = after.diagnostics.skip(x.diagnostics.len() as int);
            assert(after.diagnostics =~= x.diagnostics + found);
            assert(registry::after_files(files, b, n).diagnostics =~= y.diagnostics + found);
            lemma_errors_concat(x.diagnostics, found);
            lemma_errors_concat(y.diagnostics, found);
        } else {
            let k = file.claims@.len() as int;
            lemma_claims_read_alike(x, y, path, file.claims@, a, b, k);
            lemma_metrics_read_alike(
                registry::after_claims(x, path, file.claims@, a, k),
                registry::after_claims(y, path, file.claims@, b, k),
                path,
                file.metrics@,
                file.metrics@.len() as int,
            );
        }
    }
}

proof fn lemma_unmapped_alike(x: LintModel, y: LintModel, n: int)
    requires
        same_but_stale(x, y),
        n <= x.metrics.len(),
    ensures
        registry::unmapped_metrics(x, n) == registry::unmapped_metrics(y, n),
    decreases n,
{
    if n > 0 {
        lemma_unmapped_alike(x, y, n - 1);
        lemma_same_place(x.claims, y.claims, x.metrics[n - 1].1.claim_id@, 0);
    }
}

proof fn lemma_unused_alike(x: LintModel, y: LintModel, n: int)
    requires
        same_but_stale(x, y),
        n <= x.claims.len(),
    ensures
        registry::unused_claims(x, n) == registry::unused_claims(y, n),
    decreases n,
{
    if n > 0 {
        lemma_unused_alike(x, y, n - 1);
        assert(x.claims[n - 1].0 == y.claims[n - 1].0);
    }
}

proof fn lemma_due_alike(
    x: Seq<(Seq<char>, ResolvedModel)>,
    y: Seq<(Seq<char>, ResolvedModel)>,
    month: Seq<char>,
    n: int,
)
    requires
        same_claims(x, y),
        n <= x.len(),
    ensures
        registry::months_due(x, n) == registry::months_due(y, n),
        registry::due_in(x, month, n) == registry::due_in(y, month, n),
    decreases n,
{
    if n > 0 {
        lemma_due_alike(x, y, month, n - 1);
        assert(x[n - 1].0 == y[n - 1].0);
    }
}

proof fn lemma_crowded_alike(
    x: Seq<(Seq<char>, ResolvedModel)>,
    y: Seq<(Seq<char>, ResolvedModel)>,
    months: Seq<(Seq<char>, ())>,
    limit: int,
    n: int,
)
    requires
        same_claims(x, y),
        n <= months.len(),
    ensures
        registry::crowded_months(x, months, limit, n) == registry::crowded_months(
            y,
            months,
            limit,
            n,
        ),
    decreases n,
{
    if n > 0 {
        lemma_crowded_alike(x, y, months, limit, n - 1);
        lemma_due_alike(x, y, months[n - 1].0, x.len() as int);
    }
}

/// The date decides what is stale and nothing else: whatever the day, the lint
/// finds the same errors, so a build does not turn red because time passed.
pub proof fn lemma_no_build_fails_by_date(
    files: Seq<(String, EngineRegistryFile)>,
    policy: RegistryPolicy,
    a: DateModel,
    b: DateModel,
)
    ensures
        registry::errors_among(registry_load::findings(files, policy, a))
            == registry::errors_among(registry_load::findings(files, policy, b)),
{
    let x = registry::after_files(files, a, files.len() as int);
    let y = registry::after_files(files, b, files.len() as int);
    let limit = policy.max_claims_expiring_per_month as int;
    lemma_files_read_alike(files, a, b, files.len() as int);
    lemma_unmapped_alike(x, y, x.metrics.len() as int);
    lemma_unused_alike(x, y, x.claims.len() as int);
    lemma_due_alike(x.claims, y.claims, Seq::empty(), x.claims.len() as int);
    let months = registry::months_due(x.claims, x.claims.len() as int);
    lemma_crowded_alike(x.claims, y.claims, months, limit, months.len() as int);
    let rest = registry::unmapped_metrics(x, x.metrics.len() as int) + registry::unused_claims(
        x,
        x.claims.len() as int,
    ) + registry::over_budget(x, policy.claim_budget as int) + registry::crowded_months(
        x.claims,
        months,
        limit,
        months.len() as int,
    );
    lemma_errors_concat(x.diagnostics, rest);
    lemma_errors_concat(y.diagnostics, rest);
    assert(registry_load::findings(files, policy, a) =~= x.diagnostics + rest);
    assert(registry_load::findings(files, policy, b) =~= y.diagnostics + rest);
}

// --- whatever the lint finds ----------------------------------------------

/// Every merged claim is filed under its own id and is stale exactly when its
/// expiry is past, whether or not the registry is refused.
pub proof fn lemma_every_claim_shows_its_age(
    files: Seq<(String, EngineRegistryFile)>,
    as_of: DateModel,
    id: Seq<char>,
)
    ensures
        strmap::lookup(
            registry::after_files(files, as_of, files.len() as int).claims,
            id,
        ) matches Some(r) ==> r.claim.claim_id == id && r.stale == as_of.after(r.claim.expiry),
{
    lemma_files_read(files, as_of, files.len() as int);
}

/// The findings that say a claim has expired.
pub open spec fn expiries_among(s: Seq<DiagnosticModel>) -> Seq<DiagnosticModel> {
    s.filter(|d: DiagnosticModel| d.code == "registry.evidence-stale"@)
}

/// The notices about the first `n` claims of a file: one for each that is past
/// its expiry.
pub open spec fn claim_expiries(
    path: Seq<char>,
    claims: Seq<Claim>,
    as_of: DateModel,
    n: int,
) -> Seq<DiagnosticModel>
    decreases n,
{
    if n <= 0 {
        Seq::empty()
    } else {
        claim_expiries(path, claims, as_of, n - 1) + registry::expired(
            path,
            claims[n - 1]@,
            as_of,
        )
    }
}

/// The notices about the claims of the first `n` files that are read.
pub open spec fn file_expiries(
    files: Seq<(String, EngineRegistryFile)>,
    as_of: DateModel,
    n: int,
) -> Seq<DiagnosticModel>
    decreases n,
{
    if n <= 0 {
        Seq::empty()
    } else {
        let (path, file) = files[n - 1];
        let before = file_expiries(files, as_of, n - 1);
        if file.schema_version != registry::REGISTRY_SCHEMA_VERSION {
            before
        } else {
            before + claim_expiries(path@, file.claims@, as_of, file.claims@.len() as int)
        }
    }
}

proof fn lemma_expiry_code()
    ensures
        "registry.claim-id-format"@ != "registry.evidence-stale"@,
        "registry.missing-field"@ != "registry.evidence-stale"@,
        "registry.duplicate-claim"@ != "registry.evidence-stale"@,
        "registry.duplicate-metric"@ != "registry.evidence-stale"@,
        "registry.unmapped-metric"@ != "registry.evidence-stale"@,
        "registry.unused-claim"@ != "registry.evidence-stale"@,
        "registry.claim-budget"@ != "registry.evidence-stale"@,
        "registry.schema-version"@ != "registry.evidence-stale"@,
        "registry.expiry-stagger"@ != "registry.evidence-stale"@,
{
    reveal_strlit("registry.evidence-stale");
    reveal_strlit("registry.claim-id-format");
    reveal_strlit("registry.missing-field");
    reveal_strlit("registry.duplicate-claim");
    reveal_strlit("registry.duplicate-metric");
    reveal_strlit("registry.unmapped-metric");
    reveal_strlit("registry.unused-claim");
    reveal_strlit("registry.claim-budget");
    reveal_strlit("registry.schema-version");
    reveal_strlit("registry.expiry-stagger");
    assert("registry.evidence-stale"@.len() == 23);
    assert("registry.evidence-stale"@[10] == 'v');
    assert("registry.schema-version"@[10] == 'c');
    assert("registry.expiry-stagger"@[10] == 'x');
}

proof fn lemma_expiries_concat(a: Seq<DiagnosticModel>, b: Seq<DiagnosticModel>)
    ensures
        expiries_among(a + b) == expiries_among(a) + expiries_among(b),
{
    Seq::filter_distributes_over_add(
        a,
        b,
        |d: DiagnosticModel| d.code == "registry.evidence-stale"@,
    );
}

proof fn lemma_other_findings(s: Seq<DiagnosticModel>)
    requires
        forall|i: int|
            0 <= i < s.len() ==> (#[trigger] s[i]).code != "registry.evidence-stale"@,
    ensures
        expiries_among(s) == Seq::<DiagnosticModel>::empty(),
    decreases s.len(),
{
    reveal(Seq::filter);
    if s.len() > 0 {
        lemma_other_findings(s.drop_last());
    }
}

proof fn lemma_no_expiries(a: Seq<DiagnosticModel>, b: Seq<DiagnosticModel>)
    requires
        expiries_among(a) == Seq::<DiagnosticModel>::empty(),
        forall|i: int|
            0 <= i < b.len() ==> (#[trigger] b[i]).code != "registry.evidence-stale"@,
    ensures
        expiries_among(a + b) == Seq::<DiagnosticModel>::empty(),
{
    lemma_other_findings(b);
    lemma_expiries_concat(a, b);
    assert(Seq::<DiagnosticModel>::empty() + Seq::<DiagnosticModel>::empty()
        =~= Seq::<DiagnosticModel>::empty());
}

proof fn lemma_expiry_notice(path: Seq<char>, claim: ClaimModel, as_of: DateModel)
    ensures
        expiries_among(registry::expired(path, claim, as_of)) == registry::expired(
            path,
            claim,
            as_of,
        ),
{
    let notice = registry::expired(path, claim, as_of);
    reveal(Seq::filter);
    if notice.len() > 0 {
        assert(notice.drop_last() =~= Seq::empty());
        lemma_other_findings(notice.drop_last());
        assert(expiries_among(notice) =~= notice);
    } else {
        lemma_other_findings(notice);
        assert(notice =~= Seq::empty());
    }
}

/// What is found about a claim before its expiry is looked at says nothing of it.
proof fn lemma_form_findings(path: Seq<char>, claim: ClaimModel)
    ensures
        expiries_among(
            registry::misnamed(path, claim) + registry::overclaiming(path, claim)
                + registry::blank_field(path, claim, "citation"@, claim.citation)
                + registry::blank_field(path, claim, "population"@, claim.population)
                + registry::blank_field(path, claim, "effect"@, claim.effect)
                + registry::blank_field(path, claim, "owner"@, claim.owner),
        ) == Seq::<DiagnosticModel>::empty(),
{
    lemma_expiry_code();
    let a = registry::misnamed(path, claim);
    let b = registry::overclaiming(path, claim);
    let c = registry::blank_field(path, claim, "citation"@, claim.citation);
    let d = registry::blank_field(path, claim, "population"@, claim.population);
    let e = registry::blank_field(path, claim, "effect"@, claim.effect);
    let f = registry::blank_field(path, claim, "owner"@, claim.owner);
    lemma_other_findings(a);
    lemma_no_expiries(a, b);
    lemma_no_expiries(a + b, c);
    lemma_no_expiries(a + b + c, d);
    lemma_no_expiries(a + b + c + d, e);
    lemma_no_expiries(a + b + c + d + e, f);
}

/// A claim past its expiry gives exactly one notice, and any other claim none,
/// whatever else is found about it.
pub proof fn lemma_an_expired_claim_gives_one_notice(
    path: Seq<char>,
    claim: ClaimModel,
    as_of: DateModel,
    known: bool,
)
    ensures
        expiries_among(registry::claim_findings(path, claim, as_of, known)) == registry::expired(
            path,
            claim,
            as_of,
        ),
        registry::expired(path, claim, as_of).len() == (if as_of.after(claim.expiry) {
            1nat
        } else {
            0nat
        }),
        forall|i: int|
            0 <= i < registry::expired(path, claim, as_of).len() ==> (#[trigger] registry::expired(
                path,
                claim,
                as_of,
            )[i]).severity == DiagnosticSeverity::Notice,
{
    lemma_expiry_code();
    let before = registry::misnamed(path, claim) + registry::overclaiming(path, claim)
        + registry::blank_field(path, claim, "citation"@, claim.citation)
        + registry::blank_field(path, claim, "population"@, claim.population)
        + registry::blank_field(path, claim, "effect"@, claim.effect)
        + registry::blank_field(path, claim, "owner"@, claim.owner);
    let notice = registry::expired(path, claim, as_of);
    let after = registry::repeated(path, claim, known);
    lemma_form_findings(path, claim);
    lemma_expiry_notice(path, claim, as_of);
    lemma_other_findings(after);
    lemma_expiries_concat(before, notice);
    lemma_expiries_concat(before + notice, after);
    let none = Seq::<DiagnosticModel>::empty();
    assert(none + notice + none =~= notice);
}

proof fn lemma_claims_expire(
    m: LintModel,
    path: Seq<char>,
    claims: Seq<Claim>,
    as_of: DateModel,
    n: int,
)
    requires
        0 <= n <= claims.len(),
    ensures
        expiries_among(registry::after_claims(m, path, claims, as_of, n).diagnostics)
            == expiries_among(m.diagnostics) + claim_expiries(path, claims, as_of, n),
    decreases n,
{
    let start = expiries_among(m.diagnostics);
    if n > 0 {
        lemma_claims_expire(m, path, claims, as_of, n - 1);
        let before = registry::after_claims(m, path, claims, as_of, n - 1);
        let claim = claims[n - 1]@;
        let known = strmap::has_key(before.claims, claim.claim_id);
        lemma_an_expired_claim_gives_one_notice(path, claim, as_of, known);
        lemma_expiries_concat(
            before.diagnostics,
            registry::claim_findings(path, claim, as_of, known),
        );
        let so_far = claim_expiries(path, claims, as_of, n - 1);
        let here = registry::expired(path, claim, as_of);
        assert(start + so_far + here =~= start + (so_far + here));
    } else {
        assert(start + Seq::<DiagnosticModel>::empty() =~= start);
    }
}

proof fn lemma_metrics_do_not_expire(
    m: LintModel,
    path: Seq<char>,
    metrics: Seq<MetricDecl>,
    n: int,
)
    requires
        0 <= n <= metrics.len(),
    ensures
        expiries_among(registry::after_metrics(m, path, metrics, n).diagnostics)
            == expiries_among(m.diagnostics),
    decreases n,
{
    if n > 0 {
        lemma_metrics_do_not_expire(m, path, metrics, n - 1);
        lemma_expiry_code();
        let before = registry::after_metrics(m, path, metrics, n - 1);
        let after = registry::after_metrics(m, path, metrics, n);
        let found = after.diagnostics.skip(before.diagnostics.len() as int);
        assert(after.diagnostics =~= before.diagnostics + found);
        lemma_expiries_concat(before.diagnostics, found);
        lemma_other_findings(found);
        assert(expiries_among(before.diagnostics) + Seq::<DiagnosticModel>::empty()
            =~= expiries_among(before.diagnostics));
    }
}

proof fn lemma_files_expire(files: Seq<(String, EngineRegistryFile)>, as_of: DateModel, n: int)
    requires
        0 <= n <= files.len(),
    ensures
        expiries_among(registry::after_files(files, as_of, n).diagnostics) == file_expiries(
            files,
            as_of,
            n,
        ),
    decreases n,
{
    if n > 0 {
        lemma_files_expire(files, as_of, n - 1);
        lemma_expiry_code();
        let m = registry::after_files(files, as_of, n - 1);
        let path = files[n - 1].0@;
        let file = files[n - 1].1;
        if file.schema_version != registry::REGISTRY_SCHEMA_VERSION {
            let after = registry::after_files(files, as_of, n);
            let found = after.diagnostics.skip(m.diagnostics.len() as int);
            assert(after.diagnostics =~= m.diagnostics + found);
            lemma_expiries_concat(m.diagnostics, found);
            lemma_other_findings(found);
            assert(expiries_among(m.diagnostics) + Seq::<DiagnosticModel>::empty()
                =~= expiries_among(m.diagnostics));
        } else {
            let k = file.claims@.len() as int;
            lemma_claims_expire(m, path, file.claims@, as_of, k);
            lemma_metrics_do_not_expire(
                registry::after_claims(m, path, file.claims@, as_of, k),
                path,
                file.metrics@,
                file.metrics@.len() as int,
            );
        }
    } else {
        lemma_other_findings(Seq::empty());
    }
}

proof fn lemma_unmapped_codes(m: LintModel, n: int)
    ensures
        forall|i: int|
            0 <= i < registry::unmapped_metrics(m, n).len() ==> (
            #[trigger] registry::unmapped_metrics(m, n)[i]).code == "registry.unmapped-metric"@,
    decreases n,
{
    if n > 0 {
        lemma_unmapped_codes(m, n - 1);
    }
}

proof fn lemma_unused_codes(m: LintModel, n: int)
    ensures
        forall|i: int|
            0 <= i < registry::unused_claims(m, n).len() ==> (
            #[trigger] registry::unused_claims(m, n)[i]).code == "registry.unused-claim"@,
    decreases n,
{
    if n > 0 {
        lemma_unused_codes(m, n - 1);
    }
}

proof fn lemma_crowded_codes(
    claims: Seq<(Seq<char>, ResolvedModel)>,
    months: Seq<(Seq<char>, ())>,
    limit: int,
    n: int,
)
    ensures
        forall|i: int|
            0 <= i < registry::crowded_months(claims, months, limit, n).len() ==> (
            #[trigger] registry::crowded_months(claims, months, limit, n)[i]).code
                == "registry.expiry-stagger"@,
    decreases n,
{
    if n > 0 {
        lemma_crowded_codes(claims, months, limit, n - 1);
    }
}

/// Each claim past its expiry gives exactly one notice, in the order the claims
/// are read, and nothing else gives one, whether or not the registry is refused.
pub proof fn lemma_each_expiry_is_noticed_once(
    files: Seq<(String, EngineRegistryFile)>,
    policy: RegistryPolicy,
    as_of: DateModel,
)
    ensures
        expiries_among(registry_load::findings(files, policy, as_of)) == file_expiries(
            files,
            as_of,
            files.len() as int,
        ),
{
    let m = registry::after_files(files, as_of, files.len() as int);
    let a = m.diagnostics;
    let b = registry::unmapped_metrics(m, m.metrics.len() as int);
    let c = registry::unused_claims(m, m.claims.len() as int);
    let d = registry::over_budget(m, policy.claim_budget as int);
    let months = registry::months_due(m.claims, m.claims.len() as int);
    let limit = policy.max_claims_expiring_per_month as int;
    let e = registry::crowded_months(m.claims, months, limit, months.len() as int);
    let none = Seq::<DiagnosticModel>::empty();
    lemma_files_expire(files, as_of, files.len() as int);
    lemma_expiry_code();
    lemma_unmapped_codes(m, m.metrics.len() as int);
    lemma_unused_codes(m, m.claims.len() as int);
    lemma_crowded_codes(m.claims, months, limit, months.len() as int);
    lemma_other_findings(b);
    lemma_other_findings(c);
    lemma_other_findings(d);
    lemma_other_findings(e);
    lemma_expiries_concat(a, b);
    lemma_expiries_concat(a + b, c);
    lemma_expiries_concat(a + b + c, d);
    lemma_expiries_concat(a + b + c + d, e);
    assert(expiries_among(a) + none + none + none + none =~= expiries_among(a));
}

// --- a file of another version --------------------------------------------

/// What a file of another schema version is told.
pub open spec fn version_error(path: Seq<char>, version: u32) -> DiagnosticModel {
    registry::error_of(
        "registry.schema-version"@,
        path,
        "unsupported registry schema_version "@ + text::decimal(version as nat)
            + " (expected 1)"@,
    )
}

/// Whether one state of the lint is another with one finding more, at a place.
spec fn one_more_finding(x: LintModel, y: LintModel, at: int, d: DiagnosticModel) -> bool {
    &&& x.claims == y.claims
    &&& x.metrics == y.metrics
    &&& x.sources == y.sources
    &&& 0 <= at <= y.diagnostics.len()
    &&& x.diagnostics == y.diagnostics.insert(at, d)
}

proof fn lemma_found_after(s: Seq<DiagnosticModel>, at: int, d: DiagnosticModel, t: Seq<
    DiagnosticModel,
>)
    requires
        0 <= at <= s.len(),
    ensures
        s.insert(at, d) + t == (s + t).insert(at, d),
{
    assert(s.insert(at, d) + t =~= (s + t).insert(at, d));
}

proof fn lemma_claims_keep_finding(
    x: LintModel,
    y: LintModel,
    at: int,
    d: DiagnosticModel,
    path: Seq<char>,
    claims: Seq<Claim>,
    as_of: DateModel,
    n: int,
)
    requires
        one_more_finding(x, y, at, d),
        0 <= n <= claims.len(),
    ensures
        one_more_finding(
            registry::after_claims(x, path, claims, as_of, n),
            registry::after_claims(y, path, claims, as_of, n),
            at,
            d,
        ),
    decreases n,
{
    if n > 0 {
        lemma_claims_keep_finding(x, y, at, d, path, claims, as_of, n - 1);
        let q = registry::after_claims(y, path, claims, as_of, n - 1);
        let claim = claims[n - 1]@;
        let known = strmap::has_key(q.claims, claim.claim_id);
        lemma_found_after(
            q.diagnostics,
            at,
            d,
            registry::claim_findings(path, claim, as_of, known),
        );
    }
}

proof fn lemma_metrics_keep_finding(
    x: LintModel,
    y: LintModel,
    at: int,
    d: DiagnosticModel,
    path: Seq<char>,
    metrics: Seq<MetricDecl>,
    n: int,
)
    requires
        one_more_finding(x, y, at, d),
        0 <= n <= metrics.len(),
    ensures
        one_more_finding(
            registry::after_metrics(x, path, metrics, n),
            registry::after_metrics(y, path, metrics, n),
            at,
            d,
        ),
    decreases n,
{
    if n > 0 {
        lemma_metrics_keep_finding(x, y, at, d, path, metrics, n - 1);
        let q = registry::after_metrics(y, path, metrics, n - 1);
        let after = registry::after_metrics(y, path, metrics, n);
        let found = after.diagnostics.skip(q.diagnostics.len() as int);
        assert(after.diagnostics =~= q.diagnostics + found);
        lemma_found_after(q.diagnostics, at, d, found);
        assert(registry::after_metrics(x, path, metrics, n).diagnostics
            =~= registry::after_metrics(x, path, metrics, n - 1).diagnostics + found);
    }
}

proof fn lemma_same_files(
    files: Seq<(String, EngineRegistryFile)>,
    others: Seq<(String, EngineRegistryFile)>,
    as_of: DateModel,
    n: int,
)
    requires
        0 <= n <= files.len(),
        n <= others.len(),
        forall|k: int| 0 <= k < n ==> files[k] == others[k],
    ensures
        registry::after_files(files, as_of, n) == registry::after_files(others, as_of, n),
    decreases n,
{
    if n > 0 {
        lemma_same_files(files, others, as_of, n - 1);
    }
}

proof fn lemma_files_keep_finding(
    files: Seq<(String, EngineRegistryFile)>,
    i: int,
    as_of: DateModel,
    n: int,
)
    requires
        0 <= i < n <= files.len(),
        files[i].1.schema_version != registry::REGISTRY_SCHEMA_VERSION,
    ensures
        one_more_finding(
            registry::after_files(files, as_of, n),
            registry::after_files(files.remove(i), as_of, n - 1),
            registry::after_files(files, as_of, i).diagnostics.len() as int,
            version_error(files[i].0@, files[i].1.schema_version),
        ),
    decreases n,
{
    let rest = files.remove(i);
    let at = registry::after_files(files, as_of, i).diagnostics.len() as int;
    let d = version_error(files[i].0@, files[i].1.schema_version);
    if n == i + 1 {
        lemma_same_files(files, rest, as_of, i);
        let y = registry::after_files(rest, as_of, i);
        assert(registry::after_files(files, as_of, n).diagnostics =~= y.diagnostics.insert(at, d));
    } else {
        lemma_files_keep_finding(files, i, as_of, n - 1);
        let x = registry::after_files(files, as_of, n - 1);
        let y = registry::after_files(rest, as_of, n - 2);
        assert(rest[n - 2] == files[n - 1]);
        let path = files[n - 1].0@;
        let file = files[n - 1].1;
        if file.schema_version != registry::REGISTRY_SCHEMA_VERSION {
            let other = version_error(path, file.schema_version);
            lemma_found_after(y.diagnostics, at, d, seq![other]);
        } else {
            let k = file.claims@.len() as int;
            lemma_claims_keep_finding(x, y, at, d, path, file.claims@, as_of, k);
            lemma_metrics_keep_finding(
                registry::after_claims(x, path, file.claims@, as_of, k),
                registry::after_claims(y, path, file.claims@, as_of, k),
                at,
                d,
                path,
                file.metrics@,
                file.metrics@.len() as int,
            );
        }
    }
}

proof fn lemma_mapping_alike(x: LintModel, y: LintModel, n: int)
    requires
        x.claims == y.claims,
        x.metrics == y.metrics,
        x.sources == y.sources,
    ensures
        registry::unmapped_metrics(x, n) == registry::unmapped_metrics(y, n),
        registry::unused_claims(x, n) == registry::unused_claims(y, n),
    decreases n,
{
    if n > 0 {
        lemma_mapping_alike(x, y, n - 1);
    }
}

/// A file of another schema version adds exactly one error and nothing else: the
/// claims, the metrics, where they come from and every other finding are those
/// of the registry without the file.
pub proof fn lemma_another_version_adds_one_error(
    files: Seq<(String, EngineRegistryFile)>,
    i: int,
    policy: RegistryPolicy,
    as_of: DateModel,
)
    requires
        0 <= i < files.len(),
        files[i].1.schema_version != registry::REGISTRY_SCHEMA_VERSION,
    ensures
        ({
            let rest = files.remove(i);
            let x = registry::after_files(files, as_of, files.len() as int);
            let y = registry::after_files(rest, as_of, rest.len() as int);
            let at = registry::after_files(files, as_of, i).diagnostics.len() as int;
            let others = registry_load::findings(rest, policy, as_of);
            &&& x.claims == y.claims
            &&& x.metrics == y.metrics
            &&& x.sources == y.sources
            &&& 0 <= at <= others.len()
            &&& registry_load::findings(files, policy, as_of) == others.insert(
                at,
                version_error(files[i].0@, files[i].1.schema_version),
            )
        }),
{
    let rest = files.remove(i);
    let x = registry::after_files(files, as_of, files.len() as int);
    let y = registry::after_files(rest, as_of, rest.len() as int);
    let at = registry::after_files(files, as_of, i).diagnostics.len() as int;
    let d = version_error(files[i].0@, files[i].1.schema_version);
    lemma_files_keep_finding(files, i, as_of, files.len() as int);
    lemma_mapping_alike(x, y, x.metrics.len() as int);
    lemma_mapping_alike(x, y, x.claims.len() as int);
    let b = registry::unmapped_metrics(y, y.metrics.len() as int);
    let c = registry::unused_claims(y, y.claims.len() as int);
    let e = registry::over_budget(y, policy.claim_budget as int);
    let months = registry::months_due(y.claims, y.claims.len() as int);
    let f = registry::crowded_months(
        y.claims,
        months,
        policy.max_claims_expiring_per_month as int,
        months.len() as int,
    );
    lemma_found_after(y.diagnostics, at, d, b);
    lemma_found_after(y.diagnostics + b, at, d, c);
    lemma_found_after(y.diagnostics + b + c, at, d, e);
    lemma_found_after(y.diagnostics + b + c + e, at, d, f);
}

// --- what the lint finds fault with ---------------------------------------

/// Whether some finding fails the build, or, where the schedule does not matter,
/// some finding that is about something else does.
pub open spec fn faulted(s: Seq<DiagnosticModel>, schedule_matters: bool) -> bool {
    exists|i: int|
        0 <= i < s.len() && (#[trigger] s[i]).severity == DiagnosticSeverity::Error && (
        schedule_matters || s[i].code != "registry.expiry-stagger"@)
}

proof fn lemma_faulted_concat(a: Seq<DiagnosticModel>, b: Seq<DiagnosticModel>, sm: bool)
    ensures
        faulted(a + b, sm) <==> faulted(a, sm) || faulted(b, sm),
{
    let bad = |d: DiagnosticModel|
        d.severity == DiagnosticSeverity::Error && (sm || d.code != "registry.expiry-stagger"@);
    if faulted(a, sm) {
        let i = choose|i: int| 0 <= i < a.len() && bad(#[trigger] a[i]);
        assert((a + b)[i] == a[i]);
    }
    if faulted(b, sm) {
        let i = choose|i: int| 0 <= i < b.len() && bad(#[trigger] b[i]);
        assert((a + b)[a.len() + i] == b[i]);
    }
    if faulted(a + b, sm) {
        let i = choose|i: int| 0 <= i < (a + b).len() && bad(#[trigger] (a + b)[i]);
        if i < a.len() {
            assert(bad(a[i]));
        } else {
            assert(bad(b[i - a.len()]));
        }
    }
}

proof fn lemma_codes_apart()
    ensures
        "registry.claim-id-format"@ != "registry.expiry-stagger"@,
        "registry.missing-field"@ != "registry.expiry-stagger"@,
        "registry.duplicate-claim"@ != "registry.expiry-stagger"@,
        "registry.duplicate-metric"@ != "registry.expiry-stagger"@,
        "registry.unmapped-metric"@ != "registry.expiry-stagger"@,
        "registry.claim-budget"@ != "registry.expiry-stagger"@,
        "registry.schema-version"@ != "registry.expiry-stagger"@,
{
    reveal_strlit("registry.expiry-stagger");
    reveal_strlit("registry.claim-id-format");
    reveal_strlit("registry.missing-field");
    reveal_strlit("registry.duplicate-claim");
    reveal_strlit("registry.duplicate-metric");
    reveal_strlit("registry.unmapped-metric");
    reveal_strlit("registry.claim-budget");
    reveal_strlit("registry.schema-version");
    assert("registry.expiry-stagger"@.len() == 23);
    assert("registry.claim-id-format"@.len() == 24);
    assert("registry.missing-field"@.len() == 22);
    assert("registry.duplicate-claim"@.len() == 24);
    assert("registry.duplicate-metric"@.len() == 25);
    assert("registry.unmapped-metric"@.len() == 24);
    assert("registry.claim-budget"@.len() == 21);
    assert("registry.schema-version"@[9] != "registry.expiry-stagger"@[9]);
}

/// The claims of the files of the version in use, in the order they are read.
pub open spec fn claims_of(files: Seq<(String, EngineRegistryFile)>, n: int) -> Seq<ClaimModel>
    decreases n,
{
    if n <= 0 {
        Seq::empty()
    } else if files[n - 1].1.schema_version == 1 {
        claims_of(files, n - 1) + files[n - 1].1.claims@.map_values(|c: Claim| c@)
    } else {
        claims_of(files, n - 1)
    }
}

/// The metrics of the files of the version in use, in the order they are read.
pub open spec fn metrics_of(files: Seq<(String, EngineRegistryFile)>, n: int) -> Seq<MetricDecl>
    decreases n,
{
    if n <= 0 {
        Seq::empty()
    } else if files[n - 1].1.schema_version == 1 {
        metrics_of(files, n - 1) + files[n - 1].1.metrics@
    } else {
        metrics_of(files, n - 1)
    }
}

/// Whether a claim has every part that it has to have, and is named by them.
pub open spec fn fully_stated(c: ClaimModel) -> bool {
    &&& c.claim_id == c.implementation + "@"@ + c.implementation_version + "|"@ + c.language + "|"@
        + c.outcome
    &&& c.does_not_predict.len() > 0
    &&& !text::is_blank(c.citation)
    &&& !text::is_blank(c.population)
    &&& !text::is_blank(c.effect)
    &&& !text::is_blank(c.owner)
}

/// Whether some claim has this id.
pub open spec fn claim_named(s: Seq<ClaimModel>, id: Seq<char>) -> bool {
    exists|i: int| 0 <= i < s.len() && (#[trigger] s[i]).claim_id == id
}

/// Whether some metric has this id.
pub open spec fn metric_named(s: Seq<MetricDecl>, id: Seq<char>) -> bool {
    exists|i: int| 0 <= i < s.len() && (#[trigger] s[i]).metric_id@ == id
}

/// Whether some claim is not fully stated, or two have one id.
pub open spec fn claims_at_fault(s: Seq<ClaimModel>) -> bool {
    ||| exists|i: int| 0 <= i < s.len() && !fully_stated(#[trigger] s[i])
    ||| exists|i: int, j: int|
        0 <= i < j < s.len() && (#[trigger] s[i]).claim_id == (#[trigger] s[j]).claim_id
}

/// Whether two metrics have one id.
pub open spec fn metrics_at_fault(s: Seq<MetricDecl>) -> bool {
    exists|i: int, j: int|
        0 <= i < j < s.len() && (#[trigger] s[i]).metric_id@ == (#[trigger] s[j]).metric_id@
}

/// How many claims fall due in a month.
pub open spec fn falling_due(s: Seq<ClaimModel>, month: Seq<char>) -> nat {
    s.filter(|c: ClaimModel| c.expiry.month_text() == month).len()
}

proof fn lemma_one_claim_faulted(
    path: Seq<char>,
    c: ClaimModel,
    as_of: DateModel,
    known: bool,
    sm: bool,
)
    ensures
        faulted(registry::claim_findings(path, c, as_of, known), sm) <==> !fully_stated(c) || known,
{
    lemma_codes_apart();
    let p1 = registry::misnamed(path, c);
    let p2 = registry::overclaiming(path, c);
    let p3 = registry::blank_field(path, c, "citation"@, c.citation);
    let p4 = registry::blank_field(path, c, "population"@, c.population);
    let p5 = registry::blank_field(path, c, "effect"@, c.effect);
    let p6 = registry::blank_field(path, c, "owner"@, c.owner);
    let p7 = registry::expired(path, c, as_of);
    let p8 = registry::repeated(path, c, known);
    lemma_faulted_concat(p1, p2, sm);
    lemma_faulted_concat(p1 + p2, p3, sm);
    lemma_faulted_concat(p1 + p2 + p3, p4, sm);
    lemma_faulted_concat(p1 + p2 + p3 + p4, p5, sm);
    lemma_faulted_concat(p1 + p2 + p3 + p4 + p5, p6, sm);
    lemma_faulted_concat(p1 + p2 + p3 + p4 + p5 + p6, p7, sm);
    lemma_faulted_concat(p1 + p2 + p3 + p4 + p5 + p6 + p7, p8, sm);
    if p1.len() > 0 {
        assert(p1[0].severity == DiagnosticSeverity::Error);
    }
    if p2.len() > 0 {
        assert(p2[0].severity == DiagnosticSeverity::Error);
    }
    if p3.len() > 0 {
        assert(p3[0].severity == DiagnosticSeverity::Error);
    }
    if p4.len() > 0 {
        assert(p4[0].severity == DiagnosticSeverity::Error);
    }
    if p5.len() > 0 {
        assert(p5[0].severity == DiagnosticSeverity::Error);
    }
    if p6.len() > 0 {
        assert(p6[0].severity == DiagnosticSeverity::Error);
    }
    if p8.len() > 0 {
        assert(p8[0].severity == DiagnosticSeverity::Error);
    }
}

proof fn lemma_one_more_claim(s: Seq<ClaimModel>, c: ClaimModel)
    ensures
        claims_at_fault(s.push(c)) <==> claims_at_fault(s) || !fully_stated(c) || claim_named(
            s,
            c.claim_id,
        ),
        forall|id: Seq<char>| #[trigger]
            claim_named(s.push(c), id) <==> claim_named(s, id) || c.claim_id == id,
        forall|month: Seq<char>| #[trigger]
            falling_due(s.push(c), month) == falling_due(s, month) + if c.expiry.month_text()
                == month {
                1nat
            } else {
                0nat
            },
{
    let t = s.push(c);
    assert(t[s.len() as int] == c);
    assert forall|i: int| 0 <= i < s.len() implies #[trigger] t[i] == s[i] by {}
    if exists|i: int| 0 <= i < s.len() && !fully_stated(#[trigger] s[i]) {
        let i = choose|i: int| 0 <= i < s.len() && !fully_stated(#[trigger] s[i]);
        assert(!fully_stated(t[i]));
    }
    if exists|i: int, j: int|
        0 <= i < j < s.len() && (#[trigger] s[i]).claim_id == (#[trigger] s[j]).claim_id {
        let (i, j) = choose|i: int, j: int|
            0 <= i < j < s.len() && (#[trigger] s[i]).claim_id == (#[trigger] s[j]).claim_id;
        assert(t[i].claim_id == t[j].claim_id);
    }
    if claim_named(s, c.claim_id) {
        let i = choose|i: int| 0 <= i < s.len() && (#[trigger] s[i]).claim_id == c.claim_id;
        assert(t[i].claim_id == t[s.len() as int].claim_id);
    }
    assert forall|id: Seq<char>| #[trigger]
        claim_named(t, id) <==> claim_named(s, id) || c.claim_id == id by {
        if claim_named(s, id) {
            let i = choose|i: int| 0 <= i < s.len() && (#[trigger] s[i]).claim_id == id;
            assert(t[i].claim_id == id);
        }
        if claim_named(t, id) {
            let i = choose|i: int| 0 <= i < t.len() && (#[trigger] t[i]).claim_id == id;
            if i < s.len() {
                assert(s[i].claim_id == id);
            }
        }
    }
    if claims_at_fault(t) {
        if exists|i: int| 0 <= i < t.len() && !fully_stated(#[trigger] t[i]) {
            let i = choose|i: int| 0 <= i < t.len() && !fully_stated(#[trigger] t[i]);
            if i < s.len() {
                assert(!fully_stated(s[i]));
            }
        } else {
            let (i, j) = choose|i: int, j: int|
                0 <= i < j < t.len() && (#[trigger] t[i]).claim_id == (#[trigger] t[j]).claim_id;
            if j < s.len() {
                assert(s[i].claim_id == s[j].claim_id);
            } else {
                assert(s[i].claim_id == c.claim_id);
            }
        }
    }
    assert forall|month: Seq<char>| #[trigger]
        falling_due(t, month) == falling_due(s, month) + if c.expiry.month_text() == month {
            1nat
        } else {
            0nat
        } by {
        reveal(Seq::filter);
        assert(t.drop_last() =~= s);
        assert(t.last() == c);
    }
}

proof fn lemma_due_prefix(
    a: Seq<(Seq<char>, ResolvedModel)>,
    b: Seq<(Seq<char>, ResolvedModel)>,
    month: Seq<char>,
    n: int,
)
    requires
        0 <= n <= a.len(),
        n <= b.len(),
        forall|i: int| 0 <= i < n ==> #[trigger] a[i] == b[i],
    ensures
        registry::due_in(a, month, n) == registry::due_in(b, month, n),
    decreases n,
{
    if n > 0 {
        lemma_due_prefix(a, b, month, n - 1);
        assert(a[n - 1] == b[n - 1]);
    }
}

proof fn lemma_due_inserted(
    rows: Seq<(Seq<char>, ResolvedModel)>,
    p: int,
    row: (Seq<char>, ResolvedModel),
    month: Seq<char>,
    n: int,
)
    requires
        0 <= p <= n <= rows.len(),
    ensures
        registry::due_in(rows.insert(p, row), month, n + 1) == registry::due_in(rows, month, n)
            + if row.1.claim.expiry.month_text() == month {
            1nat
        } else {
            0nat
        },
    decreases n,
{
    let next = rows.insert(p, row);
    if n == p {
        lemma_due_prefix(rows, next, month, p);
        assert(next[p] == row);
    } else {
        lemma_due_inserted(rows, p, row, month, n - 1);
        assert(next[n] == rows[n - 1]);
    }
}

/// Whether what the lint has gathered stands for these claims.
spec fn stands_for(m: LintModel, s: Seq<ClaimModel>) -> bool {
    &&& strmap::keys_ascend(m.claims)
    &&& forall|id: Seq<char>| #[trigger] strmap::has_key(m.claims, id) <==> claim_named(s, id)
    &&& !claims_at_fault(s) ==> m.claims.len() == s.len()
    &&& !claims_at_fault(s) ==> forall|month: Seq<char>|
        registry::due_in(m.claims, month, m.claims.len() as int) == #[trigger] falling_due(s, month)
}

/// Whether what the lint has gathered stands for these metrics.
spec fn stands_for_metrics(m: LintModel, s: Seq<MetricDecl>) -> bool {
    &&& strmap::keys_ascend(m.metrics)
    &&& forall|id: Seq<char>| #[trigger] strmap::has_key(m.metrics, id) <==> metric_named(s, id)
    &&& forall|id: Seq<char>|
        #[trigger] strmap::lookup(m.metrics, id) matches Some(d) ==> s.contains(d) && d.metric_id@
            == id
}

proof fn lemma_claims_faulted(
    m: LintModel,
    path: Seq<char>,
    claims: Seq<Claim>,
    as_of: DateModel,
    n: int,
    s: Seq<ClaimModel>,
    other: bool,
    sm: bool,
)
    requires
        0 <= n <= claims.len(),
        stands_for(m, s),
        faulted(m.diagnostics, sm) <==> other || claims_at_fault(s),
    ensures
        ({
            let after = registry::after_claims(m, path, claims, as_of, n);
            let t = s + claims.take(n).map_values(|c: Claim| c@);
            &&& stands_for(after, t)
            &&& faulted(after.diagnostics, sm) <==> other || claims_at_fault(t)
            &&& after.metrics == m.metrics
            &&& after.sources == m.sources
        }),
    decreases n,
{
    let view = |c: Claim| c@;
    let t = s + claims.take(n).map_values(view);
    if n <= 0 {
        assert(t =~= s);
    } else {
        lemma_claims_faulted(m, path, claims, as_of, n - 1, s, other, sm);
        let before = registry::after_claims(m, path, claims, as_of, n - 1);
        let after = registry::after_claims(m, path, claims, as_of, n);
        let u = s + claims.take(n - 1).map_values(view);
        let c = claims[n - 1]@;
        let known = strmap::has_key(before.claims, c.claim_id);
        let value = ResolvedModel { claim: c, stale: as_of.after(c.expiry) };
        let found = registry::claim_findings(path, c, as_of, known);
        assert(t =~= u.push(c));
        lemma_one_more_claim(u, c);
        lemma_one_claim_faulted(path, c, as_of, known, sm);
        lemma_faulted_concat(before.diagnostics, found, sm);
        strmap::lemma_inserted(before.claims, c.claim_id, value);
        assert forall|id: Seq<char>| #[trigger]
            strmap::has_key(after.claims, id) <==> claim_named(t, id) by {
            if id != c.claim_id {
                assert(strmap::lookup(after.claims, id) == strmap::lookup(before.claims, id));
                assert(strmap::has_key(before.claims, id) <==> claim_named(u, id));
            }
        }
        if !claims_at_fault(t) {
            strmap::lemma_inserted_anew(before.claims, c.claim_id, value);
            let p = strmap::place(before.claims, c.claim_id, 0);
            assert forall|month: Seq<char>|
                registry::due_in(after.claims, month, after.claims.len() as int)
                    == #[trigger] falling_due(t, month) by {
                lemma_due_inserted(
                    before.claims,
                    p,
                    (c.claim_id, value),
                    month,
                    before.claims.len() as int,
                );
                assert(registry::due_in(before.claims, month, before.claims.len() as int)
                    == falling_due(u, month));
            }
        }
    }
}

proof fn lemma_one_more_metric(s: Seq<MetricDecl>, d: MetricDecl)
    ensures
        metrics_at_fault(s.push(d)) <==> metrics_at_fault(s) || metric_named(s, d.metric_id@),
        forall|id: Seq<char>| #[trigger]
            metric_named(s.push(d), id) <==> metric_named(s, id) || d.metric_id@ == id,
{
    let t = s.push(d);
    assert(t[s.len() as int] == d);
    assert forall|i: int| 0 <= i < s.len() implies #[trigger] t[i] == s[i] by {}
    if metrics_at_fault(s) {
        let (i, j) = choose|i: int, j: int|
            0 <= i < j < s.len() && (#[trigger] s[i]).metric_id@ == (#[trigger] s[j]).metric_id@;
        assert(t[i].metric_id@ == t[j].metric_id@);
    }
    if metric_named(s, d.metric_id@) {
        let i = choose|i: int| 0 <= i < s.len() && (#[trigger] s[i]).metric_id@ == d.metric_id@;
        assert(t[i].metric_id@ == t[s.len() as int].metric_id@);
    }
    if metrics_at_fault(t) {
        let (i, j) = choose|i: int, j: int|
            0 <= i < j < t.len() && (#[trigger] t[i]).metric_id@ == (#[trigger] t[j]).metric_id@;
        if j < s.len() {
            assert(s[i].metric_id@ == s[j].metric_id@);
        } else {
            assert(s[i].metric_id@ == d.metric_id@);
        }
    }
    assert forall|id: Seq<char>| #[trigger]
        metric_named(t, id) <==> metric_named(s, id) || d.metric_id@ == id by {
        if metric_named(s, id) {
            let i = choose|i: int| 0 <= i < s.len() && (#[trigger] s[i]).metric_id@ == id;
            assert(t[i].metric_id@ == id);
        }
        if metric_named(t, id) {
            let i = choose|i: int| 0 <= i < t.len() && (#[trigger] t[i]).metric_id@ == id;
            if i < s.len() {
                assert(s[i].metric_id@ == id);
            }
        }
    }
}

proof fn lemma_metrics_faulted(
    m: LintModel,
    path: Seq<char>,
    metrics: Seq<MetricDecl>,
    n: int,
    s: Seq<MetricDecl>,
    other: bool,
    sm: bool,
)
    requires
        0 <= n <= metrics.len(),
        stands_for_metrics(m, s),
        faulted(m.diagnostics, sm) <==> other || metrics_at_fault(s),
    ensures
        ({
            let after = registry::after_metrics(m, path, metrics, n);
            let t = s + metrics.take(n);
            &&& stands_for_metrics(after, t)
            &&& faulted(after.diagnostics, sm) <==> other || metrics_at_fault(t)
            &&& after.claims == m.claims
        }),
    decreases n,
{
    let t = s + metrics.take(n);
    if n <= 0 {
        assert(t =~= s);
    } else {
        lemma_codes_apart();
        lemma_metrics_faulted(m, path, metrics, n - 1, s, other, sm);
        let before = registry::after_metrics(m, path, metrics, n - 1);
        let after = registry::after_metrics(m, path, metrics, n);
        let u = s + metrics.take(n - 1);
        let d = metrics[n - 1];
        assert(t =~= u.push(d));
        assert(t[u.len() as int] == d);
        lemma_one_more_metric(u, d);
        let found = after.diagnostics.skip(before.diagnostics.len() as int);
        assert(after.diagnostics =~= before.diagnostics + found);
        lemma_faulted_concat(before.diagnostics, found, sm);
        assert(faulted(found, sm) <==> metric_named(u, d.metric_id@)) by {
            assert(strmap::has_key(before.metrics, d.metric_id@) <==> metric_named(
                u,
                d.metric_id@,
            ));
            if metric_named(u, d.metric_id@) {
                assert(found[0].severity == DiagnosticSeverity::Error);
            }
        }
        strmap::lemma_inserted(before.metrics, d.metric_id@, d);
        assert forall|id: Seq<char>| #[trigger]
            strmap::has_key(after.metrics, id) <==> metric_named(t, id) by {
            if id != d.metric_id@ {
                assert(strmap::lookup(after.metrics, id) == strmap::lookup(before.metrics, id));
                assert(strmap::has_key(before.metrics, id) <==> metric_named(u, id));
            }
        }
        assert forall|id: Seq<char>|
            #[trigger] strmap::lookup(after.metrics, id) matches Some(x) implies t.contains(
            strmap::lookup(after.metrics, id)->Some_0,
        ) && strmap::lookup(after.metrics, id)->Some_0.metric_id@ == id by {
            if id != d.metric_id@ {
                assert(strmap::lookup(after.metrics, id) == strmap::lookup(before.metrics, id));
                let x = strmap::lookup(before.metrics, id)->Some_0;
                let i = choose|i: int| 0 <= i < u.len() && u[i] == x;
                assert(t[i] == x);
            }
        }
    }
}

/// Whether some file is of another version.
pub open spec fn files_at_fault(files: Seq<(String, EngineRegistryFile)>, n: int) -> bool {
    exists|i: int| 0 <= i < n && (#[trigger] files[i]).1.schema_version != 1
}

proof fn lemma_files_faulted(
    files: Seq<(String, EngineRegistryFile)>,
    as_of: DateModel,
    n: int,
    sm: bool,
)
    requires
        0 <= n <= files.len(),
    ensures
        ({
            let m = registry::after_files(files, as_of, n);
            &&& stands_for(m, claims_of(files, n))
            &&& stands_for_metrics(m, metrics_of(files, n))
            &&& faulted(m.diagnostics, sm) <==> files_at_fault(files, n) || claims_at_fault(
                claims_of(files, n),
            ) || metrics_at_fault(metrics_of(files, n))
        }),
    decreases n,
{
    let m = registry::after_files(files, as_of, n);
    if n > 0 {
        lemma_codes_apart();
        lemma_files_faulted(files, as_of, n - 1, sm);
        let before = registry::after_files(files, as_of, n - 1);
        let path = files[n - 1].0@;
        let file = files[n - 1].1;
        let old_fault = files_at_fault(files, n - 1);
        if old_fault {
            let i = choose|i: int| 0 <= i < n - 1 && (#[trigger] files[i]).1.schema_version != 1;
            assert(files[i].1.schema_version != 1);
        }
        if file.schema_version != registry::REGISTRY_SCHEMA_VERSION {
            let found = m.diagnostics.skip(before.diagnostics.len() as int);
            assert(m.diagnostics =~= before.diagnostics + found);
            lemma_faulted_concat(before.diagnostics, found, sm);
            assert(found[0].severity == DiagnosticSeverity::Error);
            assert(faulted(found, sm));
            assert(files[n - 1].1.schema_version != 1);
        } else {
            let s = claims_of(files, n - 1);
            let q = metrics_of(files, n - 1);
            let claims = file.claims@;
            lemma_claims_faulted(
                before,
                path,
                claims,
                as_of,
                claims.len() as int,
                s,
                old_fault || metrics_at_fault(q),
                sm,
            );
            assert(claims.take(claims.len() as int) =~= claims);
            let mid = registry::after_claims(before, path, claims, as_of, claims.len() as int);
            lemma_metrics_faulted(
                mid,
                path,
                file.metrics@,
                file.metrics@.len() as int,
                q,
                old_fault || claims_at_fault(claims_of(files, n)),
                sm,
            );
            assert(file.metrics@.take(file.metrics@.len() as int) =~= file.metrics@);
        }
    } else {
        assert forall|id: Seq<char>| #[trigger]
            strmap::has_key(m.claims, id) <==> claim_named(claims_of(files, n), id) by {
            strmap::lemma_lookup_iff(m.claims, id);
        }
        assert forall|id: Seq<char>| #[trigger]
            strmap::has_key(m.metrics, id) <==> metric_named(metrics_of(files, n), id) by {
            strmap::lemma_lookup_iff(m.metrics, id);
        }
        assert forall|id: Seq<char>| (#[trigger] strmap::lookup(m.metrics, id)) is None by {
            strmap::lemma_lookup_iff(m.metrics, id);
        }
        assert forall|month: Seq<char>|
            registry::due_in(m.claims, month, m.claims.len() as int) == #[trigger] falling_due(
                claims_of(files, n),
                month,
            ) by {
            reveal(Seq::filter);
        }
    }
}

proof fn lemma_unmapped_faulted(m: LintModel, n: int, sm: bool)
    requires
        0 <= n <= m.metrics.len(),
    ensures
        faulted(registry::unmapped_metrics(m, n), sm) <==> exists|i: int|
            0 <= i < n && !strmap::has_key(m.claims, (#[trigger] m.metrics[i]).1.claim_id@),
    decreases n,
{
    lemma_codes_apart();
    if n > 0 {
        lemma_unmapped_faulted(m, n - 1, sm);
        let before = registry::unmapped_metrics(m, n - 1);
        let all = registry::unmapped_metrics(m, n);
        let found = all.skip(before.len() as int);
        assert(all =~= before + found);
        lemma_faulted_concat(before, found, sm);
        if !strmap::has_key(m.claims, m.metrics[n - 1].1.claim_id@) {
            assert(found[0].severity == DiagnosticSeverity::Error);
            assert(faulted(found, sm));
        }
        if faulted(before, sm) {
            let i = choose|i: int|
                0 <= i < n - 1 && !strmap::has_key(m.claims, (#[trigger] m.metrics[i]).1.claim_id@);
            assert(!strmap::has_key(m.claims, m.metrics[i].1.claim_id@));
        }
    }
}

proof fn lemma_unused_not_faulted(m: LintModel, n: int, sm: bool)
    requires
        0 <= n <= m.claims.len(),
    ensures
        !faulted(registry::unused_claims(m, n), sm),
    decreases n,
{
    if n > 0 {
        lemma_unused_not_faulted(m, n - 1, sm);
        let before = registry::unused_claims(m, n - 1);
        let all = registry::unused_claims(m, n);
        let found = all.skip(before.len() as int);
        assert(all =~= before + found);
        lemma_faulted_concat(before, found, sm);
    }
}

proof fn lemma_crowded_faulted(
    claims: Seq<(Seq<char>, ResolvedModel)>,
    months: Seq<(Seq<char>, ())>,
    limit: int,
    n: int,
    sm: bool,
)
    requires
        0 <= n <= months.len(),
    ensures
        faulted(registry::crowded_months(claims, months, limit, n), sm) <==> sm && exists|i: int|
            0 <= i < n && registry::due_in(
                claims,
                (#[trigger] months[i]).0,
                claims.len() as int,
            ) > limit,
    decreases n,
{
    if n > 0 {
        lemma_crowded_faulted(claims, months, limit, n - 1, sm);
        let before = registry::crowded_months(claims, months, limit, n - 1);
        let all = registry::crowded_months(claims, months, limit, n);
        let found = all.skip(before.len() as int);
        assert(all =~= before + found);
        lemma_faulted_concat(before, found, sm);
        if registry::due_in(claims, months[n - 1].0, claims.len() as int) > limit {
            assert(found[0].severity == DiagnosticSeverity::Error);
            assert(found.len() == 1);
        }
        if faulted(before, sm) {
            let i = choose|i: int|
                0 <= i < n - 1 && registry::due_in(
                    claims,
                    (#[trigger] months[i]).0,
                    claims.len() as int,
                ) > limit;
            assert(registry::due_in(claims, months[i].0, claims.len() as int) > limit);
        }
    }
}

/// Whether files are at fault for something other than their schedule.
pub open spec fn evidence_at_fault(
    files: Seq<(String, EngineRegistryFile)>,
    policy: RegistryPolicy,
) -> bool {
    let n = files.len() as int;
    let claims = claims_of(files, n);
    let metrics = metrics_of(files, n);
    ||| files_at_fault(files, n)
    ||| claims_at_fault(claims)
    ||| metrics_at_fault(metrics)
    ||| exists|i: int|
        0 <= i < metrics.len() && !claim_named(claims, (#[trigger] metrics[i]).claim_id@)
    ||| claims.len() > policy.claim_budget
}

/// Whether too many claims fall due in some month.
pub open spec fn schedule_at_fault(
    files: Seq<(String, EngineRegistryFile)>,
    policy: RegistryPolicy,
) -> bool {
    exists|month: Seq<char>| #[trigger]
        falling_due(claims_of(files, files.len() as int), month)
            > policy.max_claims_expiring_per_month
}

proof fn lemma_what_is_at_fault(
    files: Seq<(String, EngineRegistryFile)>,
    policy: RegistryPolicy,
    as_of: DateModel,
    sm: bool,
)
    ensures
        faulted(registry_load::findings(files, policy, as_of), sm) <==> evidence_at_fault(
            files,
            policy,
        ) || (sm && schedule_at_fault(files, policy)),
{
    let n = files.len() as int;
    let claims = claims_of(files, n);
    let metrics = metrics_of(files, n);
    let m = registry::after_files(files, as_of, n);
    lemma_files_faulted(files, as_of, n, sm);
    lemma_codes_apart();
    let a = m.diagnostics;
    let b = registry::unmapped_metrics(m, m.metrics.len() as int);
    let c = registry::unused_claims(m, m.claims.len() as int);
    let d = registry::over_budget(m, policy.claim_budget as int);
    let months = registry::months_due(m.claims, m.claims.len() as int);
    let limit = policy.max_claims_expiring_per_month as int;
    let e = registry::crowded_months(m.claims, months, limit, months.len() as int);
    lemma_faulted_concat(a, b, sm);
    lemma_faulted_concat(a + b, c, sm);
    lemma_faulted_concat(a + b + c, d, sm);
    lemma_faulted_concat(a + b + c + d, e, sm);
    lemma_unmapped_faulted(m, m.metrics.len() as int, sm);
    lemma_unused_not_faulted(m, m.claims.len() as int, sm);
    lemma_crowded_faulted(m.claims, months, limit, months.len() as int, sm);
    if d.len() > 0 {
        assert(d[0].severity == DiagnosticSeverity::Error);
        assert(faulted(d, sm));
    }
    if !faulted(a, sm) {
        lemma_mapping_stands(m, claims, metrics);
        assert(m.claims.len() == claims.len());
        if exists|i: int|
            0 <= i < months.len() && registry::due_in(
                m.claims,
                (#[trigger] months[i]).0,
                m.claims.len() as int,
            ) > limit {
            let i = choose|i: int|
                0 <= i < months.len() && registry::due_in(
                    m.claims,
                    (#[trigger] months[i]).0,
                    m.claims.len() as int,
                ) > limit;
            assert(falling_due(claims, months[i].0) > limit);
        }
        if schedule_at_fault(files, policy) {
            let month = choose|month: Seq<char>| #[trigger] falling_due(claims, month) > limit;
            lemma_due_months(m.claims, month, m.claims.len() as int);
            strmap::lemma_lookup_iff(months, month);
            let i = choose|i: int| 0 <= i < months.len() && (#[trigger] months[i]).0 == month;
            assert(registry::due_in(m.claims, months[i].0, m.claims.len() as int) > limit);
        }
    }
}

proof fn lemma_mapping_stands(m: LintModel, claims: Seq<ClaimModel>, metrics: Seq<MetricDecl>)
    requires
        stands_for(m, claims),
        stands_for_metrics(m, metrics),
        !metrics_at_fault(metrics),
    ensures
        (exists|i: int|
            0 <= i < m.metrics.len() && !strmap::has_key(
                m.claims,
                (#[trigger] m.metrics[i]).1.claim_id@,
            )) <==> exists|i: int|
            0 <= i < metrics.len() && !claim_named(claims, (#[trigger] metrics[i]).claim_id@),
{
    if exists|i: int|
        0 <= i < m.metrics.len() && !strmap::has_key(
            m.claims,
            (#[trigger] m.metrics[i]).1.claim_id@,
        ) {
        let i = choose|i: int|
            0 <= i < m.metrics.len() && !strmap::has_key(
                m.claims,
                (#[trigger] m.metrics[i]).1.claim_id@,
            );
        let d = m.metrics[i].1;
        strmap::lemma_lookup_row(m.metrics, i);
        assert(strmap::lookup(m.metrics, m.metrics[i].0) == Some(d));
        let k = choose|k: int| 0 <= k < metrics.len() && metrics[k] == d;
        assert(!claim_named(claims, metrics[k].claim_id@));
    }
    if exists|i: int|
        0 <= i < metrics.len() && !claim_named(claims, (#[trigger] metrics[i]).claim_id@) {
        let i = choose|i: int|
            0 <= i < metrics.len() && !claim_named(claims, (#[trigger] metrics[i]).claim_id@);
        let id = metrics[i].metric_id@;
        assert(metric_named(metrics, id));
        assert(strmap::has_key(m.metrics, id));
        let d = strmap::lookup(m.metrics, id)->Some_0;
        let k = choose|k: int| 0 <= k < metrics.len() && metrics[k] == d;
        if k < i {
            assert(metrics[k].metric_id@ != metrics[i].metric_id@);
        } else if i < k {
            assert(metrics[i].metric_id@ != metrics[k].metric_id@);
        }
        strmap::lemma_lookup_iff(m.metrics, id);
        let p = choose|p: int| 0 <= p < m.metrics.len() && (#[trigger] m.metrics[p]).0 == id;
        strmap::lemma_lookup_row(m.metrics, p);
        assert(!strmap::has_key(m.claims, m.metrics[p].1.claim_id@));
    }
}

/// What fails a build, and that nothing else does: a file of another version; a
/// claim without all its parts, or not named by them; two claims or two metrics of
/// one id; a metric whose claim nobody declares; more claims than the budget; and
/// more claims falling due in one month than policy allows.
pub proof fn lemma_what_fails_a_build(
    files: Seq<(String, EngineRegistryFile)>,
    policy: RegistryPolicy,
    as_of: DateModel,
)
    ensures
        failed(registry_load::findings(files, policy, as_of)) <==> evidence_at_fault(files, policy)
            || schedule_at_fault(files, policy),
{
    let s = registry_load::findings(files, policy, as_of);
    lemma_what_is_at_fault(files, policy, as_of, true);
    if failed(s) {
        let i = choose|i: int|
            0 <= i < s.len() && (#[trigger] s[i]).severity == DiagnosticSeverity::Error;
        assert(s[i].severity == DiagnosticSeverity::Error);
    }
}

/// What keeps a registry from loading, and that nothing else does: all that fails a
/// build, but for a crowded schedule.
pub proof fn lemma_what_keeps_a_registry_from_loading(
    files: Seq<(String, EngineRegistryFile)>,
    policy: RegistryPolicy,
    as_of: DateModel,
)
    ensures
        refused(registry_load::findings(files, policy, as_of)) <==> evidence_at_fault(
            files,
            policy,
        ),
{
    let s = registry_load::findings(files, policy, as_of);
    lemma_what_is_at_fault(files, policy, as_of, false);
    assert forall|i: int| 0 <= i < s.len() implies registry_load::is_fatal(#[trigger] s[i]) == (
    s[i].severity == DiagnosticSeverity::Error && s[i].code != "registry.expiry-stagger"@) by {
        registry_load::lemma_what_refuses_a_registry(s[i]);
    }
    if refused(s) {
        let i = choose|i: int| 0 <= i < s.len() && registry_load::is_fatal(#[trigger] s[i]);
        assert(s[i].severity == DiagnosticSeverity::Error);
    }
    if faulted(s, false) {
        let i = choose|i: int|
            0 <= i < s.len() && (#[trigger] s[i]).severity == DiagnosticSeverity::Error && s[i].code
                != "registry.expiry-stagger"@;
        assert(registry_load::is_fatal(s[i]));
    }
}

/// What a registry holds: exactly the claims and the metrics that its files declare,
/// each under its own id.
pub proof fn lemma_what_a_registry_holds(
    files: Seq<(String, EngineRegistryFile)>,
    as_of: DateModel,
    id: Seq<char>,
)
    ensures
        ({
            let n = files.len() as int;
            let m = registry::after_files(files, as_of, n);
            &&& strmap::has_key(m.claims, id) <==> claim_named(claims_of(files, n), id)
            &&& strmap::has_key(m.metrics, id) <==> metric_named(metrics_of(files, n), id)
            &&& strmap::lookup(m.metrics, id) matches Some(d) ==> d.metric_id@ == id && metrics_of(
                files,
                n,
            ).contains(d)
            &&& strmap::lookup(m.claims, id) matches Some(r) ==> r.claim.claim_id == id && (r.stale
                <==> as_of.after(r.claim.expiry))
        }),
{
    let n = files.len() as int;
    lemma_files_faulted(files, as_of, n, true);
    lemma_files_read(files, as_of, n);
}

} // verus!
