//! The evidence registry: claim tuples, the metrics that cite them, and the
//! lint that fails the build when the two disagree.
//!
//! Each engine's registry file declares both the metrics it emits and the
//! claims they cite, so the lint can run without building an engine. The drift
//! check [`Registry::check_engine`] is what makes that declaration trustworthy.
//!
//! An expired claim does not fail the build. It demotes: the claim is marked
//! stale, every rendering shows it, and the lint emits a visible notice.
use vstd::prelude::*;

use crate::date::{Date, DateModel};
use crate::engine::{EngineDescriptor, MeasureEngine, MetricDescriptor};
use crate::policy::RegistryPolicy;
use crate::schema::enums::{EngineFamily, EvidenceTier, MetricClass};
use crate::schema::payload::EvidenceRef;
use crate::sorting;
use crate::strmap;
use crate::strmap::{StrMap, StrSet};
use crate::text;
use crate::text::same_text;

verus! {

/// The registry version this library implements.
pub const REGISTRY_SCHEMA_VERSION: u32 = 1;

/// One engine's registry file.
#[derive(Debug, Clone, PartialEq, Eq)]
pub struct EngineRegistryFile {
    /// Registry schema version. Only [`REGISTRY_SCHEMA_VERSION`] is accepted.
    pub schema_version: u32,
    /// Engine id; must match the engine's descriptor.
    pub engine: String,
    /// Family; must match the engine's descriptor.
    pub family: EngineFamily,
    /// Metrics this engine emits.
    pub metrics: Vec<MetricDecl>,
    /// Claim tuples the metrics cite.
    pub claims: Vec<Claim>,
}

/// A metric declaration, the manifest half of the drift check.
#[derive(Debug, PartialEq, Eq)]
pub struct MetricDecl {
    /// Stable metric id the engine emits.
    pub metric_id: String,
    /// The claim tuple it cites.
    pub claim_id: String,
    /// Whether the agent can act on it inside its own change.
    pub class: MetricClass,
    /// Whether it belongs in the digest compare set.
    pub deterministic: bool,
}

impl Clone for MetricDecl {
    fn clone(&self) -> (r: Self)
        ensures
            r == *self,
    {
        MetricDecl {
            metric_id: self.metric_id.clone(),
            claim_id: self.claim_id.clone(),
            class: self.class,
            deterministic: self.deterministic,
        }
    }
}

impl View for MetricDecl {
    type V = Self;

    open spec fn view(&self) -> Self {
        *self
    }
}

/// A claim tuple: this implementation, at this version, in this language,
/// predicts this outcome.
#[derive(Debug, PartialEq, Eq)]
pub struct Claim {
    /// Canonical form `implementation@version|language|outcome`.
    pub claim_id: String,
    /// The measuring implementation.
    pub implementation: String,
    /// Version of that implementation the evidence was established against.
    pub implementation_version: String,
    /// Language the claim is scoped to, or `any`.
    pub language: String,
    /// The outcome predicted.
    pub outcome: String,
    /// Evidence strength.
    pub tier: EvidenceTier,
    /// Human-readable citation.
    pub citation: String,
    /// DOI or stable URL.
    pub citation_ref: Option<String>,
    /// The studied population.
    pub population: String,
    /// The measured effect, in the source's own terms.
    pub effect: String,
    /// What this number is *not* evidence for. Required and non-empty.
    pub does_not_predict: Vec<String>,
    /// Who re-reviews this claim at expiry.
    pub owner: String,
    /// Re-review date. Past it the claim demotes to stale, visibly.
    pub expiry: Date,
}

/// What a claim says.
pub struct ClaimModel {
    pub claim_id: Seq<char>,
    pub implementation: Seq<char>,
    pub implementation_version: Seq<char>,
    pub language: Seq<char>,
    pub outcome: Seq<char>,
    pub tier: EvidenceTier,
    pub citation: Seq<char>,
    pub citation_ref: Option<Seq<char>>,
    pub population: Seq<char>,
    pub effect: Seq<char>,
    pub does_not_predict: Seq<Seq<char>>,
    pub owner: Seq<char>,
    pub expiry: DateModel,
}

impl View for Claim {
    type V = ClaimModel;

    open spec fn view(&self) -> ClaimModel {
        ClaimModel {
            claim_id: self.claim_id@,
            implementation: self.implementation@,
            implementation_version: self.implementation_version@,
            language: self.language@,
            outcome: self.outcome@,
            tier: self.tier,
            citation: self.citation@,
            citation_ref: match self.citation_ref {
                Some(s) => Some(s@),
                None => None,
            },
            population: self.population@,
            effect: self.effect@,
            does_not_predict: text::texts(self.does_not_predict@),
            owner: self.owner@,
            expiry: self.expiry@,
        }
    }
}

impl Clone for Claim {
    fn clone(&self) -> (r: Self)
        ensures
            r@ == self@,
    {
        Claim {
            claim_id: self.claim_id.clone(),
            implementation: self.implementation.clone(),
            implementation_version: self.implementation_version.clone(),
            language: self.language.clone(),
            outcome: self.outcome.clone(),
            tier: self.tier,
            citation: self.citation.clone(),
            citation_ref: self.citation_ref.clone(),
            population: self.population.clone(),
            effect: self.effect.clone(),
            does_not_predict: text::copy_texts(self.does_not_predict.as_slice()),
            owner: self.owner.clone(),
            expiry: self.expiry,
        }
    }
}

impl ClaimModel {
    /// The canonical id a claim's tuple implies.
    pub open spec fn tuple_id(self) -> Seq<char> {
        self.implementation + "@"@ + self.implementation_version + "|"@ + self.language + "|"@
            + self.outcome
    }
}

impl Claim {
    /// The canonical id this claim's tuple implies.
    pub fn canonical_id(&self) -> (r: String)
        ensures
            r@ == self@.tuple_id(),
    {
        let mut out = self.implementation.clone();
        out.append("@");
        out.append(self.implementation_version.as_str());
        out.append("|");
        out.append(self.language.as_str());
        out.append("|");
        out.append(self.outcome.as_str());
        out
    }
}

/// A claim resolved against a run date.
#[derive(Debug, Clone, PartialEq, Eq)]
pub struct ResolvedClaim {
    /// The claim as written in the registry file.
    pub claim: Claim,
    /// True once the run date is past the expiry.
    pub stale: bool,
}

/// What a resolved claim says.
pub struct ResolvedModel {
    pub claim: ClaimModel,
    pub stale: bool,
}

impl View for ResolvedClaim {
    type V = ResolvedModel;

    open spec fn view(&self) -> ResolvedModel {
        ResolvedModel { claim: self.claim@, stale: self.stale }
    }
}

impl ResolvedClaim {
    /// Project into the [`EvidenceRef`] a measurement result carries.
    ///
    /// Every path from a claim to a reported number goes through here, so an
    /// expired claim cannot reach a payload without its `stale` flag.
    pub fn to_evidence_ref(&self) -> (r: EvidenceRef)
        ensures
            r.claim_id@ == self@.claim.claim_id,
            r.tier == self@.claim.tier,
            r.citation@ == self@.claim.citation,
            text::texts(r.does_not_predict@) == self@.claim.does_not_predict,
            r.stale == self.stale,
    {
        EvidenceRef {
            claim_id: self.claim.claim_id.clone(),
            tier: self.claim.tier,
            citation: self.claim.citation.clone(),
            does_not_predict: text::copy_texts(self.claim.does_not_predict.as_slice()),
            stale: self.stale,
        }
    }
}

/// Every engine registry file, merged.
#[derive(Debug, Clone, PartialEq, Eq)]
pub struct Registry {
    /// Every claim, keyed by `claim_id`.
    pub claims: StrMap<ResolvedClaim>,
    /// Every declared metric, keyed by `metric_id`.
    pub metrics: StrMap<MetricDecl>,
    /// Which file each metric came from, for diagnostics.
    pub metric_sources: StrMap<String>,
}

impl Default for Registry {
    fn default() -> (r: Self)
        ensures
            r.claims@.len() == 0,
            r.metrics@.len() == 0,
            r.metric_sources@.len() == 0,
    {
        Registry { claims: StrMap::new(), metrics: StrMap::new(), metric_sources: StrMap::new() }
    }
}

/// How serious a lint finding is.
#[derive(Debug, Clone, Copy, PartialEq, Eq, Structural)]
pub enum DiagnosticSeverity {
    /// Fails the lint, and therefore the build.
    Error,
    /// Reported and visible; does not fail the build.
    Notice,
}

/// One lint finding.
#[derive(Debug, Clone, PartialEq, Eq)]
pub struct Diagnostic {
    /// Stable machine code.
    pub code: &'static str,
    /// Whether this fails the build or is merely reported.
    pub severity: DiagnosticSeverity,
    /// Registry file the finding is about.
    pub location: String,
    /// What is wrong, and what to do.
    pub message: String,
}

/// What a lint finding says.
pub struct DiagnosticModel {
    pub code: Seq<char>,
    pub severity: DiagnosticSeverity,
    pub location: Seq<char>,
    pub message: Seq<char>,
}

impl View for Diagnostic {
    type V = DiagnosticModel;

    open spec fn view(&self) -> DiagnosticModel {
        DiagnosticModel {
            code: self.code@,
            severity: self.severity,
            location: self.location@,
            message: self.message@,
        }
    }
}

/// What a list of findings says.
pub open spec fn diagnostics_of(s: Seq<Diagnostic>) -> Seq<DiagnosticModel> {
    s.map_values(|d: Diagnostic| d@)
}

/// A finding that fails the build.
pub open spec fn error_of(code: Seq<char>, location: Seq<char>, message: Seq<char>) -> DiagnosticModel {
    DiagnosticModel { code, severity: DiagnosticSeverity::Error, location, message }
}

/// A finding that is merely reported.
pub open spec fn notice_of(
    code: Seq<char>,
    location: Seq<char>,
    message: Seq<char>,
) -> DiagnosticModel {
    DiagnosticModel { code, severity: DiagnosticSeverity::Notice, location, message }
}

impl Diagnostic {
    fn error(code: &'static str, location: &str, message: String) -> (r: Self)
        ensures
            r@ == error_of(code@, location@, message@),
    {
        Diagnostic {
            code,
            severity: DiagnosticSeverity::Error,
            location: location.to_owned(),
            message,
        }
    }

    fn notice(code: &'static str, location: &str, message: String) -> (r: Self)
        ensures
            r@ == notice_of(code@, location@, message@),
    {
        Diagnostic {
            code,
            severity: DiagnosticSeverity::Notice,
            location: location.to_owned(),
            message,
        }
    }
}

fn report(out: &mut Vec<Diagnostic>, d: Diagnostic)
    ensures
        diagnostics_of(final(out)@) == diagnostics_of(old(out)@) + seq![d@],
{
    out.push(d);
    proof {
        assert(diagnostics_of(out@) =~= diagnostics_of(old(out)@) + seq![d@]);
    }
}

/// The outcome of a lint run.
#[derive(Debug, Clone, PartialEq, Eq)]
pub struct LintReport {
    /// Every finding, errors and notices alike.
    pub diagnostics: Vec<Diagnostic>,
    /// Claims in the merged registry.
    pub claim_count: usize,
    /// Metrics in the merged registry.
    pub metric_count: usize,
}

/// The findings among these that fail the build, in order.
pub open spec fn errors_among(s: Seq<DiagnosticModel>) -> Seq<DiagnosticModel>
    decreases s.len(),
{
    if s.len() == 0 {
        Seq::empty()
    } else if s.last().severity == DiagnosticSeverity::Error {
        errors_among(s.drop_last()).push(s.last())
    } else {
        errors_among(s.drop_last())
    }
}

impl LintReport {
    /// Whether the build should fail.
    pub fn failed(&self) -> (r: bool)
        ensures
            r == exists|i: int|
                0 <= i < self.diagnostics@.len() && (#[trigger] self.diagnostics@[i]).severity
                    == DiagnosticSeverity::Error,
    {
        let mut i: usize = 0;
        while i < self.diagnostics.len()
            invariant
                i <= self.diagnostics.len(),
                forall|k: int|
                    0 <= k < i ==> (#[trigger] self.diagnostics@[k]).severity
                        != DiagnosticSeverity::Error,
            decreases self.diagnostics.len() - i,
        {
            if self.diagnostics[i].severity == DiagnosticSeverity::Error {
                return true;
            }
            i = i + 1;
        }
        false
    }

    /// Findings that fail the build.
    pub fn errors(&self) -> (r: Vec<&Diagnostic>)
        ensures
            r@.map_values(|d: &Diagnostic| d@) == errors_among(diagnostics_of(self.diagnostics@)),
    {
        let mut out: Vec<&Diagnostic> = Vec::new();
        let ghost all = diagnostics_of(self.diagnostics@);
        let ghost f = |d: &Diagnostic| d@;
        let mut i: usize = 0;
        proof {
            assert(out@.map_values(f) =~= errors_among(all.take(0)));
        }
        while i < self.diagnostics.len()
            invariant
                i <= self.diagnostics.len(),
                all == diagnostics_of(self.diagnostics@),
                f == (|d: &Diagnostic| d@),
                out@.map_values(f) == errors_among(all.take(i as int)),
            decreases self.diagnostics.len() - i,
        {
            let d = &self.diagnostics[i];
            let ghost before = out@;
            if d.severity == DiagnosticSeverity::Error {
                out.push(d);
            }
            proof {
                assert(all.take(i + 1).drop_last() =~= all.take(i as int));
                assert(all.take(i + 1).last() == d@);
                assert(out@.map_values(f) =~= errors_among(all.take(i + 1)));
            }
            i = i + 1;
        }
        proof {
            assert(all.take(i as int) =~= all);
        }
        out
    }
}

/// A registry file that could not even be parsed.
#[derive(Debug, Clone, PartialEq, Eq)]
pub enum RegistryError {
    /// The file is not valid TOML for the registry schema.
    Toml {
        /// Registry file that failed to parse.
        path: String,
        /// What the parser said.
        reason: String,
    },
}

// --- the lint -------------------------------------------------------------

/// What the lint has gathered so far.
pub struct LintModel {
    pub claims: Seq<(Seq<char>, ResolvedModel)>,
    pub metrics: Seq<(Seq<char>, MetricDecl)>,
    pub sources: Seq<(Seq<char>, Seq<char>)>,
    pub diagnostics: Seq<DiagnosticModel>,
}

/// The finding about a required text of a claim that is blank.
pub open spec fn blank_field(
    path: Seq<char>,
    claim: ClaimModel,
    field: Seq<char>,
    value: Seq<char>,
) -> Seq<DiagnosticModel> {
    if text::is_blank(value) {
        seq![
            error_of(
                "registry.missing-field"@,
                path,
                "claim '"@ + claim.claim_id + "' has an empty "@ + field,
            ),
        ]
    } else {
        Seq::empty()
    }
}

/// The finding about a claim whose id is not the one its tuple implies.
pub open spec fn misnamed(path: Seq<char>, claim: ClaimModel) -> Seq<DiagnosticModel> {
    if claim.claim_id != claim.tuple_id() {
        seq![
            error_of(
                "registry.claim-id-format"@,
                path,
                "claim_id '"@ + claim.claim_id + "' does not match its tuple; expected '"@
                    + claim.tuple_id() + "'"@,
            ),
        ]
    } else {
        Seq::empty()
    }
}

/// The finding about a claim that says nothing of what it does not support.
pub open spec fn overclaiming(path: Seq<char>, claim: ClaimModel) -> Seq<DiagnosticModel> {
    if claim.does_not_predict.len() == 0 {
        seq![
            error_of(
                "registry.missing-field"@,
                path,
                "claim '"@ + claim.claim_id
                    + "' has an empty does_not_predict; every claim must say what it does not support"@,
            ),
        ]
    } else {
        Seq::empty()
    }
}

/// The notice about a claim past its expiry.
pub open spec fn expired(path: Seq<char>, claim: ClaimModel, as_of: DateModel) -> Seq<
    DiagnosticModel,
> {
    if as_of.after(claim.expiry) {
        seq![
            notice_of(
                "registry.evidence-stale"@,
                path,
                "claim '"@ + claim.claim_id + "' expired "@ + claim.expiry.date_text()
                    + " and is demoted to `evidence: stale`; owner "@ + claim.owner
                    + " re-reviews"@,
            ),
        ]
    } else {
        Seq::empty()
    }
}

/// The finding about a claim that was read before.
pub open spec fn repeated(path: Seq<char>, claim: ClaimModel, known: bool) -> Seq<DiagnosticModel> {
    if known {
        seq![
            error_of(
                "registry.duplicate-claim"@,
                path,
                "claim_id '"@ + claim.claim_id + "' is declared more than once"@,
            ),
        ]
    } else {
        Seq::empty()
    }
}

/// Every finding about one claim.
pub open spec fn claim_findings(
    path: Seq<char>,
    claim: ClaimModel,
    as_of: DateModel,
    known: bool,
) -> Seq<DiagnosticModel> {
    misnamed(path, claim) + overclaiming(path, claim) + blank_field(
        path,
        claim,
        "citation"@,
        claim.citation,
    ) + blank_field(path, claim, "population"@, claim.population) + blank_field(
        path,
        claim,
        "effect"@,
        claim.effect,
    ) + blank_field(path, claim, "owner"@, claim.owner) + expired(path, claim, as_of) + repeated(
        path,
        claim,
        known,
    )
}

/// The lint once it has read one claim.
pub open spec fn after_claim(
    m: LintModel,
    path: Seq<char>,
    claim: ClaimModel,
    as_of: DateModel,
) -> LintModel {
    let known = strmap::has_key(m.claims, claim.claim_id);
    LintModel {
        claims: strmap::inserted(
            m.claims,
            claim.claim_id,
            ResolvedModel { claim, stale: as_of.after(claim.expiry) },
        ),
        diagnostics: m.diagnostics + claim_findings(path, claim, as_of, known),
        ..m
    }
}

/// The lint once it has read the first `n` claims of a file.
pub open spec fn after_claims(
    m: LintModel,
    path: Seq<char>,
    claims: Seq<Claim>,
    as_of: DateModel,
    n: int,
) -> LintModel
    decreases n,
{
    if n <= 0 {
        m
    } else {
        after_claim(after_claims(m, path, claims, as_of, n - 1), path, claims[n - 1]@, as_of)
    }
}

/// The lint once it has read one metric declaration.
pub open spec fn after_metric(m: LintModel, path: Seq<char>, metric: MetricDecl) -> LintModel {
    let duplicate = if strmap::has_key(m.metrics, metric.metric_id@) {
        seq![
            error_of(
                "registry.duplicate-metric"@,
                path,
                "metric_id '"@ + metric.metric_id@ + "' is declared more than once"@,
            ),
        ]
    } else {
        Seq::empty()
    };
    LintModel {
        metrics: strmap::inserted(m.metrics, metric.metric_id@, metric),
        sources: strmap::inserted(m.sources, metric.metric_id@, path),
        diagnostics: m.diagnostics + duplicate,
        ..m
    }
}

/// The lint once it has read the first `n` metrics of a file.
pub open spec fn after_metrics(
    m: LintModel,
    path: Seq<char>,
    metrics: Seq<MetricDecl>,
    n: int,
) -> LintModel
    decreases n,
{
    if n <= 0 {
        m
    } else {
        after_metric(after_metrics(m, path, metrics, n - 1), path, metrics[n - 1])
    }
}

/// The lint once it has read one file. A file of another version is reported
/// and contributes nothing.
pub open spec fn after_file(
    m: LintModel,
    path: Seq<char>,
    file: EngineRegistryFile,
    as_of: DateModel,
) -> LintModel {
    if file.schema_version != REGISTRY_SCHEMA_VERSION {
        LintModel {
            diagnostics: m.diagnostics + seq![
                error_of(
                    "registry.schema-version"@,
                    path,
                    "unsupported registry schema_version "@ + text::decimal(
                        file.schema_version as nat,
                    ) + " (expected 1)"@,
                ),
            ],
            ..m
        }
    } else {
        after_metrics(
            after_claims(m, path, file.claims@, as_of, file.claims@.len() as int),
            path,
            file.metrics@,
            file.metrics@.len() as int,
        )
    }
}

/// The lint before it has read anything.
pub open spec fn nothing_read() -> LintModel {
    LintModel {
        claims: Seq::empty(),
        metrics: Seq::empty(),
        sources: Seq::empty(),
        diagnostics: Seq::empty(),
    }
}

/// The lint once it has read the first `n` files.
pub open spec fn after_files(
    files: Seq<(String, EngineRegistryFile)>,
    as_of: DateModel,
    n: int,
) -> LintModel
    decreases n,
{
    if n <= 0 {
        nothing_read()
    } else {
        after_file(after_files(files, as_of, n - 1), files[n - 1].0@, files[n - 1].1, as_of)
    }
}

/// Findings about the first `n` metrics: those whose claim nobody declares.
pub open spec fn unmapped_metrics(m: LintModel, n: int) -> Seq<DiagnosticModel>
    decreases n,
{
    if n <= 0 {
        Seq::empty()
    } else {
        let (metric_id, metric) = m.metrics[n - 1];
        let before = unmapped_metrics(m, n - 1);
        if strmap::has_key(m.claims, metric.claim_id@) {
            before
        } else {
            before + seq![
                error_of(
                    "registry.unmapped-metric"@,
                    match strmap::lookup(m.sources, metric_id) {
                        Some(path) => path,
                        None => Seq::empty(),
                    },
                    "metric '"@ + metric_id + "' cites claim '"@ + metric.claim_id@
                        + "', which no registry file declares"@,
                ),
            ]
        }
    }
}

/// Whether some metric cites a claim.
pub open spec fn is_cited(metrics: Seq<(Seq<char>, MetricDecl)>, claim_id: Seq<char>) -> bool {
    exists|i: int| 0 <= i < metrics.len() && (#[trigger] metrics[i]).1.claim_id@ == claim_id
}

/// Findings about the first `n` claims: those no metric cites.
pub open spec fn unused_claims(m: LintModel, n: int) -> Seq<DiagnosticModel>
    decreases n,
{
    if n <= 0 {
        Seq::empty()
    } else {
        let claim_id = m.claims[n - 1].0;
        let before = unused_claims(m, n - 1);
        if is_cited(m.metrics, claim_id) {
            before
        } else {
            before + seq![
                notice_of(
                    "registry.unused-claim"@,
                    "registry"@,
                    "claim '"@ + claim_id + "' is not cited by any metric"@,
                ),
            ]
        }
    }
}

/// The finding about a claim count over budget.
pub open spec fn over_budget(m: LintModel, budget: int) -> Seq<DiagnosticModel> {
    if m.claims.len() > budget {
        seq![
            error_of(
                "registry.claim-budget"@,
                "registry"@,
                text::decimal(m.claims.len()) + " claim tuples exceeds the budget of "@
                    + text::decimal(budget as nat)
                    + "; the budget is what one owner can re-review in a week each year"@,
            ),
        ]
    } else {
        Seq::empty()
    }
}

/// The months the first `n` claims fall due in: once each, in order.
pub open spec fn months_due(claims: Seq<(Seq<char>, ResolvedModel)>, n: int) -> Seq<
    (Seq<char>, ()),
>
    decreases n,
{
    if n <= 0 {
        Seq::empty()
    } else {
        strmap::inserted(
            months_due(claims, n - 1),
            claims[n - 1].1.claim.expiry.month_text(),
            (),
        )
    }
}

/// How many of the first `n` claims fall due in a month.
pub open spec fn due_in(
    claims: Seq<(Seq<char>, ResolvedModel)>,
    month: Seq<char>,
    n: int,
) -> nat
    decreases n,
{
    if n <= 0 {
        0
    } else if claims[n - 1].1.claim.expiry.month_text() == month {
        due_in(claims, month, n - 1) + 1
    } else {
        due_in(claims, month, n - 1)
    }
}

/// Findings about the first `n` months: those in which too many claims fall due.
pub open spec fn crowded_months(
    claims: Seq<(Seq<char>, ResolvedModel)>,
    months: Seq<(Seq<char>, ())>,
    limit: int,
    n: int,
) -> Seq<DiagnosticModel>
    decreases n,
{
    if n <= 0 {
        Seq::empty()
    } else {
        let month = months[n - 1].0;
        let count = due_in(claims, month, claims.len() as int);
        let before = crowded_months(claims, months, limit, n - 1);
        if count > limit {
            before + seq![
                error_of(
                    "registry.expiry-stagger"@,
                    "registry"@,
                    text::decimal(count) + " claims expire in "@ + month
                        + ", above the stagger limit of "@ + text::decimal(limit as nat)
                        + "; spread the re-review load"@,
                ),
            ]
        } else {
            before
        }
    }
}

/// Every finding, in the order the lint reports them.
pub open spec fn all_findings(m: LintModel, policy: RegistryPolicy) -> Seq<DiagnosticModel> {
    let months = months_due(m.claims, m.claims.len() as int);
    m.diagnostics + unmapped_metrics(m, m.metrics.len() as int) + unused_claims(
        m,
        m.claims.len() as int,
    ) + over_budget(m, policy.claim_budget as int) + crowded_months(
        m.claims,
        months,
        policy.max_claims_expiring_per_month as int,
        months.len() as int,
    )
}

/// Whether a registry and the findings about it are what the lint has gathered.
pub open spec fn gathered(registry: Registry, diagnostics: Seq<Diagnostic>, m: LintModel) -> bool {
    &&& registry.claims@ == m.claims
    &&& registry.metrics@ == m.metrics
    &&& registry.metric_sources@ == m.sources
    &&& diagnostics_of(diagnostics) == m.diagnostics
}

fn claim_message(before: &str, claim_id: &str, after: &str) -> (r: String)
    ensures
        r@ == before@ + claim_id@ + after@,
{
    let mut out = before.to_owned();
    out.append(claim_id);
    out.append(after);
    out
}

fn check_blank(out: &mut Vec<Diagnostic>, path: &str, claim: &Claim, field: &str, value: &str)
    ensures
        diagnostics_of(final(out)@) == diagnostics_of(old(out)@) + blank_field(
            path@,
            claim@,
            field@,
            value@,
        ),
{
    if text::blank(value) {
        let mut message = claim_message("claim '", claim.claim_id.as_str(), "' has an empty ");
        message.append(field);
        report(out, Diagnostic::error("registry.missing-field", path, message));
    } else {
        proof {
            assert(diagnostics_of(out@) + Seq::<DiagnosticModel>::empty() =~= diagnostics_of(out@));
        }
    }
}

fn check_name(out: &mut Vec<Diagnostic>, path: &str, claim: &Claim)
    ensures
        diagnostics_of(final(out)@) == diagnostics_of(old(out)@) + misnamed(path@, claim@),
{
    let canonical = claim.canonical_id();
    if !same_text(claim.claim_id.as_str(), canonical.as_str()) {
        let mut message = claim_message(
            "claim_id '",
            claim.claim_id.as_str(),
            "' does not match its tuple; expected '",
        );
        message.append(canonical.as_str());
        message.append("'");
        report(out, Diagnostic::error("registry.claim-id-format", path, message));
    } else {
        proof {
            assert(diagnostics_of(out@) + Seq::<DiagnosticModel>::empty() =~= diagnostics_of(out@));
        }
    }
}

fn check_honesty(out: &mut Vec<Diagnostic>, path: &str, claim: &Claim)
    ensures
        diagnostics_of(final(out)@) == diagnostics_of(old(out)@) + overclaiming(path@, claim@),
{
    proof {
        assert(claim@.does_not_predict.len() == claim.does_not_predict@.len());
    }
    if claim.does_not_predict.len() == 0 {
        let message = claim_message(
            "claim '",
            claim.claim_id.as_str(),
            "' has an empty does_not_predict; every claim must say what it does not support",
        );
        report(out, Diagnostic::error("registry.missing-field", path, message));
    } else {
        proof {
            assert(diagnostics_of(out@) + Seq::<DiagnosticModel>::empty() =~= diagnostics_of(out@));
        }
    }
}

fn check_expiry(out: &mut Vec<Diagnostic>, path: &str, claim: &Claim, as_of: Date)
    ensures
        diagnostics_of(final(out)@) == diagnostics_of(old(out)@) + expired(path@, claim@, as_of@),
{
    if as_of.is_after(&claim.expiry) {
        let mut message = claim_message("claim '", claim.claim_id.as_str(), "' expired ");
        message.append(claim.expiry.written().as_str());
        message.append(" and is demoted to `evidence: stale`; owner ");
        message.append(claim.owner.as_str());
        message.append(" re-reviews");
        report(out, Diagnostic::notice("registry.evidence-stale", path, message));
    } else {
        proof {
            assert(diagnostics_of(out@) + Seq::<DiagnosticModel>::empty() =~= diagnostics_of(out@));
        }
    }
}

fn check_repeat(out: &mut Vec<Diagnostic>, path: &str, claim: &Claim, known: bool)
    ensures
        diagnostics_of(final(out)@) == diagnostics_of(old(out)@) + repeated(path@, claim@, known),
{
    if known {
        let message = claim_message(
            "claim_id '",
            claim.claim_id.as_str(),
            "' is declared more than once",
        );
        report(out, Diagnostic::error("registry.duplicate-claim", path, message));
    } else {
        proof {
            assert(diagnostics_of(out@) + Seq::<DiagnosticModel>::empty() =~= diagnostics_of(out@));
        }
    }
}

fn check_claim(out: &mut Vec<Diagnostic>, path: &str, claim: &Claim, as_of: Date, known: bool)
    ensures
        diagnostics_of(final(out)@) == diagnostics_of(old(out)@) + claim_findings(
            path@,
            claim@,
            as_of@,
            known,
        ),
{
    let ghost s = diagnostics_of(out@);
    check_name(out, path, claim);
    check_honesty(out, path, claim);
    check_blank(out, path, claim, "citation", claim.citation.as_str());
    check_blank(out, path, claim, "population", claim.population.as_str());
    check_blank(out, path, claim, "effect", claim.effect.as_str());
    check_blank(out, path, claim, "owner", claim.owner.as_str());
    check_expiry(out, path, claim, as_of);
    check_repeat(out, path, claim, known);
    proof {
        let a = misnamed(path@, claim@);
        let b = overclaiming(path@, claim@);
        let c = blank_field(path@, claim@, "citation"@, claim.citation@);
        let d = blank_field(path@, claim@, "population"@, claim.population@);
        let e = blank_field(path@, claim@, "effect"@, claim.effect@);
        let f = blank_field(path@, claim@, "owner"@, claim.owner@);
        let g = expired(path@, claim@, as_of@);
        let h = repeated(path@, claim@, known);
        sorting::lemma_assoc(s, a, b);
        sorting::lemma_assoc(s, a + b, c);
        sorting::lemma_assoc(s, a + b + c, d);
        sorting::lemma_assoc(s, a + b + c + d, e);
        sorting::lemma_assoc(s, a + b + c + d + e, f);
        sorting::lemma_assoc(s, a + b + c + d + e + f, g);
        sorting::lemma_assoc(s, a + b + c + d + e + f + g, h);
    }
}

fn read_claims(
    registry: &mut Registry,
    out: &mut Vec<Diagnostic>,
    path: &str,
    claims: &Vec<Claim>,
    as_of: Date,
    Ghost(m): Ghost<LintModel>,
)
    requires
        gathered(*old(registry), old(out)@, m),
    ensures
        gathered(
            *final(registry),
            final(out)@,
            after_claims(m, path@, claims@, as_of@, claims@.len() as int),
        ),
{
    let mut i: usize = 0;
    while i < claims.len()
        invariant
            i <= claims.len(),
            gathered(*registry, out@, after_claims(m, path@, claims@, as_of@, i as int)),
        decreases claims.len() - i,
    {
        let claim = &claims[i];
        let known = registry.claims.contains_key(claim.claim_id.as_str());
        check_claim(out, path, claim, as_of, known);
        let resolved = ResolvedClaim { claim: claim.clone(), stale: as_of.is_after(&claim.expiry) };
        registry.claims.insert(claim.claim_id.clone(), resolved);
        i = i + 1;
    }
}

fn read_metrics(
    registry: &mut Registry,
    out: &mut Vec<Diagnostic>,
    path: &str,
    metrics: &Vec<MetricDecl>,
    Ghost(m): Ghost<LintModel>,
)
    requires
        gathered(*old(registry), old(out)@, m),
    ensures
        gathered(
            *final(registry),
            final(out)@,
            after_metrics(m, path@, metrics@, metrics@.len() as int),
        ),
{
    let mut i: usize = 0;
    while i < metrics.len()
        invariant
            i <= metrics.len(),
            gathered(*registry, out@, after_metrics(m, path@, metrics@, i as int)),
        decreases metrics.len() - i,
    {
        let metric = &metrics[i];
        let ghost before = diagnostics_of(out@);
        if registry.metrics.contains_key(metric.metric_id.as_str()) {
            report(
                out,
                Diagnostic::error(
                    "registry.duplicate-metric",
                    path,
                    claim_message(
                        "metric_id '",
                        metric.metric_id.as_str(),
                        "' is declared more than once",
                    ),
                ),
            );
        } else {
            proof {
                assert(before + Seq::<DiagnosticModel>::empty() =~= before);
            }
        }
        registry.metrics.insert(metric.metric_id.clone(), metric.clone());
        registry.metric_sources.insert(metric.metric_id.clone(), path.to_owned());
        i = i + 1;
    }
}

fn check_mapping(registry: &Registry, out: &mut Vec<Diagnostic>, Ghost(m): Ghost<LintModel>)
    requires
        registry.claims@ == m.claims,
        registry.metrics@ == m.metrics,
        registry.metric_sources@ == m.sources,
    ensures
        diagnostics_of(final(out)@) == diagnostics_of(old(out)@) + unmapped_metrics(
            m,
            m.metrics.len() as int,
        ),
{
    let ghost start = diagnostics_of(out@);
    let n = registry.metrics.len();
    let mut i: usize = 0;
    proof {
        assert(start + Seq::<DiagnosticModel>::empty() =~= start);
    }
    while i < n
        invariant
            i <= n,
            n == m.metrics.len(),
            registry.claims@ == m.claims,
            registry.metrics@ == m.metrics,
            registry.metric_sources@ == m.sources,
            diagnostics_of(out@) == start + unmapped_metrics(m, i as int),
        decreases n - i,
    {
        let metric_id = registry.metrics.key_at(i);
        let metric = registry.metrics.value_at(i);
        if !registry.claims.contains_key(metric.claim_id.as_str()) {
            let location = match registry.metric_sources.get(metric_id.as_str()) {
                Some(path) => path.clone(),
                None => String::new(),
            };
            let mut message = claim_message("metric '", metric_id.as_str(), "' cites claim '");
            message.append(metric.claim_id.as_str());
            message.append("', which no registry file declares");
            let ghost d = error_of("registry.unmapped-metric"@, location@, message@);
            report(
                out,
                Diagnostic::error("registry.unmapped-metric", location.as_str(), message),
            );
            proof {
                assert(start + unmapped_metrics(m, i as int) + seq![d] =~= start + (
                unmapped_metrics(m, i as int) + seq![d]));
            }
        }
        i = i + 1;
    }
}

fn cited(metrics: &StrMap<MetricDecl>, claim_id: &str) -> (r: bool)
    ensures
        r == is_cited(metrics@, claim_id@),
{
    let n = metrics.len();
    let mut i: usize = 0;
    while i < n
        invariant
            i <= n,
            n == metrics@.len(),
            forall|k: int| 0 <= k < i ==> (#[trigger] metrics@[k]).1.claim_id@ != claim_id@,
        decreases n - i,
    {
        if same_text(metrics.value_at(i).claim_id.as_str(), claim_id) {
            return true;
        }
        i = i + 1;
    }
    false
}

fn check_use(registry: &Registry, out: &mut Vec<Diagnostic>, Ghost(m): Ghost<LintModel>)
    requires
        registry.claims@ == m.claims,
        registry.metrics@ == m.metrics,
    ensures
        diagnostics_of(final(out)@) == diagnostics_of(old(out)@) + unused_claims(
            m,
            m.claims.len() as int,
        ),
{
    let ghost start = diagnostics_of(out@);
    let n = registry.claims.len();
    let mut i: usize = 0;
    proof {
        assert(start + Seq::<DiagnosticModel>::empty() =~= start);
    }
    while i < n
        invariant
            i <= n,
            n == m.claims.len(),
            registry.claims@ == m.claims,
            registry.metrics@ == m.metrics,
            diagnostics_of(out@) == start + unused_claims(m, i as int),
        decreases n - i,
    {
        let claim_id = registry.claims.key_at(i);
        if !cited(&registry.metrics, claim_id.as_str()) {
            let message = claim_message("claim '", claim_id.as_str(), "' is not cited by any metric");
            let ghost d = notice_of("registry.unused-claim"@, "registry"@, message@);
            report(out, Diagnostic::notice("registry.unused-claim", "registry", message));
            proof {
                assert(start + unused_claims(m, i as int) + seq![d] =~= start + (unused_claims(
                    m,
                    i as int,
                ) + seq![d]));
            }
        }
        i = i + 1;
    }
}

fn due_months(claims: &StrMap<ResolvedClaim>) -> (r: StrSet)
    ensures
        r@ == months_due(claims@, claims@.len() as int),
{
    let n = claims.len();
    let mut months = StrSet::new();
    let mut i: usize = 0;
    proof {
        assert(months@ =~= Seq::empty());
    }
    while i < n
        invariant
            i <= n,
            n == claims@.len(),
            months@ == months_due(claims@, i as int),
        decreases n - i,
    {
        months.insert(claims.value_at(i).claim.expiry.year_month(), ());
        i = i + 1;
    }
    months
}

fn count_due(claims: &StrMap<ResolvedClaim>, month: &str) -> (r: usize)
    ensures
        r == due_in(claims@, month@, claims@.len() as int),
{
    let n = claims.len();
    let mut count: usize = 0;
    let mut i: usize = 0;
    while i < n
        invariant
            i <= n,
            n == claims@.len(),
            count <= i,
            count == due_in(claims@, month@, i as int),
        decreases n - i,
    {
        if same_text(claims.value_at(i).claim.expiry.year_month().as_str(), month) {
            count = count + 1;
        }
        i = i + 1;
    }
    count
}

fn check_schedule(registry: &Registry, out: &mut Vec<Diagnostic>, limit: u32)
    ensures
        diagnostics_of(final(out)@) == diagnostics_of(old(out)@) + crowded_months(
            registry.claims@,
            months_due(registry.claims@, registry.claims@.len() as int),
            limit as int,
            months_due(registry.claims@, registry.claims@.len() as int).len() as int,
        ),
{
    let ghost start = diagnostics_of(out@);
    let ghost claims = registry.claims@;
    let months = due_months(&registry.claims);
    let n = months.len();
    let mut i: usize = 0;
    proof {
        assert(start + Seq::<DiagnosticModel>::empty() =~= start);
    }
    while i < n
        invariant
            i <= n,
            n == months@.len(),
            claims == registry.claims@,
            months@ == months_due(claims, claims.len() as int),
            diagnostics_of(out@) == start + crowded_months(
                claims,
                months@,
                limit as int,
                i as int,
            ),
        decreases n - i,
    {
        let month = months.key_at(i);
        let count = count_due(&registry.claims, month.as_str());
        if count as u64 > limit as u64 {
            let mut message = text::decimal_text(count as u64);
            message.append(" claims expire in ");
            message.append(month.as_str());
            message.append(", above the stagger limit of ");
            text::push_decimal(&mut message, limit as u64);
            message.append("; spread the re-review load");
            let ghost d = error_of("registry.expiry-stagger"@, "registry"@, message@);
            report(out, Diagnostic::error("registry.expiry-stagger", "registry", message));
            proof {
                let before = crowded_months(claims, months@, limit as int, i as int);
                assert(start + before + seq![d] =~= start + (before + seq![d]));
            }
        }
        i = i + 1;
    }
}

/// Lint a set of already-parsed registry files.
///
/// `as_of` decides staleness. It is a parameter because a lint whose verdict
/// depends on the day it runs cannot be tested.
pub fn lint(
    files: &[(String, EngineRegistryFile)],
    policy: &RegistryPolicy,
    as_of: Date,
) -> (r: (Registry, LintReport))
    ensures
        ({
            let m = after_files(files@, as_of@, files@.len() as int);
            &&& r.0.claims@ == m.claims
            &&& r.0.metrics@ == m.metrics
            &&& r.0.metric_sources@ == m.sources
            &&& diagnostics_of(r.1.diagnostics@) == all_findings(m, *policy)
            &&& r.1.claim_count == m.claims.len()
            &&& r.1.metric_count == m.metrics.len()
        }),
{
    let mut registry = Registry::default();
    let mut out: Vec<Diagnostic> = Vec::new();
    let mut i: usize = 0;
    proof {
        assert(registry.claims@ =~= Seq::empty());
        assert(registry.metrics@ =~= Seq::empty());
        assert(registry.metric_sources@ =~= Seq::empty());
        assert(diagnostics_of(out@) =~= Seq::empty());
    }
    while i < files.len()
        invariant
            i <= files.len(),
            gathered(registry, out@, after_files(files@, as_of@, i as int)),
        decreases files.len() - i,
    {
        let path = files[i].0.as_str();
        let file = &files[i].1;
        let ghost m = after_files(files@, as_of@, i as int);
        if file.schema_version != REGISTRY_SCHEMA_VERSION {
            let mut message = "unsupported registry schema_version ".to_owned();
            text::push_decimal(&mut message, file.schema_version as u64);
            message.append(" (expected 1)");
            report(&mut out, Diagnostic::error("registry.schema-version", path, message));
        } else {
            read_claims(&mut registry, &mut out, path, &file.claims, as_of, Ghost(m));
            let ghost m2 = after_claims(m, path@, file.claims@, as_of@, file.claims@.len() as int);
            read_metrics(&mut registry, &mut out, path, &file.metrics, Ghost(m2));
        }
        i = i + 1;
    }
    let ghost m = after_files(files@, as_of@, files@.len() as int);
    // An emitted metric with no claim behind it fails the build. This is the
    // whole point of the registry.
    check_mapping(&registry, &mut out, Ghost(m));
    // Claims nobody cites are dead weight against the budget.
    check_use(&registry, &mut out, Ghost(m));
    let claims = registry.claims.len();
    let ghost before = diagnostics_of(out@);
    if claims as u64 > policy.claim_budget as u64 {
        let mut message = text::decimal_text(claims as u64);
        message.append(" claim tuples exceeds the budget of ");
        text::push_decimal(&mut message, policy.claim_budget as u64);
        message.append("; the budget is what one owner can re-review in a week each year");
        report(&mut out, Diagnostic::error("registry.claim-budget", "registry", message));
    } else {
        proof {
            assert(before + Seq::<DiagnosticModel>::empty() =~= before);
        }
    }
    // A month in which a third of the registry falls due recreates the
    // bottleneck the budget exists to prevent.
    check_schedule(&registry, &mut out, policy.max_claims_expiring_per_month);
    let metrics = registry.metrics.len();
    let report = LintReport { diagnostics: out, claim_count: claims, metric_count: metrics };
    (registry, report)
}

// --- the drift check ------------------------------------------------------

/// The declarations of a file by metric id; of two with one id, the later one.
pub open spec fn declared_by_id(metrics: Seq<MetricDecl>, n: int) -> Seq<(Seq<char>, MetricDecl)>
    decreases n,
{
    if n <= 0 {
        Seq::empty()
    } else {
        strmap::inserted(
            declared_by_id(metrics, n - 1),
            metrics[n - 1].metric_id@,
            metrics[n - 1],
        )
    }
}

/// The descriptors of an engine by metric id; of two with one id, the later one.
pub open spec fn emitted_by_id(metrics: Seq<MetricDescriptor>, n: int) -> Seq<
    (Seq<char>, MetricDescriptor),
>
    decreases n,
{
    if n <= 0 {
        Seq::empty()
    } else {
        strmap::inserted(
            emitted_by_id(metrics, n - 1),
            metrics[n - 1].metric_id@,
            metrics[n - 1],
        )
    }
}

/// `true` or `false`.
pub open spec fn bool_text(b: bool) -> Seq<char> {
    if b {
        "true"@
    } else {
        "false"@
    }
}

/// The spelling of a truth value.
pub fn bool_name(b: bool) -> (r: &'static str)
    ensures
        r@ == bool_text(b),
{
    if b {
        "true"
    } else {
        "false"
    }
}

/// What differs between an engine's metric and its declaration.
pub open spec fn metric_drift(
    metric_id: Seq<char>,
    emitted: MetricDescriptor,
    declared: Option<MetricDecl>,
) -> Seq<Seq<char>> {
    match declared {
        None => seq![
            "metric '"@ + metric_id
                + "' is emitted by the engine but absent from the registry file"@,
        ],
        Some(decl) => {
            let claim = if decl.claim_id@ != emitted.claim_id@ {
                seq![
                    "metric '"@ + metric_id + "' cites '"@ + emitted.claim_id@ + "' in code and '"@
                        + decl.claim_id@ + "' in the registry"@,
                ]
            } else {
                Seq::empty()
            };
            let class = if decl.class != emitted.class {
                seq![
                    "metric '"@ + metric_id + "' is "@ + emitted.class.variant_name()
                        + " in code and "@ + decl.class.variant_name() + " in the registry"@,
                ]
            } else {
                Seq::empty()
            };
            let compared = if decl.deterministic != emitted.deterministic {
                seq![
                    "metric '"@ + metric_id + "' disagrees on determinism: code "@ + bool_text(
                        emitted.deterministic,
                    ) + " vs registry "@ + bool_text(decl.deterministic),
                ]
            } else {
                Seq::empty()
            };
            claim + class + compared
        },
    }
}

/// What differs over the first `n` metrics an engine emits.
pub open spec fn emitted_drift(
    emitted: Seq<(Seq<char>, MetricDescriptor)>,
    declared: Seq<(Seq<char>, MetricDecl)>,
    n: int,
) -> Seq<Seq<char>>
    decreases n,
{
    if n <= 0 {
        Seq::empty()
    } else {
        let (id, m) = emitted[n - 1];
        emitted_drift(emitted, declared, n - 1) + metric_drift(id, m, strmap::lookup(declared, id))
    }
}

/// The first `n` declared metrics that the engine never emits.
pub open spec fn never_emitted(
    emitted: Seq<(Seq<char>, MetricDescriptor)>,
    declared: Seq<(Seq<char>, MetricDecl)>,
    n: int,
) -> Seq<Seq<char>>
    decreases n,
{
    if n <= 0 {
        Seq::empty()
    } else {
        let id = declared[n - 1].0;
        let before = never_emitted(emitted, declared, n - 1);
        if strmap::has_key(emitted, id) {
            before
        } else {
            before + seq![
                "metric '"@ + id + "' is declared in the registry but the engine never emits it"@,
            ]
        }
    }
}

/// Everything in which an engine and its registry file differ.
pub open spec fn drift_between(
    file: EngineRegistryFile,
    d: EngineDescriptor,
    metrics: Seq<MetricDescriptor>,
) -> Seq<Seq<char>> {
    let declared = declared_by_id(file.metrics@, file.metrics@.len() as int);
    let emitted = emitted_by_id(metrics, metrics.len() as int);
    let identity = if file.engine@ != d.engine_id@ {
        seq![
            "registry declares engine '"@ + file.engine@ + "' but the engine identifies as '"@
                + d.engine_id@ + "'"@,
        ]
    } else {
        Seq::empty()
    };
    let family = if file.family != d.family {
        seq![
            "registry declares family "@ + file.family.variant_name()
                + " but the engine reports "@ + d.family.variant_name(),
        ]
    } else {
        Seq::empty()
    };
    identity + family + emitted_drift(emitted, declared, emitted.len() as int) + never_emitted(
        emitted,
        declared,
        declared.len() as int,
    )
}

fn note(out: &mut Vec<String>, problem: String)
    ensures
        text::texts(final(out)@) == text::texts(old(out)@) + seq![problem@],
{
    out.push(problem);
    proof {
        assert(text::texts(out@) =~= text::texts(old(out)@) + seq![problem@]);
    }
}

fn note_metric_drift(
    out: &mut Vec<String>,
    metric_id: &str,
    emitted: &MetricDescriptor,
    declared: Option<&MetricDecl>,
)
    ensures
        text::texts(final(out)@) == text::texts(old(out)@) + metric_drift(
            metric_id@,
            *emitted,
            match declared {
                Some(d) => Some(*d),
                None => None,
            },
        ),
{
    let ghost start = text::texts(out@);
    match declared {
        None => {
            note(
                out,
                claim_message(
                    "metric '",
                    metric_id,
                    "' is emitted by the engine but absent from the registry file",
                ),
            );
        },
        Some(decl) => {
            if !same_text(decl.claim_id.as_str(), emitted.claim_id.as_str()) {
                let mut problem = claim_message("metric '", metric_id, "' cites '");
                problem.append(emitted.claim_id.as_str());
                problem.append("' in code and '");
                problem.append(decl.claim_id.as_str());
                problem.append("' in the registry");
                note(out, problem);
            }
            if decl.class != emitted.class {
                let mut problem = claim_message("metric '", metric_id, "' is ");
                problem.append(emitted.class.name());
                problem.append(" in code and ");
                problem.append(decl.class.name());
                problem.append(" in the registry");
                note(out, problem);
            }
            if decl.deterministic != emitted.deterministic {
                let mut problem = claim_message(
                    "metric '",
                    metric_id,
                    "' disagrees on determinism: code ",
                );
                problem.append(bool_name(emitted.deterministic));
                problem.append(" vs registry ");
                problem.append(bool_name(decl.deterministic));
                note(out, problem);
            }
            proof {
                assert(text::texts(out@) =~= start + metric_drift(
                    metric_id@,
                    *emitted,
                    Some(*decl),
                ));
            }
        },
    }
}

/// Everything in which a descriptor and its metrics differ from a registry file.
pub fn drift(
    file: &EngineRegistryFile,
    descriptor: &EngineDescriptor,
    metrics: &[MetricDescriptor],
) -> (r: Result<(), Vec<String>>)
    ensures
        match r {
            Ok(_) => drift_between(*file, *descriptor, metrics@).len() == 0,
            Err(problems) => {
                &&& text::texts(problems@) == drift_between(*file, *descriptor, metrics@)
                &&& problems@.len() > 0
            },
        },
{
    let mut problems: Vec<String> = Vec::new();
    proof {
        assert(text::texts(problems@) =~= Seq::empty());
    }
    if !same_text(file.engine.as_str(), descriptor.engine_id.as_str()) {
        let mut problem = claim_message(
            "registry declares engine '",
            file.engine.as_str(),
            "' but the engine identifies as '",
        );
        problem.append(descriptor.engine_id.as_str());
        problem.append("'");
        note(&mut problems, problem);
    }
    if file.family != descriptor.family {
        let mut problem = claim_message(
            "registry declares family ",
            file.family.name(),
            " but the engine reports ",
        );
        problem.append(descriptor.family.name());
        note(&mut problems, problem);
    }
    let ghost head = text::texts(problems@);
    let mut declared: StrMap<&MetricDecl> = StrMap::new();
    let mut i: usize = 0;
    proof {
        assert(declared@ =~= Seq::empty());
    }
    while i < file.metrics.len()
        invariant
            i <= file.metrics.len(),
            declared@ == declared_by_id(file.metrics@, i as int),
        decreases file.metrics.len() - i,
    {
        declared.insert(file.metrics[i].metric_id.clone(), &file.metrics[i]);
        i = i + 1;
    }
    let mut emitted: StrMap<&MetricDescriptor> = StrMap::new();
    let mut j: usize = 0;
    proof {
        assert(emitted@ =~= Seq::empty());
    }
    while j < metrics.len()
        invariant
            j <= metrics.len(),
            emitted@ == emitted_by_id(metrics@, j as int),
        decreases metrics.len() - j,
    {
        emitted.insert(metrics[j].metric_id.clone(), &metrics[j]);
        j = j + 1;
    }
    let n = emitted.len();
    let mut k: usize = 0;
    proof {
        assert(head + Seq::<Seq<char>>::empty() =~= head);
    }
    while k < n
        invariant
            k <= n,
            n == emitted@.len(),
            text::texts(problems@) == head + emitted_drift(emitted@, declared@, k as int),
        decreases n - k,
    {
        let id = emitted.key_at(k);
        let metric: &MetricDescriptor = *emitted.value_at(k);
        let decl: Option<&MetricDecl> = match declared.get(id.as_str()) {
            Some(d) => Some(*d),
            None => None,
        };
        let ghost before = emitted_drift(emitted@, declared@, k as int);
        note_metric_drift(&mut problems, id.as_str(), metric, decl);
        proof {
            let here = metric_drift(id@, *metric, strmap::lookup(declared@, id@));
            assert(head + before + here =~= head + (before + here));
        }
        k = k + 1;
    }
    let ghost middle = text::texts(problems@);
    let d = declared.len();
    let mut q: usize = 0;
    proof {
        assert(middle + Seq::<Seq<char>>::empty() =~= middle);
    }
    while q < d
        invariant
            q <= d,
            d == declared@.len(),
            text::texts(problems@) == middle + never_emitted(emitted@, declared@, q as int),
        decreases d - q,
    {
        let id = declared.key_at(q);
        let ghost before = never_emitted(emitted@, declared@, q as int);
        if !emitted.contains_key(id.as_str()) {
            let problem = claim_message(
                "metric '",
                id.as_str(),
                "' is declared in the registry but the engine never emits it",
            );
            let ghost p = problem@;
            note(&mut problems, problem);
            proof {
                assert(middle + before + seq![p] =~= middle + (before + seq![p]));
            }
        }
        q = q + 1;
    }
    proof {
        assert(text::texts(problems@) =~= drift_between(*file, *descriptor, metrics@));
        assert(text::texts(problems@).len() == problems@.len());
    }
    if problems.len() == 0 {
        Ok(())
    } else {
        Err(problems)
    }
}

impl Registry {
    /// Assert that an engine's compiled metric set equals its registry file.
    ///
    /// A metric added in code but not in the registry is caught, and so is one
    /// added to the registry but not emitted.
    pub fn check_engine<E: MeasureEngine>(file: &EngineRegistryFile, engine: &E) -> (r: Result<
        (),
        Vec<String>,
    >)
        ensures
            exists|d: EngineDescriptor, m: Vec<MetricDescriptor>|
                #![trigger call_ensures(E::descriptor, (engine,), d), call_ensures(E::metrics, (engine,), m)]
                {
                    &&& call_ensures(E::descriptor, (engine,), d)
                    &&& call_ensures(E::metrics, (engine,), m)
                    &&& match r {
                        Ok(_) => drift_between(*file, d, m@).len() == 0,
                        Err(problems) => {
                            &&& text::texts(problems@) == drift_between(*file, d, m@)
                            &&& problems@.len() > 0
                        },
                    }
                },
    {
        let descriptor = engine.descriptor();
        let metrics = engine.metrics();
        proof {
            assert(call_ensures(E::descriptor, (engine,), descriptor));
            assert(call_ensures(E::metrics, (engine,), metrics));
        }
        drift(file, &descriptor, metrics.as_slice())
    }
}

// --- laws -----------------------------------------------------------------

/// A claim is named by what it is about: the implementation, its version, the
/// language and the outcome, in that order.
pub proof fn lemma_how_a_claim_is_named(claim: ClaimModel)
    ensures
        claim.tuple_id() == claim.implementation + "@"@ + claim.implementation_version + "|"@
            + claim.language + "|"@ + claim.outcome,
{
}

/// Whether a declaration is the one that counts under its id: no later one has it.
pub open spec fn counts_as_declared(metrics: Seq<MetricDecl>, k: int) -> bool {
    &&& 0 <= k < metrics.len()
    &&& forall|j: int| k < j < metrics.len() ==> (#[trigger] metrics[j]).metric_id@
        != metrics[k].metric_id@
}

/// Whether a descriptor is the one that counts under its id: no later one has it.
pub open spec fn counts_as_emitted(metrics: Seq<MetricDescriptor>, k: int) -> bool {
    &&& 0 <= k < metrics.len()
    &&& forall|j: int| k < j < metrics.len() ==> (#[trigger] metrics[j]).metric_id@
        != metrics[k].metric_id@
}

proof fn lemma_declared(metrics: Seq<MetricDecl>, n: int, id: Seq<char>)
    requires
        0 <= n <= metrics.len(),
    ensures
        strmap::keys_ascend(declared_by_id(metrics, n)),
        match strmap::lookup(declared_by_id(metrics, n), id) {
            Some(d) => exists|k: int|
                #![trigger metrics[k]]
                0 <= k < n && metrics[k] == d && d.metric_id@ == id && forall|j: int|
                    k < j < n ==> (#[trigger] metrics[j]).metric_id@ != id,
            None => forall|k: int| 0 <= k < n ==> (#[trigger] metrics[k]).metric_id@ != id,
        },
    decreases n,
{
    if n > 0 {
        lemma_declared(metrics, n - 1, id);
        let before = declared_by_id(metrics, n - 1);
        let last = metrics[n - 1];
        strmap::lemma_inserted(before, last.metric_id@, last);
        if last.metric_id@ != id {
            if let Some(d) = strmap::lookup(before, id) {
                let k = choose|k: int|
                    #![trigger metrics[k]]
                    0 <= k < n - 1 && metrics[k] == d && d.metric_id@ == id && forall|j: int|
                        k < j < n - 1 ==> (#[trigger] metrics[j]).metric_id@ != id;
                assert(metrics[k] == d);
                assert forall|j: int| k < j < n implies (#[trigger] metrics[j]).metric_id@
                    != id by {}
            }
        } else {
            assert(metrics[n - 1] == last);
        }
    } else {
        strmap::lemma_lookup_iff(declared_by_id(metrics, n), id);
    }
}

proof fn lemma_emitted(metrics: Seq<MetricDescriptor>, n: int, id: Seq<char>)
    requires
        0 <= n <= metrics.len(),
    ensures
        strmap::keys_ascend(emitted_by_id(metrics, n)),
        match strmap::lookup(emitted_by_id(metrics, n), id) {
            Some(d) => exists|k: int|
                #![trigger metrics[k]]
                0 <= k < n && metrics[k] == d && d.metric_id@ == id && forall|j: int|
                    k < j < n ==> (#[trigger] metrics[j]).metric_id@ != id,
            None => forall|k: int| 0 <= k < n ==> (#[trigger] metrics[k]).metric_id@ != id,
        },
    decreases n,
{
    if n > 0 {
        lemma_emitted(metrics, n - 1, id);
        let before = emitted_by_id(metrics, n - 1);
        let last = metrics[n - 1];
        strmap::lemma_inserted(before, last.metric_id@, last);
        if last.metric_id@ != id {
            if let Some(d) = strmap::lookup(before, id) {
                let k = choose|k: int|
                    #![trigger metrics[k]]
                    0 <= k < n - 1 && metrics[k] == d && d.metric_id@ == id && forall|j: int|
                        k < j < n - 1 ==> (#[trigger] metrics[j]).metric_id@ != id;
                assert(metrics[k] == d);
                assert forall|j: int| k < j < n implies (#[trigger] metrics[j]).metric_id@
                    != id by {}
            }
        } else {
            assert(metrics[n - 1] == last);
        }
    } else {
        strmap::lemma_lookup_iff(emitted_by_id(metrics, n), id);
    }
}

/// Whether a declaration says of a metric what the engine says of it.
pub open spec fn agree(emitted: MetricDescriptor, declared: MetricDecl) -> bool {
    &&& emitted.metric_id@ == declared.metric_id@
    &&& emitted.claim_id@ == declared.claim_id@
    &&& emitted.class == declared.class
    &&& emitted.deterministic == declared.deterministic
}

proof fn lemma_no_emitted_drift(
    emitted: Seq<(Seq<char>, MetricDescriptor)>,
    declared: Seq<(Seq<char>, MetricDecl)>,
    n: int,
)
    requires
        0 <= n <= emitted.len(),
    ensures
        emitted_drift(emitted, declared, n).len() == 0 <==> forall|i: int|
            0 <= i < n ==> metric_drift(
                (#[trigger] emitted[i]).0,
                emitted[i].1,
                strmap::lookup(declared, emitted[i].0),
            ).len() == 0,
    decreases n,
{
    if n > 0 {
        lemma_no_emitted_drift(emitted, declared, n - 1);
        assert(emitted_drift(emitted, declared, n).len() == emitted_drift(
            emitted,
            declared,
            n - 1,
        ).len() + metric_drift(
            emitted[n - 1].0,
            emitted[n - 1].1,
            strmap::lookup(declared, emitted[n - 1].0),
        ).len());
    }
}

proof fn lemma_none_never_emitted(
    emitted: Seq<(Seq<char>, MetricDescriptor)>,
    declared: Seq<(Seq<char>, MetricDecl)>,
    n: int,
)
    requires
        0 <= n <= declared.len(),
    ensures
        never_emitted(emitted, declared, n).len() == 0 <==> forall|i: int|
            0 <= i < n ==> strmap::has_key(emitted, (#[trigger] declared[i]).0),
    decreases n,
{
    if n > 0 {
        lemma_none_never_emitted(emitted, declared, n - 1);
        assert(strmap::has_key(emitted, declared[n - 1].0) || never_emitted(
            emitted,
            declared,
            n,
        ).len() > 0);
    }
}

proof fn lemma_emitted_counts(metrics: Seq<MetricDescriptor>, id: Seq<char>)
    ensures
        ({
            let x = strmap::lookup(emitted_by_id(metrics, metrics.len() as int), id);
            &&& x is Some ==> exists|k: int| #[trigger]
                counts_as_emitted(metrics, k) && metrics[k] == x->Some_0 && metrics[k].metric_id@
                    == id
            &&& forall|k: int| #[trigger]
                counts_as_emitted(metrics, k) && metrics[k].metric_id@ == id ==> x == Some(
                    metrics[k],
                )
        }),
{
    lemma_emitted(metrics, metrics.len() as int, id);
    let x = strmap::lookup(emitted_by_id(metrics, metrics.len() as int), id);
    if x is Some {
        let k = choose|k: int|
            #![trigger metrics[k]]
            0 <= k < metrics.len() && metrics[k] == x->Some_0 && x->Some_0.metric_id@ == id
                && forall|j: int|
                k < j < metrics.len() ==> (#[trigger] metrics[j]).metric_id@ != id;
        assert(counts_as_emitted(metrics, k));
        assert forall|q: int| #[trigger]
            counts_as_emitted(metrics, q) && metrics[q].metric_id@ == id implies q == k by {
            if k < q {
                assert(metrics[q].metric_id@ != id);
            } else if q < k {
                assert(metrics[k].metric_id@ != metrics[q].metric_id@);
            }
        }
    }
}

proof fn lemma_declared_counts(metrics: Seq<MetricDecl>, id: Seq<char>)
    ensures
        ({
            let x = strmap::lookup(declared_by_id(metrics, metrics.len() as int), id);
            &&& x is Some ==> exists|k: int| #[trigger]
                counts_as_declared(metrics, k) && metrics[k] == x->Some_0 && metrics[k].metric_id@
                    == id
            &&& forall|k: int| #[trigger]
                counts_as_declared(metrics, k) && metrics[k].metric_id@ == id ==> x == Some(
                    metrics[k],
                )
        }),
{
    lemma_declared(metrics, metrics.len() as int, id);
    let x = strmap::lookup(declared_by_id(metrics, metrics.len() as int), id);
    if x is Some {
        let k = choose|k: int|
            #![trigger metrics[k]]
            0 <= k < metrics.len() && metrics[k] == x->Some_0 && x->Some_0.metric_id@ == id
                && forall|j: int|
                k < j < metrics.len() ==> (#[trigger] metrics[j]).metric_id@ != id;
        assert(counts_as_declared(metrics, k));
        assert forall|q: int| #[trigger]
            counts_as_declared(metrics, q) && metrics[q].metric_id@ == id implies q == k by {
            if k < q {
                assert(metrics[q].metric_id@ != id);
            } else if q < k {
                assert(metrics[k].metric_id@ != metrics[q].metric_id@);
            }
        }
    }
}

/// Whether every metric that counts as emitted is declared alike.
spec fn all_declared(own: Seq<MetricDecl>, metrics: Seq<MetricDescriptor>) -> bool {
    forall|k: int| #[trigger]
        counts_as_emitted(metrics, k) ==> exists|j: int| #[trigger]
            counts_as_declared(own, j) && agree(metrics[k], own[j])
}

/// Whether every metric that counts as declared is emitted.
spec fn all_emitted(own: Seq<MetricDecl>, metrics: Seq<MetricDescriptor>) -> bool {
    forall|j: int| #[trigger]
        counts_as_declared(own, j) ==> exists|k: int| #[trigger]
            counts_as_emitted(metrics, k) && metrics[k].metric_id@ == own[j].metric_id@
}

proof fn lemma_all_declared(own: Seq<MetricDecl>, metrics: Seq<MetricDescriptor>)
    ensures
        ({
            let declared = declared_by_id(own, own.len() as int);
            let emitted = emitted_by_id(metrics, metrics.len() as int);
            emitted_drift(emitted, declared, emitted.len() as int).len() == 0 <==> all_declared(
                own,
                metrics,
            )
        }),
{
    let declared = declared_by_id(own, own.len() as int);
    let emitted = emitted_by_id(metrics, metrics.len() as int);
    lemma_no_emitted_drift(emitted, declared, emitted.len() as int);
    lemma_emitted(metrics, metrics.len() as int, Seq::empty());
    if emitted_drift(emitted, declared, emitted.len() as int).len() == 0 {
        assert forall|k: int| #[trigger] counts_as_emitted(metrics, k) implies exists|j: int|
            #[trigger]
            counts_as_declared(own, j) && agree(metrics[k], own[j]) by {
            let id = metrics[k].metric_id@;
            lemma_emitted_counts(metrics, id);
            lemma_declared_counts(own, id);
            strmap::lemma_lookup_iff(emitted, id);
            let p = choose|p: int| 0 <= p < emitted.len() && (#[trigger] emitted[p]).0 == id;
            strmap::lemma_lookup_row(emitted, p);
            assert(metric_drift(
                emitted[p].0,
                emitted[p].1,
                strmap::lookup(declared, emitted[p].0),
            ).len() == 0);
            let y = strmap::lookup(declared, id)->Some_0;
            let j = choose|j: int| #[trigger]
                counts_as_declared(own, j) && own[j] == y && own[j].metric_id@ == id;
            assert(agree(metrics[k], own[j]));
        }
    }
    if all_declared(own, metrics) {
        assert forall|i: int| 0 <= i < emitted.len() implies metric_drift(
            (#[trigger] emitted[i]).0,
            emitted[i].1,
            strmap::lookup(declared, emitted[i].0),
        ).len() == 0 by {
            let id = emitted[i].0;
            strmap::lemma_lookup_row(emitted, i);
            lemma_emitted_counts(metrics, id);
            lemma_declared_counts(own, id);
            let k = choose|k: int| #[trigger]
                counts_as_emitted(metrics, k) && metrics[k] == emitted[i].1
                    && metrics[k].metric_id@ == id;
            let j = choose|j: int| #[trigger]
                counts_as_declared(own, j) && agree(metrics[k], own[j]);
            assert(strmap::lookup(declared, id) == Some(own[j]));
        }
    }
}

proof fn lemma_all_emitted(own: Seq<MetricDecl>, metrics: Seq<MetricDescriptor>)
    ensures
        ({
            let declared = declared_by_id(own, own.len() as int);
            let emitted = emitted_by_id(metrics, metrics.len() as int);
            never_emitted(emitted, declared, declared.len() as int).len() == 0 <==> all_emitted(
                own,
                metrics,
            )
        }),
{
    let declared = declared_by_id(own, own.len() as int);
    let emitted = emitted_by_id(metrics, metrics.len() as int);
    lemma_none_never_emitted(emitted, declared, declared.len() as int);
    lemma_declared(own, own.len() as int, Seq::empty());
    if never_emitted(emitted, declared, declared.len() as int).len() == 0 {
        assert forall|j: int| #[trigger] counts_as_declared(own, j) implies exists|k: int|
            #[trigger]
            counts_as_emitted(metrics, k) && metrics[k].metric_id@ == own[j].metric_id@ by {
            let id = own[j].metric_id@;
            lemma_emitted_counts(metrics, id);
            lemma_declared_counts(own, id);
            strmap::lemma_lookup_iff(declared, id);
            let p = choose|p: int| 0 <= p < declared.len() && (#[trigger] declared[p]).0 == id;
            assert(strmap::has_key(emitted, declared[p].0));
        }
    }
    if all_emitted(own, metrics) {
        assert forall|i: int| 0 <= i < declared.len() implies strmap::has_key(
            emitted,
            (#[trigger] declared[i]).0,
        ) by {
            let id = declared[i].0;
            strmap::lemma_lookup_row(declared, i);
            lemma_declared_counts(own, id);
            lemma_emitted_counts(metrics, id);
            let j = choose|j: int| #[trigger]
                counts_as_declared(own, j) && own[j] == declared[i].1 && own[j].metric_id@ == id;
            let k = choose|k: int| #[trigger]
                counts_as_emitted(metrics, k) && metrics[k].metric_id@ == own[j].metric_id@;
            assert(strmap::lookup(emitted, id) == Some(metrics[k]));
        }
    }
}

/// An engine and its registry file do not differ exactly when they name one engine
/// of one family, every metric the engine emits is declared with the same claim,
/// class and determinism, and every metric that is declared is emitted. Where an id
/// stands twice on one side, the later entry counts.
pub proof fn lemma_when_nothing_has_drifted(
    file: EngineRegistryFile,
    d: EngineDescriptor,
    metrics: Seq<MetricDescriptor>,
)
    ensures
        drift_between(file, d, metrics).len() == 0 <==> {
            &&& file.engine@ == d.engine_id@
            &&& file.family == d.family
            &&& forall|k: int| #[trigger]
                counts_as_emitted(metrics, k) ==> exists|j: int| #[trigger]
                    counts_as_declared(file.metrics@, j) && agree(metrics[k], file.metrics@[j])
            &&& forall|j: int| #[trigger]
                counts_as_declared(file.metrics@, j) ==> exists|k: int| #[trigger]
                    counts_as_emitted(metrics, k) && metrics[k].metric_id@
                        == file.metrics@[j].metric_id@
        },
{
    let own = file.metrics@;
    lemma_all_declared(own, metrics);
    lemma_all_emitted(own, metrics);
    let declared = declared_by_id(own, own.len() as int);
    let emitted = emitted_by_id(metrics, metrics.len() as int);
    assert(drift_between(file, d, metrics).len() >= emitted_drift(
        emitted,
        declared,
        emitted.len() as int,
    ).len() + never_emitted(emitted, declared, declared.len() as int).len());
    assert(all_declared(own, metrics) <==> forall|k: int| #[trigger]
        counts_as_emitted(metrics, k) ==> exists|j: int| #[trigger]
            counts_as_declared(own, j) && agree(metrics[k], own[j]));
    assert(all_emitted(own, metrics) <==> forall|j: int| #[trigger]
        counts_as_declared(own, j) ==> exists|k: int| #[trigger]
            counts_as_emitted(metrics, k) && metrics[k].metric_id@ == own[j].metric_id@);
}

proof fn lemma_unused(m: LintModel, n: int, id: Seq<char>)
    requires
        0 <= n <= m.claims.len(),
    ensures
        unused_claims(m, n).contains(
            notice_of(
                "registry.unused-claim"@,
                "registry"@,
                "claim '"@ + id + "' is not cited by any metric"@,
            ),
        ) <==> exists|i: int|
            0 <= i < n && (#[trigger] m.claims[i]).0 == id && !is_cited(m.metrics, id),
    decreases n,
{
    let said = |c: Seq<char>|
        notice_of(
            "registry.unused-claim"@,
            "registry"@,
            "claim '"@ + c + "' is not cited by any metric"@,
        );
    if n > 0 {
        lemma_unused(m, n - 1, id);
        let before = unused_claims(m, n - 1);
        let all = unused_claims(m, n);
        let last = m.claims[n - 1].0;
        if said(last) == said(id) {
            let front = "claim '"@;
            let back = "' is not cited by any metric"@;
            let x = front + last + back;
            let y = front + id + back;
            assert(x.len() == y.len());
            assert(last =~= x.subrange(front.len() as int, x.len() - back.len()));
            assert(id =~= y.subrange(front.len() as int, y.len() - back.len()));
        }
        if before.contains(said(id)) {
            let i = choose|i: int| 0 <= i < before.len() && before[i] == said(id);
            assert(all[i] == said(id));
            let k = choose|k: int|
                0 <= k < n - 1 && (#[trigger] m.claims[k]).0 == id && !is_cited(m.metrics, id);
            assert(m.claims[k].0 == id);
        }
        if all.contains(said(id)) {
            let i = choose|i: int| 0 <= i < all.len() && all[i] == said(id);
            if i < before.len() {
                assert(before[i] == said(id));
            } else {
                assert(m.claims[n - 1].0 == id);
            }
        }
        if last == id && !is_cited(m.metrics, id) {
            assert(all[all.len() - 1] == said(id));
        }
    }
}

/// A claim is reported as dead weight exactly when the registry holds it and no
/// metric cites it, and that does not fail a build.
pub proof fn lemma_dead_weight_is_reported(m: LintModel, id: Seq<char>)
    requires
        strmap::keys_ascend(m.claims),
    ensures
        unused_claims(m, m.claims.len() as int).contains(
            notice_of(
                "registry.unused-claim"@,
                "registry"@,
                "claim '"@ + id + "' is not cited by any metric"@,
            ),
        ) <==> strmap::has_key(m.claims, id) && forall|i: int|
            0 <= i < m.metrics.len() ==> (#[trigger] m.metrics[i]).1.claim_id@ != id,
{
    lemma_unused(m, m.claims.len() as int, id);
    strmap::lemma_lookup_iff(m.claims, id);
    if forall|i: int| 0 <= i < m.metrics.len() ==> (#[trigger] m.metrics[i]).1.claim_id@ != id {
        assert(!is_cited(m.metrics, id));
    }
    if !is_cited(m.metrics, id) {
        assert forall|i: int| 0 <= i < m.metrics.len() implies (#[trigger] m.metrics[i]).1.claim_id@
            != id by {}
    }
}

// --- what a finding is about ----------------------------------------------

/// Whether some finding has this code and this weight.
pub open spec fn coded(s: Seq<DiagnosticModel>, code: Seq<char>, weight: DiagnosticSeverity) -> bool {
    exists|i: int| 0 <= i < s.len() && (#[trigger] s[i]).code == code && s[i].severity == weight
}

/// Whether every finding is placed at a path and quotes a text.
pub open spec fn all_about(s: Seq<DiagnosticModel>, path: Seq<char>, quoted: Seq<char>) -> bool {
    forall|i: int|
        0 <= i < s.len() ==> (#[trigger] s[i]).location == path && quotes(s[i].message, quoted)
}

/// Whether a message quotes a text.
pub open spec fn quotes(message: Seq<char>, quoted: Seq<char>) -> bool {
    exists|before: Seq<char>, after: Seq<char>|
        message == #[trigger] (before + "'"@ + quoted + "'"@ + after)
}

proof fn lemma_coded_concat(
    a: Seq<DiagnosticModel>,
    b: Seq<DiagnosticModel>,
    path: Seq<char>,
    quoted: Seq<char>,
)
    requires
        all_about(a, path, quoted),
        all_about(b, path, quoted),
    ensures
        all_about(a + b, path, quoted),
        forall|code: Seq<char>, weight: DiagnosticSeverity| #[trigger]
            coded(a + b, code, weight) <==> coded(a, code, weight) || coded(b, code, weight),
{
    let s = a + b;
    assert forall|i: int| 0 <= i < s.len() implies (#[trigger] s[i]).location == path && quotes(
        s[i].message,
        quoted,
    ) by {
        if i < a.len() {
            assert(s[i] == a[i]);
        } else {
            assert(s[i] == b[i - a.len()]);
        }
    }
    assert forall|code: Seq<char>, weight: DiagnosticSeverity| #[trigger]
        coded(s, code, weight) <==> coded(a, code, weight) || coded(b, code, weight) by {
        if coded(a, code, weight) {
            let i = choose|i: int|
                0 <= i < a.len() && (#[trigger] a[i]).code == code && a[i].severity == weight;
            assert(s[i] == a[i]);
        }
        if coded(b, code, weight) {
            let i = choose|i: int|
                0 <= i < b.len() && (#[trigger] b[i]).code == code && b[i].severity == weight;
            assert(s[a.len() + i] == b[i]);
        }
        if coded(s, code, weight) {
            let i = choose|i: int|
                0 <= i < s.len() && (#[trigger] s[i]).code == code && s[i].severity == weight;
            if i < a.len() {
                assert(a[i].code == code);
            } else {
                assert(b[i - a.len()].code == code);
            }
        }
    }
}

/// Whether a list of findings is one finding with this code and weight where a
/// condition holds, and none where it does not.
spec fn one_where(
    s: Seq<DiagnosticModel>,
    holds: bool,
    code: Seq<char>,
    weight: DiagnosticSeverity,
) -> bool {
    if holds {
        s.len() == 1 && s[0].code == code && s[0].severity == weight
    } else {
        s.len() == 0
    }
}

proof fn lemma_one_coded(
    s: Seq<DiagnosticModel>,
    holds: bool,
    code: Seq<char>,
    weight: DiagnosticSeverity,
)
    requires
        one_where(s, holds, code, weight),
    ensures
        forall|c: Seq<char>, w: DiagnosticSeverity| #[trigger]
            coded(s, c, w) <==> holds && c == code && w == weight,
{
    if holds {
        assert(s[0].code == code);
    }
}

proof fn lemma_quoted_at(
    message: Seq<char>,
    head: Seq<char>,
    quoted: Seq<char>,
    tail: Seq<char>,
    before: Seq<char>,
    after: Seq<char>,
)
    requires
        head == before + "'"@,
        tail == "'"@ + after,
        message == head + quoted + tail,
    ensures
        quotes(message, quoted),
{
    assert(message =~= before + "'"@ + quoted + "'"@ + after);
}

proof fn lemma_claim_quoted(path: Seq<char>, c: ClaimModel, as_of: DateModel, known: bool)
    ensures
        all_about(misnamed(path, c), path, c.claim_id),
        all_about(overclaiming(path, c), path, c.claim_id),
        all_about(blank_field(path, c, "citation"@, c.citation), path, c.claim_id),
        all_about(blank_field(path, c, "population"@, c.population), path, c.claim_id),
        all_about(blank_field(path, c, "effect"@, c.effect), path, c.claim_id),
        all_about(blank_field(path, c, "owner"@, c.owner), path, c.claim_id),
        all_about(expired(path, c, as_of), path, c.claim_id),
        all_about(repeated(path, c, known), path, c.claim_id),
{
    let id = c.claim_id;
    reveal_strlit("'");
    reveal_strlit("claim '");
    reveal_strlit("claim_id '");
    reveal_strlit("claim ");
    reveal_strlit("claim_id ");
    assert("claim '"@ =~= "claim "@ + "'"@);
    assert("claim_id '"@ =~= "claim_id "@ + "'"@);
    lemma_opened();
    let t1 = "' does not match its tuple; expected '"@ + c.tuple_id() + "'"@;
    let t2 = "' has an empty does_not_predict; every claim must say what it does not support"@;
    let t7 = "' expired "@ + c.expiry.date_text()
        + " and is demoted to `evidence: stale`; owner "@ + c.owner + " re-reviews"@;
    let t8 = "' is declared more than once"@;
    if misnamed(path, c).len() > 0 {
        let m = misnamed(path, c)[0].message;
        assert(m =~= "claim_id '"@ + id + t1);
        assert(t1 =~= "'"@ + t1.skip(1));
        lemma_quoted_at(m, "claim_id '"@, id, t1, "claim_id "@, t1.skip(1));
    }
    if overclaiming(path, c).len() > 0 {
        let m = overclaiming(path, c)[0].message;
        assert(t2 =~= "'"@ + t2.skip(1));
        lemma_quoted_at(m, "claim '"@, id, t2, "claim "@, t2.skip(1));
    }
    lemma_blank_quoted(path, c, "citation"@, c.citation);
    lemma_blank_quoted(path, c, "population"@, c.population);
    lemma_blank_quoted(path, c, "effect"@, c.effect);
    lemma_blank_quoted(path, c, "owner"@, c.owner);
    if expired(path, c, as_of).len() > 0 {
        let m = expired(path, c, as_of)[0].message;
        assert(m =~= "claim '"@ + id + t7);
        assert(t7 =~= "'"@ + t7.skip(1));
        lemma_quoted_at(m, "claim '"@, id, t7, "claim "@, t7.skip(1));
    }
    if repeated(path, c, known).len() > 0 {
        let m = repeated(path, c, known)[0].message;
        assert(t8 =~= "'"@ + t8.skip(1));
        lemma_quoted_at(m, "claim_id '"@, id, t8, "claim_id "@, t8.skip(1));
    }
}

/// What follows a quoted id closes the quotes.
proof fn lemma_opened()
    ensures
        "' does not match its tuple; expected '"@.len() > 0,
        "' does not match its tuple; expected '"@[0] == '\'',
        "' has an empty does_not_predict; every claim must say what it does not support"@.len() > 0,
        "' has an empty does_not_predict; every claim must say what it does not support"@[0] == '\'',
        "' has an empty "@.len() > 0,
        "' has an empty "@[0] == '\'',
        "' expired "@.len() > 0,
        "' expired "@[0] == '\'',
        "' is declared more than once"@.len() > 0,
        "' is declared more than once"@[0] == '\'',
{
    reveal_strlit("' does not match its tuple; expected '");
    reveal_strlit("' has an empty does_not_predict; every claim must say what it does not support");
    reveal_strlit("' has an empty ");
    reveal_strlit("' expired ");
    reveal_strlit("' is declared more than once");
}

proof fn lemma_blank_quoted(path: Seq<char>, c: ClaimModel, field: Seq<char>, value: Seq<char>)
    ensures
        all_about(blank_field(path, c, field, value), path, c.claim_id),
{
    reveal_strlit("'");
    reveal_strlit("claim '");
    reveal_strlit("claim ");
    assert("claim '"@ =~= "claim "@ + "'"@);
    lemma_opened();
    let t = "' has an empty "@ + field;
    if blank_field(path, c, field, value).len() > 0 {
        let m = blank_field(path, c, field, value)[0].message;
        assert(m =~= "claim '"@ + c.claim_id + t);
        assert(t =~= "'"@ + t.skip(1));
        lemma_quoted_at(m, "claim '"@, c.claim_id, t, "claim "@, t.skip(1));
    }
}

/// What the lint says of one claim, and when: that its id is not the one its parts
/// make, that a part is missing, that it is past its date, or that it was declared
/// before. Only the date is no more than a notice. Every finding is placed in the
/// claim's file and quotes its id.
pub proof fn lemma_what_is_found_in_a_claim(
    path: Seq<char>,
    c: ClaimModel,
    as_of: DateModel,
    known: bool,
)
    ensures
        ({
            let found = claim_findings(path, c, as_of, known);
            let error = DiagnosticSeverity::Error;
            &&& coded(found, "registry.claim-id-format"@, error) <==> c.claim_id
                != c.implementation + "@"@ + c.implementation_version + "|"@ + c.language + "|"@
                + c.outcome
            &&& coded(found, "registry.missing-field"@, error) <==> c.does_not_predict.len() == 0
                || text::is_blank(c.citation) || text::is_blank(c.population) || text::is_blank(
                c.effect,
            ) || text::is_blank(c.owner)
            &&& coded(found, "registry.evidence-stale"@, DiagnosticSeverity::Notice)
                <==> as_of.after(c.expiry)
            &&& coded(found, "registry.duplicate-claim"@, error) <==> known
            &&& all_about(found, path, c.claim_id)
        }),
{
    let id = c.claim_id;
    let error = DiagnosticSeverity::Error;
    let p1 = misnamed(path, c);
    let p2 = overclaiming(path, c);
    let p3 = blank_field(path, c, "citation"@, c.citation);
    let p4 = blank_field(path, c, "population"@, c.population);
    let p5 = blank_field(path, c, "effect"@, c.effect);
    let p6 = blank_field(path, c, "owner"@, c.owner);
    let p7 = expired(path, c, as_of);
    let p8 = repeated(path, c, known);
    lemma_claim_quoted(path, c, as_of, known);
    lemma_coded_concat(p1, p2, path, id);
    lemma_coded_concat(p1 + p2, p3, path, id);
    lemma_coded_concat(p1 + p2 + p3, p4, path, id);
    lemma_coded_concat(p1 + p2 + p3 + p4, p5, path, id);
    lemma_coded_concat(p1 + p2 + p3 + p4 + p5, p6, path, id);
    lemma_coded_concat(p1 + p2 + p3 + p4 + p5 + p6, p7, path, id);
    lemma_coded_concat(p1 + p2 + p3 + p4 + p5 + p6 + p7, p8, path, id);
    lemma_one_coded(p1, id != c.tuple_id(), "registry.claim-id-format"@, error);
    lemma_one_coded(p2, c.does_not_predict.len() == 0, "registry.missing-field"@, error);
    lemma_one_coded(p3, text::is_blank(c.citation), "registry.missing-field"@, error);
    lemma_one_coded(p4, text::is_blank(c.population), "registry.missing-field"@, error);
    lemma_one_coded(p5, text::is_blank(c.effect), "registry.missing-field"@, error);
    lemma_one_coded(p6, text::is_blank(c.owner), "registry.missing-field"@, error);
    lemma_one_coded(
        p7,
        as_of.after(c.expiry),
        "registry.evidence-stale"@,
        DiagnosticSeverity::Notice,
    );
    lemma_one_coded(p8, known, "registry.duplicate-claim"@, error);
    lemma_claim_codes_differ();
}

proof fn lemma_claim_codes_differ()
    ensures
        "registry.claim-id-format"@ != "registry.missing-field"@,
        "registry.claim-id-format"@ != "registry.duplicate-claim"@,
        "registry.missing-field"@ != "registry.duplicate-claim"@,
{
    reveal_strlit("registry.claim-id-format");
    reveal_strlit("registry.missing-field");
    reveal_strlit("registry.duplicate-claim");
    assert("registry.claim-id-format"@.len() == 24);
    assert("registry.missing-field"@.len() == 22);
    assert("registry.duplicate-claim"@.len() == 24);
    assert("registry.claim-id-format"@[9] != "registry.duplicate-claim"@[9]);
}

proof fn lemma_pushed_coded(
    s: Seq<DiagnosticModel>,
    d: DiagnosticModel,
    code: Seq<char>,
    weight: DiagnosticSeverity,
)
    ensures
        coded(s + seq![d], code, weight) <==> coded(s, code, weight) || (d.code == code
            && d.severity == weight),
{
    let t = s + seq![d];
    assert(t[s.len() as int] == d);
    if coded(s, code, weight) {
        let i = choose|i: int|
            0 <= i < s.len() && (#[trigger] s[i]).code == code && s[i].severity == weight;
        assert(t[i] == s[i]);
    }
    if coded(t, code, weight) {
        let i = choose|i: int|
            0 <= i < t.len() && (#[trigger] t[i]).code == code && t[i].severity == weight;
        if i < s.len() {
            assert(s[i].code == code);
        }
    }
}

proof fn lemma_unmapped_coded(m: LintModel, n: int)
    requires
        0 <= n <= m.metrics.len(),
    ensures
        coded(unmapped_metrics(m, n), "registry.unmapped-metric"@, DiagnosticSeverity::Error)
            <==> exists|i: int|
            0 <= i < n && !strmap::has_key(m.claims, (#[trigger] m.metrics[i]).1.claim_id@),
    decreases n,
{
    let code = "registry.unmapped-metric"@;
    let error = DiagnosticSeverity::Error;
    if n > 0 {
        lemma_unmapped_coded(m, n - 1);
        let before = unmapped_metrics(m, n - 1);
        let all = unmapped_metrics(m, n);
        if strmap::has_key(m.claims, m.metrics[n - 1].1.claim_id@) {
            assert(all == before);
        } else {
            let d = all.last();
            assert(all =~= before + seq![d]);
            lemma_pushed_coded(before, d, code, error);
        }
        if coded(before, code, error) {
            let i = choose|i: int|
                0 <= i < n - 1 && !strmap::has_key(m.claims, (#[trigger] m.metrics[i]).1.claim_id@);
            assert(!strmap::has_key(m.claims, m.metrics[i].1.claim_id@));
        }
    }
}

proof fn lemma_crowded_coded(
    claims: Seq<(Seq<char>, ResolvedModel)>,
    months: Seq<(Seq<char>, ())>,
    limit: int,
    n: int,
)
    requires
        0 <= n <= months.len(),
    ensures
        coded(
            crowded_months(claims, months, limit, n),
            "registry.expiry-stagger"@,
            DiagnosticSeverity::Error,
        ) <==> exists|i: int|
            0 <= i < n && due_in(claims, (#[trigger] months[i]).0, claims.len() as int) > limit,
    decreases n,
{
    let code = "registry.expiry-stagger"@;
    let error = DiagnosticSeverity::Error;
    if n > 0 {
        lemma_crowded_coded(claims, months, limit, n - 1);
        let before = crowded_months(claims, months, limit, n - 1);
        let all = crowded_months(claims, months, limit, n);
        if due_in(claims, months[n - 1].0, claims.len() as int) > limit {
            let d = all.last();
            assert(all =~= before + seq![d]);
            lemma_pushed_coded(before, d, code, error);
        } else {
            assert(all == before);
        }
        if coded(before, code, error) {
            let i = choose|i: int|
                0 <= i < n - 1 && due_in(claims, (#[trigger] months[i]).0, claims.len() as int)
                    > limit;
            assert(due_in(claims, months[i].0, claims.len() as int) > limit);
        }
    }
}

/// What the lint says of a registry as a whole, and when: that a metric cites a claim
/// nobody declares, that there are more claims than the budget, and that a month has
/// more of them falling due than the limit.
pub proof fn lemma_what_is_found_in_a_registry(m: LintModel, policy: RegistryPolicy)
    ensures
        ({
            let error = DiagnosticSeverity::Error;
            let months = months_due(m.claims, m.claims.len() as int);
            let limit = policy.max_claims_expiring_per_month as int;
            &&& coded(
                unmapped_metrics(m, m.metrics.len() as int),
                "registry.unmapped-metric"@,
                error,
            ) <==> exists|i: int|
                0 <= i < m.metrics.len() && !strmap::has_key(
                    m.claims,
                    (#[trigger] m.metrics[i]).1.claim_id@,
                )
            &&& coded(
                over_budget(m, policy.claim_budget as int),
                "registry.claim-budget"@,
                error,
            ) <==> m.claims.len() > policy.claim_budget
            &&& coded(
                crowded_months(m.claims, months, limit, months.len() as int),
                "registry.expiry-stagger"@,
                error,
            ) <==> exists|i: int|
                0 <= i < months.len() && due_in(
                    m.claims,
                    (#[trigger] months[i]).0,
                    m.claims.len() as int,
                ) > limit
        }),
{
    let months = months_due(m.claims, m.claims.len() as int);
    let limit = policy.max_claims_expiring_per_month as int;
    lemma_unmapped_coded(m, m.metrics.len() as int);
    lemma_crowded_coded(m.claims, months, limit, months.len() as int);
    if m.claims.len() > policy.claim_budget {
        assert(over_budget(m, policy.claim_budget as int)[0].code == "registry.claim-budget"@);
    }
}

/// What reading one metric, and one file of another version, adds to the findings.
pub proof fn lemma_what_reading_finds(
    m: LintModel,
    path: Seq<char>,
    metric: MetricDecl,
    file: EngineRegistryFile,
    as_of: DateModel,
)
    ensures
        ({
            let after = after_metric(m, path, metric);
            let found = after.diagnostics.skip(m.diagnostics.len() as int);
            &&& after.diagnostics == m.diagnostics + found
            &&& found.len() == if strmap::has_key(m.metrics, metric.metric_id@) {
                1nat
            } else {
                0nat
            }
            &&& found.len() > 0 ==> found[0].code == "registry.duplicate-metric"@
                && found[0].severity == DiagnosticSeverity::Error && found[0].location == path
        }),
        file.schema_version != 1 ==> {
            let after = after_file(m, path, file, as_of);
            let found = after.diagnostics.skip(m.diagnostics.len() as int);
            &&& after.diagnostics == m.diagnostics + found
            &&& found.len() == 1
            &&& found[0].code == "registry.schema-version"@
            &&& found[0].severity == DiagnosticSeverity::Error
            &&& found[0].location == path
            &&& after.claims == m.claims
            &&& after.metrics == m.metrics
        },
{
    let one = after_metric(m, path, metric);
    assert(one.diagnostics =~= m.diagnostics + one.diagnostics.skip(m.diagnostics.len() as int));
    if file.schema_version != 1 {
        let two = after_file(m, path, file, as_of);
        assert(two.diagnostics =~= m.diagnostics + two.diagnostics.skip(
            m.diagnostics.len() as int,
        ));
    }
}

/// The errors of a report are its findings that fail the build, in the order they
/// stand.
pub proof fn lemma_the_errors(s: Seq<DiagnosticModel>)
    ensures
        errors_among(s) == s.filter(
            |d: DiagnosticModel| d.severity == DiagnosticSeverity::Error,
        ),
    decreases s.len(),
{
    reveal(Seq::filter);
    if s.len() > 0 {
        lemma_the_errors(s.drop_last());
    }
}

} // verus!
