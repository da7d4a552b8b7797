//! Assembly: what a set of engine outputs must be to become one record.

use std::collections::BTreeSet;

use andon_core::canonical::to_canonical_string;
use andon_core::date::Date;
use andon_core::engine::{admit_results, EngineDescriptor};
use andon_core::parse_health;
use andon_core::payload::registry_load::{self, LoadedRegistry};
use andon_core::payload::{
    group_by_engine, prepare, scope_key, AssembleRequest, AssemblyError, EngineOutput,
};
use andon_core::policy::{Policy, RegistryPolicy};
use andon_core::registry::{Claim, EngineRegistryFile, MetricDecl};
use andon_core::schema::enums::{
    Attestation, Completeness, EngineClass, EngineFamily, EvidenceTier, InvocationSource, Lane,
    MetricClass, RecordKind, Severity, TamperSignal, Verdict,
};
use andon_core::schema::payload::{
    CacheState, CompareContext, EvidenceRef, Freshness, Invocation, IterationState,
    MeasurementResult, MetricValue, Ratio, Reserved, ResultScope, ScopeKind, ToolIdentity,
    SCHEMA_VERSION,
};
use andon_core::schema::regime::MeasurementRegime;
use andon_core::strmap::StrMap;
use andon_core::testing::sample_compare_context;
use andon_core::verdict::iteration::{Advance, IterationStore, LoopOutcome, StoredState};
use andon_core::verdict::ladder::SeverityLadder;
use andon_core::verdict::{policy_change, reason, EngineFailure};

fn as_of() -> Date {
    "2026-08-17".parse().expect("a valid date")
}

fn compare_context() -> CompareContext {
    sample_compare_context()
}

fn claim(claim_id: &str, tier: EvidenceTier, expiry: &str) -> Claim {
    let (implementation, rest) = claim_id.split_once('@').expect("a versioned claim id");
    let mut parts = rest.split('|');
    Claim {
        claim_id: claim_id.to_string(),
        implementation: implementation.to_string(),
        implementation_version: parts.next().expect("a version").to_string(),
        language: parts.next().expect("a language").to_string(),
        outcome: parts.next().expect("an outcome").to_string(),
        tier,
        citation: "test fixture".to_string(),
        citation_ref: None,
        population: "test fixture".to_string(),
        effect: "test fixture".to_string(),
        does_not_predict: vec!["anything, this is a fixture".to_string()],
        owner: "gtm-k".to_string(),
        expiry: expiry.parse().expect("a valid date"),
    }
}

fn metric(metric_id: &str, claim_id: &str, class: MetricClass, deterministic: bool) -> MetricDecl {
    MetricDecl {
        metric_id: metric_id.to_string(),
        claim_id: claim_id.to_string(),
        class,
        deterministic,
    }
}

/// One registry file with one metric and the claim behind it.
fn file(
    engine: &str,
    family: EngineFamily,
    decl: MetricDecl,
    tier: EvidenceTier,
    expiry: &str,
) -> (String, EngineRegistryFile) {
    let claims = vec![claim(&decl.claim_id, tier, expiry)];
    (
        format!("{engine}.toml"),
        EngineRegistryFile {
            schema_version: 1,
            engine: engine.to_string(),
            family,
            metrics: vec![decl],
            claims,
        },
    )
}

/// Five engines, one metric each. Two claims fall due in one month.
fn shipped_files() -> Vec<(String, EngineRegistryFile)> {
    vec![
        file(
            "artifacts",
            EngineFamily::Artifacts,
            metric(
                "artifacts.uncovered-changed-lines",
                "andon.artifacts.diff-coverage@1|any|test-gap",
                MetricClass::ContextInformational,
                false,
            ),
            EvidenceTier::C,
            "2027-05-01",
        ),
        file(
            "clones",
            EngineFamily::Clones,
            metric(
                "clones.duplicated-tokens",
                "andon.clones.token-duplication@1|any|token-duplication",
                MetricClass::DiffActionable,
                true,
            ),
            EvidenceTier::N,
            "2027-01-01",
        ),
        file(
            "process",
            EngineFamily::Process,
            metric(
                "process.churn-commits",
                "andon.process.churn@1|any|defect-proneness",
                MetricClass::ContextInformational,
                true,
            ),
            EvidenceTier::B,
            "2027-03-01",
        ),
        file(
            "static-metrics",
            EngineFamily::Static,
            metric(
                "static.cognitive-complexity.typescript",
                "andon.static.cognitive@1|typescript|comprehension-time",
                MetricClass::DiffActionable,
                true,
            ),
            EvidenceTier::B,
            "2027-03-15",
        ),
        file(
            "tamper",
            EngineFamily::Tamper,
            metric(
                "tamper.test-removal",
                "andon.tamper.test-evidence@1|any|test-evidence-withdrawal",
                MetricClass::DiffActionable,
                true,
            ),
            EvidenceTier::N,
            "2027-02-01",
        ),
    ]
}

fn load_shipped(policy: &RegistryPolicy, as_of: Date) -> Result<LoadedRegistry, String> {
    registry_load::load_files(&shipped_files(), policy, as_of, "test")
        .map_err(|e| format!("{e:?}"))
}

fn shipped_registry() -> LoadedRegistry {
    load_shipped(&RegistryPolicy::default(), as_of()).expect("the registry must load")
}

fn registry_from(files: Vec<(String, EngineRegistryFile)>) -> LoadedRegistry {
    registry_load::load_files(&files, &RegistryPolicy::default(), as_of(), "test")
        .expect("fixture registry lints")
}

fn one_engine_file() -> (String, EngineRegistryFile) {
    file(
        "clones",
        EngineFamily::Clones,
        metric(
            "clones.duplicated-tokens",
            "andon.clones.token-duplication@1|any|token-duplication",
            MetricClass::DiffActionable,
            true,
        ),
        EvidenceTier::N,
        "2027-01-01",
    )
}

fn colliding_file() -> (String, EngineRegistryFile) {
    file(
        "static-metrics",
        EngineFamily::Static,
        metric(
            "static.sloc",
            "andon.static.sloc@1|any|maintenance-effort",
            MetricClass::ContextInformational,
            true,
        ),
        EvidenceTier::B,
        "2027-02-01",
    )
}

fn spike_file() -> (String, EngineRegistryFile) {
    file(
        "spike-size",
        EngineFamily::Static,
        metric(
            "spike.changed-files",
            "andon.spike.changed-files@1|any|change-size",
            MetricClass::ContextInformational,
            true,
        ),
        EvidenceTier::N,
        "2027-04-01",
    )
}

fn renamed_detector_file() -> (String, EngineRegistryFile) {
    file(
        "tamper",
        EngineFamily::Tamper,
        metric(
            "tamper.renamed-detector",
            "andon.tamper.x@1|any|x",
            MetricClass::DiffActionable,
            true,
        ),
        EvidenceTier::N,
        "2027-02-01",
    )
}

fn one_entry(key: &str, value: &str) -> StrMap<String> {
    let mut map = StrMap::new();
    map.insert(key.to_string(), value.to_string());
    map
}

/// The roster of a registry.
fn expected(registry: &LoadedRegistry) -> Vec<String> {
    (0..registry.expected_engines.len())
        .map(|i| registry.expected_engines.key_at(i).clone())
        .collect()
}

fn regime(family: EngineFamily) -> MeasurementRegime {
    match family {
        EngineFamily::Static => MeasurementRegime::Static {
            engine_version: "0.1.0".to_string(),
            spec_revision: "p2-static-2".to_string(),
            grammars: one_entry("typescript", "0.23.2"),
        },
        EngineFamily::Clones => MeasurementRegime::Clones {
            engine_version: "0.1.0".to_string(),
            algorithm: "rabin-karp".to_string(),
            min_tokens: 50,
            window_tokens: 25,
            normalization_revision: "rules2".to_string(),
        },
        EngineFamily::Tamper => MeasurementRegime::Tamper {
            engine_version: "0.1.0".to_string(),
            detector_set_revision: "d1".to_string(),
            rule_pack_version: "pack2".to_string(),
        },
        EngineFamily::Process => MeasurementRegime::Process {
            engine_version: "0.1.0".to_string(),
            git_version: "git version 2.51.0".to_string(),
            history_window_days: 365,
        },
        EngineFamily::Artifacts => MeasurementRegime::Artifacts {
            engine_version: "0.1.0".to_string(),
            parser_versions: one_entry("lcov", "1.0"),
        },
        EngineFamily::Tests => MeasurementRegime::Tests {
            engine_version: "0.1.0".to_string(),
            command: "make check".to_string(),
            sandbox: "none".to_string(),
        },
    }
}

fn result(
    registry: &LoadedRegistry,
    engine_id: &str,
    family: EngineFamily,
    metric_id: &str,
    claim_id: &str,
    value: MetricValue,
) -> MeasurementResult {
    let mut result = MeasurementResult {
        metric_id: metric_id.to_string(),
        claim_id: claim_id.to_string(),
        engine_id: engine_id.to_string(),
        family,
        engine_class: EngineClass::StaticSafe,
        metric_class: declared(registry, metric_id).0,
        deterministic: declared(registry, metric_id).1,
        scope: ResultScope {
            kind: ScopeKind::Change,
            path: None,
            blob_oid: None,
            symbol: None,
            line_span: None,
        },
        value,
        delta: None,
        severity: Severity::Info,
        completeness: Completeness::Complete,
        measurement_regime: regime(family),
        evidence: EvidenceRef {
            claim_id: claim_id.to_string(),
            tier: registry
                .registry
                .claims
                .get(claim_id)
                .map_or(EvidenceTier::B, |c| c.claim.tier),
            citation: "as the engine resolved it".to_string(),
            does_not_predict: Vec::new(),
            stale: false,
        },
        digest: String::new(),
        freshness: Freshness {
            measured_at: "2026-08-17T09:00:00Z".to_string(),
            duration_ms: 1,
            lane: Lane::Fast,
            cache: CacheState::Cold,
        },
    };
    result.seal(&compare_context()).expect("seals");
    result
}

fn declared(registry: &LoadedRegistry, metric_id: &str) -> (MetricClass, bool) {
    let decl = registry
        .registry
        .metrics
        .get(metric_id)
        .unwrap_or_else(|| panic!("the registry under test declares '{metric_id}'"));
    (decl.class, decl.deterministic)
}

fn descriptor(engine_id: &str, family: EngineFamily) -> EngineDescriptor {
    EngineDescriptor {
        engine_id: engine_id.to_string(),
        family,
        class: EngineClass::StaticSafe,
        version: "0.1.0".to_string(),
    }
}

fn output(engine_id: &str, family: EngineFamily, results: Vec<MeasurementResult>) -> EngineOutput {
    EngineOutput {
        descriptor: descriptor(engine_id, family),
        results,
    }
}

fn five_engines(registry: &LoadedRegistry) -> Vec<EngineOutput> {
    vec![
        output(
            "static-metrics",
            EngineFamily::Static,
            vec![result(
                registry,
                "static-metrics",
                EngineFamily::Static,
                "static.cognitive-complexity.typescript",
                "andon.static.cognitive@1|typescript|comprehension-time",
                MetricValue::Count(12),
            )],
        ),
        output(
            "clones",
            EngineFamily::Clones,
            vec![result(
                registry,
                "clones",
                EngineFamily::Clones,
                "clones.duplicated-tokens",
                "andon.clones.token-duplication@1|any|token-duplication",
                MetricValue::Count(0),
            )],
        ),
        output(
            "tamper",
            EngineFamily::Tamper,
            vec![result(
                registry,
                "tamper",
                EngineFamily::Tamper,
                "tamper.test-removal",
                "andon.tamper.test-evidence@1|any|test-evidence-withdrawal",
                MetricValue::Flag(false),
            )],
        ),
        output(
            "process",
            EngineFamily::Process,
            vec![result(
                registry,
                "process",
                EngineFamily::Process,
                "process.churn-commits",
                "andon.process.churn@1|any|defect-proneness",
                MetricValue::Count(4),
            )],
        ),
        output(
            "artifacts",
            EngineFamily::Artifacts,
            vec![result(
                registry,
                "artifacts",
                EngineFamily::Artifacts,
                "artifacts.uncovered-changed-lines",
                "andon.artifacts.diff-coverage@1|any|test-gap",
                MetricValue::Count(0),
            )],
        ),
    ]
}

fn request<'a>(
    policy: &'a Policy,
    registry: &'a LoadedRegistry,
    engines: Vec<EngineOutput>,
) -> AssembleRequest<'a> {
    let mut engines = engines;
    let supplied: BTreeSet<String> = engines
        .iter()
        .map(|e| e.descriptor.engine_id.clone())
        .collect();
    for engine_id in expected(registry) {
        if !supplied.contains(&engine_id) {
            engines.push(output(&engine_id, family_of(&engine_id), Vec::new()));
        }
    }
    bare_request(policy, registry, engines)
}

fn family_of(engine_id: &str) -> EngineFamily {
    match engine_id {
        "static-metrics" => EngineFamily::Static,
        "clones" => EngineFamily::Clones,
        "tamper" => EngineFamily::Tamper,
        "process" => EngineFamily::Process,
        "artifacts" => EngineFamily::Artifacts,
        other => panic!("no family known for engine '{other}'"),
    }
}

fn failed<'a>(mut req: AssembleRequest<'a>, engine_id: &str, reason: &str) -> AssembleRequest<'a> {
    req.engines
        .retain(|output| output.descriptor.engine_id != engine_id);
    req.engine_failures.push(EngineFailure {
        engine_id: engine_id.to_string(),
        reason: reason.to_string(),
    });
    req
}

fn bare_request<'a>(
    policy: &'a Policy,
    registry: &'a LoadedRegistry,
    engines: Vec<EngineOutput>,
) -> AssembleRequest<'a> {
    AssembleRequest {
        substitution: None,
        unreadable_paths: Vec::new(),
        self_measure: None,
        tool: ToolIdentity {
            name: "andon".to_string(),
            version: "0.1.0".to_string(),
            build_oid: "4".repeat(40),
            attested_release: false,
        },
        record_kind: RecordKind::SelfReport,
        compare_context: compare_context(),
        invocation: Invocation {
            source: InvocationSource::Hook,
            harness: Some("sample-harness".to_string()),
            model: None,
            author: None,
            iteration: 1,
        },
        reserved: Reserved::default(),
        policy,
        registry,
        engines,
        engine_failures: Vec::new(),
        policy_change: None,
    }
}

fn advance(count: u32, cap: u32) -> Advance {
    Advance {
        contended: false,
        state: IterationState {
            count,
            cap,
            escalated: count > cap,
        },
        recovered: false,
    }
}

#[test]
fn a_tier_the_two_registries_grade_differently_is_reported() {
    let policy = Policy::default();
    let registry = shipped_registry();
    let mut engines = five_engines(&registry);
    engines[0].results[0].evidence.tier = EvidenceTier::A;

    let record = prepare(request(&policy, &registry, engines))
        .expect("assembles")
        .finish(advance(0, 3));
    let notice = record
        .verdict
        .reasons
        .iter()
        .find(|r| r.code == reason::EVIDENCE_REGISTRY_SKEW)
        .expect("a disagreement between two registries is never silent");
    assert_eq!(notice.severity, Severity::Info);
    assert!(
        notice
            .message
            .contains("andon.static.cognitive@1|typescript|comprehension-time"),
        "{}",
        notice.message
    );

    let reported = record
        .results
        .iter()
        .find(|r| r.metric_id == "static.cognitive-complexity.typescript")
        .expect("the result is in the record");
    assert_eq!(reported.evidence.tier, EvidenceTier::A);

    let agreeing = prepare(request(&policy, &registry, five_engines(&registry)))
        .expect("assembles")
        .finish(advance(0, 3));
    assert!(
        !agreeing
            .verdict
            .reasons
            .iter()
            .any(|r| r.code == reason::EVIDENCE_REGISTRY_SKEW),
        "and two registries that agree say nothing"
    );
}

#[test]
fn a_re_review_schedule_never_stops_a_measurement() {
    let tight = RegistryPolicy {
        max_claims_expiring_per_month: 1,
        ..RegistryPolicy::default()
    };
    let loaded = load_shipped(&tight, as_of())
        .expect("a scheduling breach must not stop a measurement");
    assert!(
        loaded
            .notices
            .iter()
            .any(|d| d.code == "registry.expiry-stagger"),
        "and it is still reported: {:?}",
        loaded.notices.iter().map(|d| d.code).collect::<Vec<_>>()
    );

    let over_budget = RegistryPolicy {
        claim_budget: 1,
        ..RegistryPolicy::default()
    };
    assert!(
        load_shipped(&over_budget, as_of()).is_err(),
        "a claim budget breach is about evidence and still refuses"
    );
}

#[test]
fn a_measurement_that_could_not_see_does_not_clear_the_budget() {
    let policy = Policy::default();
    let registry = shipped_registry();

    let clean = prepare(request(&policy, &registry, five_engines(&registry))).expect("assembles");
    assert!(!clean.has_countable_finding());
    assert_eq!(clean.completeness(), Completeness::Complete);
    assert_eq!(
        clean.loop_outcome(),
        LoopOutcome::Finished,
        "a clean look at everything ends the loop"
    );

    let blinded = prepare(failed(
        request(&policy, &registry, five_engines(&registry)),
        "artifacts",
        "no coverage report in the tree",
    ))
    .expect("assembles");
    assert!(!blinded.has_countable_finding());
    assert_eq!(
        blinded.loop_outcome(),
        LoopOutcome::Inconclusive,
        "a run that could not see is not evidence that the loop ended"
    );
}

#[test]
fn a_path_nothing_could_read_does_not_clear_the_budget_either() {
    let policy = Policy::default();
    let registry = shipped_registry();

    let mut req = request(&policy, &registry, five_engines(&registry));
    req.unreadable_paths = vec!["src/work.ts".to_string()];
    let blinded = prepare(req).expect("assembles");

    assert!(
        !blinded.has_countable_finding(),
        "an unreadable path is not something the agent's next edit answers, and counting it \
         would grind the loop to escalation over a permission bit"
    );
    assert_eq!(
        blinded.loop_outcome(),
        LoopOutcome::Inconclusive,
        "a run over a path nothing could read is not evidence that the loop ended"
    );
}

#[test]
fn an_honest_absence_still_ends_the_loop() {
    let policy = Policy::default();
    let registry = shipped_registry();

    let mut engines = five_engines(&registry);
    let marker = engines
        .iter_mut()
        .find(|output| output.descriptor.engine_id == "artifacts")
        .expect("the artifacts engine is in the roster");
    for result in &mut marker.results {
        result.completeness = Completeness::Unwitnessed;
        result.value = MetricValue::Text("unwitnessed: no coverage report found".to_string());
        result
            .seal(&compare_context())
            .expect("re-seals after the edit");
    }

    let honest = prepare(request(&policy, &registry, engines)).expect("assembles");
    assert!(!honest.has_countable_finding());
    assert_eq!(
        honest.completeness(),
        Completeness::Unwitnessed,
        "the record still reports the weakest of its results, which is the honest value"
    );
    assert_eq!(
        honest.loop_outcome(),
        LoopOutcome::Finished,
        "an engine that looked and reported an absence has answered; the loop is over"
    );
}

#[test]
fn a_half_read_file_still_holds_the_budget() {
    let policy = Policy::default();
    let registry = shipped_registry();

    let mut engines = five_engines(&registry);
    let degraded = engines
        .iter_mut()
        .find(|output| output.descriptor.engine_id == "static-metrics")
        .expect("the static engine is in the roster");
    for result in &mut degraded.results {
        result.completeness = Completeness::ParseDegraded;
        result
            .seal(&compare_context())
            .expect("re-seals after the edit");
    }

    let blinded = prepare(request(&policy, &registry, engines)).expect("assembles");
    assert!(!blinded.has_countable_finding());
    assert_eq!(
        blinded.loop_outcome(),
        LoopOutcome::Inconclusive,
        "a number computed over a file the parser gave up on is not evidence the loop ended"
    );
}

#[test]
fn an_inconclusive_run_holds_the_count_rather_than_advancing_or_clearing_it() {
    let mut store = IterationStore::open(StoredState::Absent);

    for pass in 0..3 {
        store
            .advance(
                "feat/a",
                3,
                LoopOutcome::Countable,
                &format!("base..head{pass}"),
            );
    }
    assert_eq!(store.peek("feat/a", 3).count, 3);

    store
        .advance("feat/a", 3, LoopOutcome::Inconclusive, "base..head3");
    assert_eq!(
        store.peek("feat/a", 3).count,
        3,
        "held: neither advanced nor cleared"
    );

    store
        .advance("feat/a", 3, LoopOutcome::Finished, "base..head4");
    assert_eq!(store.peek("feat/a", 3).count, 0);
}

#[test]
fn the_counter_is_the_only_writer_of_the_pass_number() {
    let policy = Policy::default();
    let registry = shipped_registry();
    let mut req = request(&policy, &registry, five_engines(&registry));
    req.invocation.iteration = 99;
    let record = prepare(req).expect("assembles").finish(advance(2, 3));
    assert_eq!(record.verdict.iteration.count, 2);
    assert_eq!(
        record.invocation.iteration, 2,
        "the counter's answer, not the caller's belief"
    );
}

#[test]
fn a_measurement_that_did_not_see_everything_says_so_in_the_verdict() {
    let policy = Policy::default();
    let registry = shipped_registry();
    let mut engines = five_engines(&registry);
    engines[0].results[0].completeness = Completeness::Unwitnessed;
    engines[0].results[0].seal(&compare_context()).unwrap();

    let record = prepare(request(&policy, &registry, engines))
        .expect("assembles")
        .finish(advance(0, 3));
    let notice = record
        .verdict
        .reasons
        .iter()
        .find(|r| r.code == reason::MEASUREMENT_INCOMPLETE)
        .expect("incompleteness is never silent");
    assert_eq!(notice.severity, Severity::Info);
    assert!(notice.message.contains("unwitnessed"), "{}", notice.message);

    let whole = prepare(request(&policy, &registry, five_engines(&registry)))
        .expect("assembles")
        .finish(advance(0, 3));
    assert!(
        !whole
            .verdict
            .reasons
            .iter()
            .any(|r| r.code == reason::MEASUREMENT_INCOMPLETE),
        "and a complete measurement does not say it twice"
    );
}

#[test]
fn a_self_report_cannot_mint_a_verified_justification() {
    let policy = Policy::default();
    let registry = shipped_registry();
    let mut req = request(&policy, &registry, five_engines(&registry));
    req.policy_change = Some(policy_change::PolicyChange {
        deltas: Vec::new(),
        justification: Some(policy_change::Justification::Verified {
            reference: "andon-ledger#12".to_string(),
            summary: "we checked our own homework".to_string(),
        }),
    });
    assert_eq!(
        prepare(req).expect_err("a self-report cannot verify anything"),
        AssemblyError::UnverifiableJustification {
            reference: "andon-ledger#12".to_string()
        }
    );
}

#[test]
fn a_self_report_may_carry_an_unverified_justification_and_it_suppresses_nothing() {
    let policy = Policy::default();
    let registry = shipped_registry();
    let mut head = policy.clone();
    head.severity.block_on_tamper = false;
    let mut req = request(&policy, &registry, five_engines(&registry));
    req.policy_change = Some(policy_change::evaluate(
        &policy,
        &head,
        Some(policy_change::Justification::Unverified {
            reference: "andon-ledger#12".to_string(),
            summary: "queued for review".to_string(),
        }),
    ));
    let record = prepare(req).expect("assembles").finish(advance(0, 3));
    assert_eq!(record.verdict.verdict, Verdict::Block);
    assert!(record
        .verdict
        .reasons
        .iter()
        .any(|r| r.message.contains("andon-ledger#12")));
}

#[test]
fn a_verifier_may_carry_a_verified_justification() {
    let policy = Policy::default();
    let registry = shipped_registry();
    let mut head = policy.clone();
    head.severity.block_on_tamper = false;
    let mut req = request(&policy, &registry, five_engines(&registry));
    req.record_kind = RecordKind::Attestation;
    req.policy_change = Some(policy_change::evaluate(
        &policy,
        &head,
        Some(policy_change::Justification::Verified {
            reference: "andon-ledger#12".to_string(),
            summary: "read from the ledger by the verifier".to_string(),
        }),
    ));
    let record = prepare(req).expect("assembles").finish(advance(0, 3));
    assert_eq!(record.verdict.verdict, Verdict::Advise);
}

#[test]
fn an_empty_success_set_cannot_be_complete_or_pass() {
    let policy = Policy::default();
    let registry = shipped_registry();
    let err = prepare(bare_request(&policy, &registry, Vec::new()))
        .expect_err("a payload from no engines is not a measurement");
    let AssemblyError::MissingEngine { engine_id } = err else {
        panic!("expected a missing-engine refusal, got {err:?}");
    };
    assert!(
        registry.expected_engines.contains_key(&engine_id),
        "the refusal names an engine the registry declares: {engine_id}"
    );
}

#[test]
fn every_declared_engine_must_appear_exactly_once() {
    let policy = Policy::default();
    let registry = shipped_registry();
    assert_eq!(
        registry.expected_engines.len(),
        5,
        "the shipped registry declares five engines: {:?}",
        registry.expected_engines
    );

    let mut four = five_engines(&registry);
    four.retain(|e| e.descriptor.engine_id != "process");
    let err = prepare(bare_request(&policy, &registry, four))
        .expect_err("a silently absent engine is not a measurement");
    assert_eq!(
        err,
        AssemblyError::MissingEngine {
            engine_id: "process".to_string()
        }
    );
}

#[test]
fn an_engine_the_registry_does_not_declare_cannot_contribute() {
    let policy = Policy::default();
    let registry = shipped_registry();
    let mut engines = five_engines(&registry);
    engines.push(output(
        "spike-size",
        EngineFamily::Static,
        vec![result(
            &registry,
            "spike-size",
            EngineFamily::Static,
            "static.cognitive-complexity.typescript",
            "andon.static.cognitive@1|typescript|comprehension-time",
            MetricValue::Count(3),
        )],
    ));
    assert_eq!(
        prepare(bare_request(&policy, &registry, engines)).expect_err("refused"),
        AssemblyError::UnknownEngine {
            engine_id: "spike-size".to_string()
        }
    );
}

#[test]
fn an_engine_cannot_both_produce_results_and_report_a_failure() {
    let policy = Policy::default();
    let registry = shipped_registry();
    let mut req = bare_request(&policy, &registry, five_engines(&registry));
    req.engine_failures = vec![EngineFailure {
        engine_id: "clones".to_string(),
        reason: "index lock held".to_string(),
    }];
    assert_eq!(
        prepare(req).expect_err("two statements, one of them false"),
        AssemblyError::EngineSucceededAndFailed {
            engine_id: "clones".to_string()
        }
    );
}

#[test]
fn an_engine_cannot_fail_twice() {
    let policy = Policy::default();
    let registry = shipped_registry();
    let mut engines = five_engines(&registry);
    engines.retain(|e| e.descriptor.engine_id != "clones");
    let mut req = bare_request(&policy, &registry, engines);
    req.engine_failures = vec![
        EngineFailure {
            engine_id: "clones".to_string(),
            reason: "index lock held".to_string(),
        },
        EngineFailure {
            engine_id: "clones".to_string(),
            reason: "and something else".to_string(),
        },
    ];
    assert_eq!(
        prepare(req).expect_err("refused"),
        AssemblyError::DuplicateFailure {
            engine_id: "clones".to_string()
        }
    );
}

#[test]
fn an_unknown_engine_cannot_hide_in_the_failure_list() {
    let policy = Policy::default();
    let registry = shipped_registry();
    let mut engines = five_engines(&registry);
    engines.retain(|e| e.descriptor.engine_id != "process");
    let mut req = bare_request(&policy, &registry, engines);
    req.engine_failures = vec![EngineFailure {
        engine_id: "prcoess".to_string(),
        reason: "a typo is a different engine".to_string(),
    }];
    assert_eq!(
        prepare(req).expect_err("refused"),
        AssemblyError::UnknownEngine {
            engine_id: "prcoess".to_string()
        }
    );
}

#[test]
fn five_engines_that_found_nothing_still_pass() {
    let policy = Policy::default();
    let registry = shipped_registry();
    let quiet: Vec<EngineOutput> = expected(&registry)
        .iter()
        .map(|id| output(id, family_of(id), Vec::new()))
        .collect();
    let record = prepare(bare_request(&policy, &registry, quiet))
        .expect("five engines with nothing to report is a measurement")
        .finish(advance(0, 3));
    assert!(record.results.is_empty());
    assert_eq!(record.completeness, Completeness::Complete);
    assert_eq!(record.verdict.verdict, Verdict::Pass);
}

#[test]
fn the_expected_roster_comes_from_the_registry_and_not_from_a_constant() {
    let registry = registry_from(vec![one_engine_file()]);
    assert_eq!(expected(&registry), vec!["clones".to_string()]);

    let policy = Policy::default();
    let one = vec![output(
        "clones",
        EngineFamily::Clones,
        vec![result(
            &registry,
            "clones",
            EngineFamily::Clones,
            "clones.duplicated-tokens",
            "andon.clones.token-duplication@1|any|token-duplication",
            MetricValue::Count(0),
        )],
    )];
    prepare(bare_request(&policy, &registry, one)).expect("one declared engine, one contribution");
}

#[test]
fn five_engine_families_assemble_into_one_record() {
    let policy = Policy::default();
    let registry = shipped_registry();
    let prepared =
        prepare(request(&policy, &registry, five_engines(&registry))).expect("assembles");
    let record = prepared.finish(advance(0, 3));

    assert_eq!(record.results.len(), 5);
    let families: BTreeSet<EngineFamily> = record.results.iter().map(|r| r.family).collect();
    assert_eq!(
        families.len(),
        5,
        "one result from each of the five families"
    );
    assert_eq!(record.schema_version, SCHEMA_VERSION);
    assert_eq!(record.completeness, Completeness::Complete);
    assert_eq!(record.verdict.verdict, Verdict::Pass);
}

#[test]
fn the_record_does_not_depend_on_the_order_engines_were_registered_in() {
    let policy = Policy::default();
    let registry = shipped_registry();
    let forwards = prepare(request(&policy, &registry, five_engines(&registry)))
        .expect("assembles")
        .finish(advance(0, 3));
    let mut reversed = five_engines(&registry);
    reversed.reverse();
    let backwards = prepare(request(&policy, &registry, reversed))
        .expect("assembles")
        .finish(advance(0, 3));
    assert_eq!(forwards, backwards);
}

#[test]
fn assembly_never_attests() {
    let policy = Policy::default();
    let registry = shipped_registry();
    let record = prepare(request(&policy, &registry, five_engines(&registry)))
        .expect("assembles")
        .finish(advance(0, 3));
    assert_eq!(
        record.attestation.value,
        Attestation::Unwitnessed
    );
    assert!(record.attestation.verifier.is_none());
    assert!(record.attestation.compare.is_none());
    assert!(!record.attestation.value.counts_downstream());
}

#[test]
fn a_fired_detector_reaches_the_records_signal_list() {
    let policy = Policy::default();
    let registry = shipped_registry();
    let mut engines = five_engines(&registry);
    let tamper = engines
        .iter_mut()
        .find(|e| e.descriptor.engine_id == "tamper")
        .unwrap();
    tamper.results[0].value = MetricValue::Flag(true);
    tamper.results[0].severity = Severity::High;
    tamper.results[0].seal(&compare_context()).unwrap();

    let record = prepare(request(&policy, &registry, engines))
        .expect("assembles")
        .finish(advance(1, 3));
    assert_eq!(
        record.attestation.tamper_signals,
        vec![TamperSignal::TestRemoval]
    );
    assert_eq!(record.verdict.verdict, Verdict::Block);
}

#[test]
fn two_engines_sharing_a_family_stay_separate() {
    let policy = Policy::default();
    let registry = registry_from(vec![colliding_file(), spike_file()]);
    let engines = vec![
        output(
            "static-metrics",
            EngineFamily::Static,
            vec![result(
                &registry,
                "static-metrics",
                EngineFamily::Static,
                "static.sloc",
                "andon.static.sloc@1|any|maintenance-effort",
                MetricValue::Count(120),
            )],
        ),
        output(
            "spike-size",
            EngineFamily::Static,
            vec![result(
                &registry,
                "spike-size",
                EngineFamily::Static,
                "spike.changed-files",
                "andon.spike.changed-files@1|any|change-size",
                MetricValue::Count(3),
            )],
        ),
    ];
    let record = prepare(request(&policy, &registry, engines))
        .expect("assembles")
        .finish(advance(0, 3));

    assert!(
        record
            .results
            .iter()
            .all(|r| r.family == EngineFamily::Static),
        "the collision is real: both report the same family"
    );
    let grouped = group_by_engine(&record.results);
    assert_eq!(grouped.len(), 2);
    assert_eq!(grouped.key_at(0), "spike-size");
    assert_eq!(grouped.key_at(1), "static-metrics");
    assert_eq!(grouped.get("spike-size").unwrap().len(), 1);
    assert_eq!(grouped.get("static-metrics").unwrap().len(), 1);
}

#[test]
fn a_result_stamped_with_the_wrong_family_is_refused() {
    let policy = Policy::default();
    let registry = shipped_registry();
    let mut engines = five_engines(&registry);
    engines[0].results[0].family = EngineFamily::Clones;
    engines[0].results[0].seal(&compare_context()).unwrap();

    let err = prepare(request(&policy, &registry, engines)).expect_err("must refuse");
    assert!(
        matches!(err, AssemblyError::FamilyMismatch { .. }),
        "{err:?}"
    );
}

#[test]
fn a_result_consistent_with_itself_and_wrong_about_its_engine_is_refused() {
    let policy = Policy::default();
    let registry = shipped_registry();
    let mut engines = five_engines(&registry);
    engines[0].results[0].family = EngineFamily::Clones;
    engines[0].results[0].measurement_regime = regime(EngineFamily::Clones);
    engines[0].results[0].seal(&compare_context()).unwrap();

    let err = prepare(request(&policy, &registry, engines)).expect_err("must refuse");
    let AssemblyError::FamilyMismatch {
        result, descriptor, ..
    } = err
    else {
        panic!("expected a family mismatch, got {err:?}");
    };
    assert_eq!(result, EngineFamily::Clones);
    assert_eq!(descriptor, EngineFamily::Static);
}

#[test]
fn a_regime_from_another_family_is_refused_even_when_the_stamps_agree() {
    let policy = Policy::default();
    let registry = shipped_registry();
    let mut engines = five_engines(&registry);
    engines[0].results[0].measurement_regime = regime(EngineFamily::Process);
    engines[0].results[0].seal(&compare_context()).unwrap();

    let err = prepare(request(&policy, &registry, engines)).expect_err("must refuse");
    let AssemblyError::FamilyMismatch { regime, result, .. } = err else {
        panic!("expected a family mismatch");
    };
    assert_eq!(result, EngineFamily::Static);
    assert_eq!(regime, EngineFamily::Process);
}

#[test]
fn a_result_whose_claim_the_registry_does_not_declare_is_refused() {
    let policy = Policy::default();
    let registry = shipped_registry();
    let mut engines = five_engines(&registry);
    engines[0].results[0].claim_id = "andon.invented@1|any|nothing".to_string();
    engines[0].results[0].evidence.claim_id = "andon.invented@1|any|nothing".to_string();
    engines[0].results[0].seal(&compare_context()).unwrap();

    assert_eq!(
        prepare(request(&policy, &registry, engines)).expect_err("must refuse"),
        AssemblyError::MetricRebound {
            metric_id: "static.cognitive-complexity.typescript".to_string(),
            declared: "andon.static.cognitive@1|typescript|comprehension-time".to_string(),
            cited: "andon.invented@1|any|nothing".to_string(),
        }
    );
}

#[test]
fn a_metric_rebound_to_another_valid_claim_is_refused() {
    let policy = Policy::default();
    let registry = shipped_registry();
    let mut engines = five_engines(&registry);
    let clones_claim = "andon.clones.token-duplication@1|any|token-duplication";
    engines[0].results[0].claim_id = clones_claim.to_string();
    engines[0].results[0].evidence.claim_id = clones_claim.to_string();
    engines[0].results[0].seal(&compare_context()).unwrap();

    assert_eq!(
        prepare(request(&policy, &registry, engines)).expect_err("must refuse"),
        AssemblyError::MetricRebound {
            metric_id: "static.cognitive-complexity.typescript".to_string(),
            declared: "andon.static.cognitive@1|typescript|comprehension-time".to_string(),
            cited: clones_claim.to_string(),
        }
    );
}

#[test]
fn a_result_whose_two_claim_ids_disagree_is_refused() {
    let policy = Policy::default();
    let registry = shipped_registry();
    let mut engines = five_engines(&registry);
    engines[0].results[0].evidence.claim_id =
        "andon.clones.token-duplication@1|any|token-duplication".to_string();

    assert_eq!(
        prepare(request(&policy, &registry, engines)).expect_err("must refuse"),
        AssemblyError::EvidenceClaimMismatch {
            metric_id: "static.cognitive-complexity.typescript".to_string(),
            claim_id: "andon.static.cognitive@1|typescript|comprehension-time".to_string(),
            evidence_claim_id: "andon.clones.token-duplication@1|any|token-duplication".to_string(),
        }
    );
}

#[test]
fn a_result_sealed_against_another_change_is_refused() {
    let policy = Policy::default();
    let registry = shipped_registry();
    let mut engines = five_engines(&registry);
    let other = CompareContext {
        base_oid: "a".repeat(40),
        head_oid: "b".repeat(40),
        ..compare_context()
    };
    engines[0].results[0].seal(&other).expect("seals");

    let err = prepare(request(&policy, &registry, engines)).expect_err("must refuse");
    let AssemblyError::DigestMismatch {
        metric_id,
        base_oid,
        ..
    } = err
    else {
        panic!("expected a digest mismatch, got {err:?}");
    };
    assert_eq!(metric_id, "static.cognitive-complexity.typescript");
    assert_eq!(base_oid, compare_context().base_oid);
}

#[test]
fn a_result_edited_after_sealing_is_refused() {
    let policy = Policy::default();
    let registry = shipped_registry();
    let mut engines = five_engines(&registry);
    engines[0].results[0].value = MetricValue::Count(9_999);
    assert!(matches!(
        prepare(request(&policy, &registry, engines)).expect_err("must refuse"),
        AssemblyError::DigestMismatch { .. }
    ));

    let mut editable = five_engines(&registry);
    editable[0].results[0].severity = Severity::Critical;
    editable[0].results[0].evidence.stale = true;
    prepare(request(&policy, &registry, editable))
        .expect("the unsigned fields stay editable after sealing");
}

#[test]
fn a_result_that_disagrees_with_its_declaration_is_refused() {
    let policy = Policy::default();
    let registry = shipped_registry();

    let mut reclassed = five_engines(&registry);
    reclassed[0].results[0].metric_class = MetricClass::ContextInformational;
    reclassed[0].results[0].seal(&compare_context()).unwrap();
    assert!(matches!(
        prepare(request(&policy, &registry, reclassed)).expect_err("must refuse"),
        AssemblyError::MetricDeclarationMismatch { field: "class", .. }
    ));

    let mut excused = five_engines(&registry);
    excused[0].results[0].deterministic = false;
    excused[0].results[0].seal(&compare_context()).unwrap();
    assert!(matches!(
        prepare(request(&policy, &registry, excused)).expect_err("must refuse"),
        AssemblyError::MetricDeclarationMismatch {
            field: "deterministic",
            ..
        }
    ));
}

#[test]
fn a_result_naming_a_metric_no_registry_declares_is_refused() {
    let policy = Policy::default();
    let registry = shipped_registry();
    let mut engines = five_engines(&registry);
    engines[0].results[0].metric_id = "static.invented".to_string();
    engines[0].results[0].seal(&compare_context()).unwrap();

    assert_eq!(
        prepare(request(&policy, &registry, engines)).expect_err("must refuse"),
        AssemblyError::UndeclaredMetric {
            engine_id: "static-metrics".to_string(),
            metric_id: "static.invented".to_string(),
        }
    );
}

#[test]
fn a_declared_metric_whose_claim_is_missing_is_refused() {
    let policy = Policy::default();
    let mut registry = shipped_registry();
    let claim_id = "andon.static.cognitive@1|typescript|comprehension-time";
    let engines = five_engines(&registry);
    registry.registry.claims.remove(claim_id);

    assert_eq!(
        prepare(request(&policy, &registry, engines)).expect_err("must refuse"),
        AssemblyError::UnknownClaim {
            metric_id: "static.cognitive-complexity.typescript".to_string(),
            claim_id: claim_id.to_string(),
        }
    );
}

#[test]
fn an_unsealed_result_is_refused() {
    let policy = Policy::default();
    let registry = shipped_registry();
    let mut engines = five_engines(&registry);
    engines[0].results[0].digest = String::new();

    let err = prepare(request(&policy, &registry, engines)).expect_err("must refuse");
    assert!(matches!(err, AssemblyError::Unsealed { .. }), "{err:?}");
}

#[test]
fn two_results_sharing_a_pairing_key_are_refused() {
    let policy = Policy::default();
    let registry = shipped_registry();
    let mut engines = five_engines(&registry);
    let duplicate = engines[0].results[0].clone();
    engines[0].results.push(duplicate);

    let err = prepare(request(&policy, &registry, engines)).expect_err("must refuse");
    assert!(
        matches!(err, AssemblyError::DuplicateResult { .. }),
        "{err:?}"
    );
}

#[test]
fn the_same_metric_at_two_scopes_is_fine() {
    let policy = Policy::default();
    let registry = shipped_registry();
    let mut engines = five_engines(&registry);
    let mut second = engines[0].results[0].clone();
    second.scope.kind = ScopeKind::File;
    second.scope.path = Some("src/other.ts".to_string());
    second.seal(&compare_context()).unwrap();
    engines[0].results.push(second);

    let record = prepare(request(&policy, &registry, engines))
        .expect("assembles")
        .finish(advance(0, 3));
    assert_eq!(record.results.len(), 6);
}

#[test]
fn an_engine_contributing_twice_is_refused() {
    let policy = Policy::default();
    let registry = shipped_registry();
    let mut engines = five_engines(&registry);
    engines.push(engines[0].clone());

    let err = prepare(request(&policy, &registry, engines)).expect_err("must refuse");
    assert!(
        matches!(err, AssemblyError::DuplicateEngine { .. }),
        "{err:?}"
    );
}

#[test]
fn a_result_that_names_another_engine_is_refused() {
    let policy = Policy::default();
    let registry = shipped_registry();
    let mut engines = five_engines(&registry);
    engines[0].results[0].engine_id = "clones".to_string();
    engines[0].results[0].seal(&compare_context()).unwrap();

    let err = prepare(request(&policy, &registry, engines)).expect_err("must refuse");
    assert!(
        matches!(err, AssemblyError::EngineMismatch { .. }),
        "{err:?}"
    );
}

#[test]
fn a_tamper_flag_whose_id_names_no_signal_is_refused() {
    let policy = Policy::default();
    let registry = registry_from(vec![renamed_detector_file()]);
    let engines = vec![output(
        "tamper",
        EngineFamily::Tamper,
        vec![result(
            &registry,
            "tamper",
            EngineFamily::Tamper,
            "tamper.renamed-detector",
            "andon.tamper.x@1|any|x",
            MetricValue::Flag(true),
        )],
    )];

    let err = prepare(request(&policy, &registry, engines)).expect_err("must refuse");
    assert_eq!(
        err,
        AssemblyError::UnknownTamperSignal {
            metric_id: "tamper.renamed-detector".to_string(),
        }
    );
}

#[test]
fn the_registry_supplies_the_honesty_lines_the_engine_lacked() {
    let policy = Policy::default();
    let registry = shipped_registry();
    let record = prepare(request(&policy, &registry, five_engines(&registry)))
        .expect("assembles")
        .finish(advance(0, 3));
    assert!(
        record
            .results
            .iter()
            .all(|r| !r.evidence.does_not_predict.is_empty()),
        "every claim in the registry says what it does not predict"
    );
}

#[test]
fn a_parse_degradation_caveat_survives_evidence_resolution() {
    let policy = Policy::default();
    let registry = shipped_registry();
    let mut engines = five_engines(&registry);
    let health = parse_health::ParseHealth {
        error_nodes: 2,
        missing_nodes: 0,
        total_nodes: 90,
    };
    parse_health::demote(&mut engines[0].results[0], health);
    engines[0].results[0].seal(&compare_context()).unwrap();

    let record = prepare(request(&policy, &registry, engines))
        .expect("assembles")
        .finish(advance(0, 3));
    let degraded = record
        .results
        .iter()
        .find(|r| r.completeness == Completeness::ParseDegraded)
        .expect("the demotion survives");
    assert!(
        degraded.evidence.does_not_predict[0].contains(parse_health::PARSE_DEGRADED_CAVEAT),
        "{:?}",
        degraded.evidence.does_not_predict
    );
    assert!(
        degraded.evidence.does_not_predict.len() > 1,
        "and the registry's own lines are still there too"
    );
    assert_eq!(record.completeness, Completeness::ParseDegraded);
}

#[test]
fn the_loader_decides_staleness_not_the_engine() {
    let registry = load_shipped(
        &RegistryPolicy::default(),
        "2099-01-01".parse().unwrap(),
    )
    .expect("loads");
    let policy = Policy::default();
    let record = prepare(request(&policy, &registry, five_engines(&registry)))
        .expect("assembles")
        .finish(advance(0, 3));
    assert!(
        record.results.iter().all(|r| r.evidence.stale),
        "every claim is past expiry in 2099, whatever the engine thought"
    );
}

#[test]
fn a_failed_engine_makes_the_record_partial() {
    let policy = Policy::default();
    let registry = shipped_registry();
    let req = failed(
        request(&policy, &registry, five_engines(&registry)),
        "clones",
        "index lock held by another process",
    );
    let prepared = prepare(req).expect("assembles");
    assert_eq!(prepared.completeness(), Completeness::Partial);

    let record = prepared.finish(advance(0, 3));
    assert_eq!(record.completeness, Completeness::Partial);
    assert_eq!(
        record.verdict.verdict,
        Verdict::Advise,
        "an engine that could not run is not evidence against the change"
    );
    assert!(record
        .verdict
        .reasons
        .iter()
        .any(|r| r.code == reason::ENGINE_UNAVAILABLE));
}

#[test]
fn a_failed_engine_does_not_mask_a_weaker_completeness() {
    let policy = Policy::default();
    let registry = shipped_registry();
    let mut engines = five_engines(&registry);
    engines[0].results[0].completeness = Completeness::Unwitnessed;
    engines[0].results[0].seal(&compare_context()).unwrap();
    let req = failed(
        request(&policy, &registry, engines),
        "clones",
        "unavailable",
    );
    assert_eq!(
        prepare(req).expect("assembles").completeness(),
        Completeness::Unwitnessed,
        "the record takes the weakest, not the most recently applied"
    );
}

#[test]
fn a_record_with_no_results_at_all_is_partial_when_engines_failed() {
    let policy = Policy::default();
    let registry = shipped_registry();
    let req = failed(
        request(&policy, &registry, Vec::new()),
        "static-metrics",
        "every grammar failed to load",
    );
    let record = prepare(req).expect("assembles").finish(advance(0, 3));
    assert!(record.results.is_empty());
    assert_eq!(
        record.completeness,
        Completeness::Partial,
        "an empty record must not claim to be complete"
    );
}

#[test]
fn a_clean_run_has_nothing_for_the_counter_to_count() {
    let policy = Policy::default();
    let registry = shipped_registry();
    let prepared =
        prepare(request(&policy, &registry, five_engines(&registry))).expect("assembles");
    assert!(!prepared.has_countable_finding());
}

#[test]
fn a_fired_detector_is_something_for_the_counter_to_count() {
    let policy = Policy::default();
    let registry = shipped_registry();
    let mut engines = five_engines(&registry);
    let tamper = engines
        .iter_mut()
        .find(|e| e.descriptor.engine_id == "tamper")
        .unwrap();
    tamper.results[0].value = MetricValue::Flag(true);
    tamper.results[0].severity = Severity::High;
    tamper.results[0].seal(&compare_context()).unwrap();

    let prepared = prepare(request(&policy, &registry, engines)).expect("assembles");
    assert!(prepared.has_countable_finding());
    assert_eq!(
        prepared.finish(advance(4, 3)).verdict.verdict,
        Verdict::EscalateToHuman
    );
}

#[test]
fn the_cap_in_the_record_is_the_one_the_caller_read_from_policy() {
    let policy = Policy::default();
    let registry = shipped_registry();
    let record = prepare(request(&policy, &registry, five_engines(&registry)))
        .expect("assembles")
        .finish(advance(2, policy.loop_policy.iteration_cap));
    assert_eq!(
        record.verdict.iteration.cap,
        policy.loop_policy.iteration_cap
    );
    assert_eq!(record.verdict.iteration.count, 2);
}

#[test]
fn the_loop_runs_to_escalation_and_a_fix_ends_it() {
    let mut store = IterationStore::open(StoredState::Absent);
    let policy = Policy::default();
    let registry = shipped_registry();
    let cap = policy.loop_policy.iteration_cap;

    let firing = || {
        let mut engines = five_engines(&registry);
        let tamper = engines
            .iter_mut()
            .find(|e| e.descriptor.engine_id == "tamper")
            .unwrap();
        tamper.results[0].value = MetricValue::Flag(true);
        tamper.results[0].severity = Severity::High;
        tamper.results[0].seal(&compare_context()).unwrap();
        engines
    };

    for pass in 1..=cap {
        let prepared = prepare(request(&policy, &registry, firing())).expect("assembles");
        let advance = store
            .advance(
                "feat/a",
                cap,
                prepared.loop_outcome(),
                &format!("base..pass{pass}"),
            );
        let record = prepared.finish(advance);
        assert_eq!(record.verdict.iteration.count, pass);
        assert_eq!(record.verdict.verdict, Verdict::Block, "pass {pass}");
    }

    let prepared = prepare(request(&policy, &registry, firing())).expect("assembles");
    let advance = store
        .advance("feat/a", cap, prepared.loop_outcome(), "base..one-too-many");
    let record = prepared.finish(advance);
    assert_eq!(record.verdict.verdict, Verdict::EscalateToHuman);
    assert!(record.verdict.iteration.escalated);

    let prepared =
        prepare(request(&policy, &registry, five_engines(&registry))).expect("assembles");
    let advance = store
        .advance("feat/a", cap, prepared.loop_outcome(), "base..fixed");
    let record = prepared.finish(advance);
    assert_eq!(record.verdict.verdict, Verdict::Pass);
    assert_eq!(record.verdict.iteration.count, 0);
    assert!(!record.verdict.iteration.escalated);
}

#[test]
fn an_unjustified_loosening_of_andons_own_policy_blocks() {
    let policy = Policy::default();
    let registry = shipped_registry();
    let mut head = policy.clone();
    head.severity.block_on_tamper = false;
    let change = policy_change::evaluate(&policy, &head, None);

    let mut req = request(&policy, &registry, five_engines(&registry));
    req.policy_change = Some(change);
    let prepared = prepare(req).expect("assembles");
    assert!(
        prepared.has_countable_finding(),
        "adding the justification is something the agent can do"
    );
    let record = prepared.finish(advance(1, 3));
    assert_eq!(record.verdict.verdict, Verdict::Block);
    assert!(record
        .verdict
        .reasons
        .iter()
        .any(|r| r.code == reason::POLICY_CHANGE_LOOSENING));
}

#[test]
fn a_neutral_policy_edit_advises_and_carries_the_delta() {
    let policy = Policy::default();
    let registry = shipped_registry();
    let mut head = policy.clone();
    head.history.window_days = 90;
    let change = policy_change::evaluate(&policy, &head, None);

    let mut req = request(&policy, &registry, five_engines(&registry));
    req.policy_change = Some(change);
    let record = prepare(req).expect("assembles").finish(advance(0, 3));
    assert_eq!(record.verdict.verdict, Verdict::Advise);
    let finding = record
        .verdict
        .reasons
        .iter()
        .find(|r| r.code == reason::POLICY_CHANGE)
        .expect("every policy edit is reported");
    assert!(
        finding.message.contains("history.window_days: 365 -> 90"),
        "{}",
        finding.message
    );
}

#[test]
fn an_assembled_record_serializes_canonically_and_reproducibly() {
    let policy = Policy::default();
    let registry = shipped_registry();
    let record = prepare(request(&policy, &registry, five_engines(&registry)))
        .expect("assembles")
        .finish(advance(0, 3));
    let once = to_canonical_string(&record.to_json().expect("serializes"));
    let twice = to_canonical_string(&record.to_json().expect("serializes"));
    assert_eq!(once, twice);
    let read_back: serde_json::Value = serde_json::from_str(&once).expect("round trips");
    assert_eq!(read_back["results"].as_array().unwrap().len(), 5);
    assert_eq!(read_back["policy_hash"].as_str(), Some(record.policy_hash.as_str()));
    assert_eq!(
        read_back["results"][0]["digest"].as_str(),
        Some(record.results[0].digest.as_str())
    );
}

#[test]
fn assembly_does_not_disturb_a_sealed_digest() {
    let policy = Policy::default();
    let registry = shipped_registry();
    let engines = five_engines(&registry);
    let before: Vec<String> = engines
        .iter()
        .flat_map(|e| e.results.iter().map(|r| r.digest.clone()))
        .collect();

    let record = prepare(request(&policy, &registry, engines))
        .expect("assembles")
        .finish(advance(0, 3));
    for result in &record.results {
        assert!(before.contains(&result.digest), "{}", result.metric_id);
        let recomputed = result.digest_input(&record.compare_context).digest().unwrap();
        assert_eq!(result.digest, recomputed, "{}", result.metric_id);
    }
}

#[test]
fn the_countable_answer_survives_the_round_trip() {
    let policy = Policy::default();
    let registry = shipped_registry();

    let firing = || {
        let mut engines = five_engines(&registry);
        let tamper = engines
            .iter_mut()
            .find(|e| e.descriptor.engine_id == "tamper")
            .unwrap();
        tamper.results[0].value = MetricValue::Flag(true);
        tamper.results[0].severity = Severity::High;
        tamper.results[0].seal(&compare_context()).unwrap();
        engines
    };

    for (engines, expected) in [(five_engines(&registry), false), (firing(), true)] {
        let prepared = prepare(request(&policy, &registry, engines)).expect("assembles");
        assert_eq!(prepared.has_countable_finding(), expected);

        for recovered in [false, true] {
            let record = prepared.clone().finish(Advance {
                contended: false,
                state: IterationState {
                    count: 9,
                    cap: 3,
                    escalated: true,
                },
                recovered,
            });
            assert_eq!(
                record.verdict.verdict == Verdict::EscalateToHuman,
                expected,
                "recovered={recovered}"
            );
        }
    }
}

#[test]
fn a_ratio_that_cannot_be_carried_is_refused_in_assembly() {
    let policy = Policy::default();
    let registry = shipped_registry();
    let mut engines = five_engines(&registry);
    engines[0].results[0].value = MetricValue::Ratio(Ratio::NotANumber);

    assert_eq!(
        prepare(request(&policy, &registry, engines)).expect_err("must refuse"),
        AssemblyError::PolicyHash(
            "digest: ratio has no canonical JSON representation".to_string()
        )
    );
}

#[test]
fn the_code_exec_lane_is_expected_only_where_policy_switches_it_on() {
    let mut files = shipped_files();
    files.push(file(
        "tests",
        EngineFamily::Tests,
        metric(
            "tests.suite-failure",
            "andon.tests.suite@1|any|suite-outcome",
            MetricClass::DiffActionable,
            true,
        ),
        EvidenceTier::N,
        "2027-06-01",
    ));
    let registry = registry_from(files);
    assert_eq!(registry.expected_engines.len(), 6);

    let off = Policy::default();
    let five = prepare(bare_request(&off, &registry, five_engines(&registry)));
    assert!(five.is_ok(), "the lane is off, so nobody expects it");

    let mut on = Policy::default();
    on.sandbox.enabled = true;
    on.sandbox.test_command = Some("make check".to_string());
    assert_eq!(
        prepare(bare_request(&on, &registry, five_engines(&registry))).expect_err("must refuse"),
        AssemblyError::MissingEngine {
            engine_id: "tests".to_string()
        }
    );
}

#[test]
fn a_record_with_an_unread_path_never_contradicts_itself() {
    let policy = Policy::default();
    let registry = shipped_registry();
    let mut req = request(&policy, &registry, five_engines(&registry));
    req.unreadable_paths = vec!["src/work.ts".to_string()];
    let record = prepare(req).expect("assembles").finish(advance(0, 3));
    assert_eq!(record.verdict.verdict, Verdict::Advise);
    assert!(!andon_core::verdict::stored_verdict_is_contradicted(&record));
}

#[test]
fn a_scope_keys_on_its_canonical_text() {
    let scope = ResultScope {
        kind: ScopeKind::File,
        path: Some("src/a \"b\".ts".to_string()),
        blob_oid: None,
        symbol: None,
        line_span: None,
    };
    assert_eq!(
        scope_key(&scope),
        r#"{"blob_oid":null,"kind":"file","line_span":null,"path":"src/a \"b\".ts","symbol":null}"#
    );
}

#[test]
fn every_number_stands_on_its_claim() {
    let policy = Policy::default();
    let registry = shipped_registry();
    let prepared =
        prepare(request(&policy, &registry, five_engines(&registry))).expect("five engines");
    for result in prepared.results() {
        let decl = registry
            .registry
            .metrics
            .get(&result.metric_id)
            .expect("the metric is declared");
        assert_eq!(decl.claim_id, result.claim_id);
        assert_eq!(decl.class, result.metric_class);
        assert_eq!(decl.deterministic, result.deterministic);
        assert_eq!(result.evidence.claim_id, result.claim_id);
        let claim = registry
            .registry
            .claims
            .get(&result.claim_id)
            .expect("the claim is declared");
        assert_eq!(result.evidence.stale, claim.stale);
        for line in &claim.claim.does_not_predict {
            assert!(result.evidence.does_not_predict.contains(line));
        }
    }
}

#[test]
fn what_the_engine_boundary_lets_through_assembles() {
    let policy = Policy::default();
    let registry = shipped_registry();
    let mut measured = result(
        &registry,
        "clones",
        EngineFamily::Clones,
        "clones.duplicated-tokens",
        "andon.clones.token-duplication@1|any|token-duplication",
        MetricValue::Count(9),
    );
    measured.digest = String::new();
    let mut ladders = StrMap::new();
    ladders.insert(
        "clones.duplicated-tokens".to_string(),
        SeverityLadder::NoOpinion,
    );
    let admitted = admit_results(
        EngineFamily::Clones,
        &ladders,
        vec![measured],
        &compare_context(),
    )
    .expect("the boundary lets it through");
    let engines = vec![output("clones", EngineFamily::Clones, admitted)];
    let prepared = prepare(request(&policy, &registry, engines)).expect("assembles");
    assert_eq!(prepared.results().len(), 1);
    assert_eq!(prepared.results()[0].digest.len(), 64);
}
