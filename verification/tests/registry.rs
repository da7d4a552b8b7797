//! The registry: its lint, its loader, and the engines it declares.

use std::collections::BTreeSet;

use andon_core::date::{Date, DateError};
use andon_core::engine::{
    EngineDescriptor, EngineError, MeasureContext, MeasureEngine, MetricDescriptor,
};
use andon_core::payload::registry_load::{
    files_to_read, load_files, LoadedRegistry, RegistryLoadError, SCHEDULING_HYGIENE_CODES,
};
use andon_core::policy::RegistryPolicy;
use andon_core::registry::{lint, Claim, EngineRegistryFile, MetricDecl, Registry};
use andon_core::schema::enums::{
    EngineClass, EngineFamily, EvidenceTier, MetricClass, Severity,
};
use andon_core::schema::payload::MeasurementResult;
use andon_core::schema::regime::MeasurementRegime;
use andon_core::strmap::StrMap;
use andon_core::testing::{sample_regime, sample_result};
use andon_core::verdict::ladder::{Rung, SeverityLadder, Threshold};

fn as_of() -> Date {
    "2026-08-17".parse().expect("a valid date")
}

fn claim(claim_id: &str, tier: EvidenceTier, expiry: &str) -> Claim {
    let (implementation, rest) = claim_id.split_once('@').expect("a versioned claim id");
    let mut parts = rest.split('|');
    Claim {
        claim_id: claim_id.to_string(),
        implementation: implementation.to_string(),
        implementation_version: parts.next().expect("a version").to_string(),
        language: parts.next().expect("a language").to_string(),
        outcome: parts.next().expect("an outcome").to_string(),
        tier,
        citation: "test fixture".to_string(),
        citation_ref: None,
        population: "test fixture".to_string(),
        effect: "test fixture".to_string(),
        does_not_predict: vec!["anything, this is a fixture".to_string()],
        owner: "gtm-k".to_string(),
        expiry: expiry.parse().expect("a valid date"),
    }
}

/// An engine as this file knows it: its metrics, and the ladder of each.
struct Shipped {
    engine_id: &'static str,
    family: EngineFamily,
    metric_id: &'static str,
    claim_id: &'static str,
    class: MetricClass,
    tier: EvidenceTier,
    expiry: &'static str,
    ladder: SeverityLadder,
}

const COMPLEXITY: &[Rung] = &[
    Rung {
        at: Threshold::Count(15),
        severity: Severity::Medium,
    },
    Rung {
        at: Threshold::Count(25),
        severity: Severity::High,
    },
];

const SHIPPED: &[Shipped] = &[
    Shipped {
        engine_id: "artifacts",
        family: EngineFamily::Artifacts,
        metric_id: "artifacts.uncovered-changed-lines",
        claim_id: "andon.artifacts.diff-coverage@1|any|test-gap",
        class: MetricClass::ContextInformational,
        tier: EvidenceTier::C,
        expiry: "2027-05-01",
        ladder: SeverityLadder::Thresholds(COMPLEXITY),
    },
    Shipped {
        engine_id: "clones",
        family: EngineFamily::Clones,
        metric_id: "clones.duplicated-tokens",
        claim_id: "andon.clones.token-duplication@1|any|token-duplication",
        class: MetricClass::DiffActionable,
        tier: EvidenceTier::N,
        expiry: "2027-01-01",
        ladder: SeverityLadder::Thresholds(COMPLEXITY),
    },
    Shipped {
        engine_id: "process",
        family: EngineFamily::Process,
        metric_id: "process.churn-commits",
        claim_id: "andon.process.churn@1|any|defect-proneness",
        class: MetricClass::ContextInformational,
        tier: EvidenceTier::B,
        expiry: "2027-03-01",
        ladder: SeverityLadder::NoOpinion,
    },
    Shipped {
        engine_id: "static-metrics",
        family: EngineFamily::Static,
        metric_id: "static.cognitive-complexity.typescript",
        claim_id: "andon.static.cognitive@1|typescript|comprehension-time",
        class: MetricClass::DiffActionable,
        tier: EvidenceTier::B,
        expiry: "2027-03-15",
        ladder: SeverityLadder::Thresholds(COMPLEXITY),
    },
    Shipped {
        engine_id: "tamper",
        family: EngineFamily::Tamper,
        metric_id: "tamper.test-removal",
        claim_id: "andon.tamper.test-evidence@1|any|test-evidence-withdrawal",
        class: MetricClass::DiffActionable,
        tier: EvidenceTier::N,
        expiry: "2027-02-01",
        ladder: SeverityLadder::PerResult,
    },
];

impl Shipped {
    fn file(&self) -> (String, EngineRegistryFile) {
        (
            format!("{}.toml", self.engine_id),
            EngineRegistryFile {
                schema_version: 1,
                engine: self.engine_id.to_string(),
                family: self.family,
                metrics: vec![MetricDecl {
                    metric_id: self.metric_id.to_string(),
                    claim_id: self.claim_id.to_string(),
                    class: self.class,
                    deterministic: true,
                }],
                claims: vec![claim(self.claim_id, self.tier, self.expiry)],
            },
        )
    }
}

impl MeasureEngine for Shipped {
    fn descriptor(&self) -> EngineDescriptor {
        EngineDescriptor {
            engine_id: self.engine_id.to_string(),
            family: self.family,
            class: EngineClass::StaticSafe,
            version: "0.1.0".to_string(),
        }
    }
    fn metrics(&self) -> Vec<MetricDescriptor> {
        vec![MetricDescriptor {
            metric_id: self.metric_id.to_string(),
            claim_id: self.claim_id.to_string(),
            class: self.class,
            deterministic: true,
        }]
    }
    fn severity_ladders(&self) -> StrMap<SeverityLadder> {
        let mut ladders = StrMap::new();
        ladders.insert(self.metric_id.to_string(), self.ladder);
        ladders
    }
    fn regime(&self) -> MeasurementRegime {
        sample_regime()
    }
    fn measure(&self, _ctx: &MeasureContext) -> Result<Vec<MeasurementResult>, EngineError> {
        Ok(Vec::new())
    }
}

fn shipped_files() -> Vec<(String, EngineRegistryFile)> {
    SHIPPED.iter().map(Shipped::file).collect()
}

fn load(policy: &RegistryPolicy, as_of: Date) -> Result<LoadedRegistry, RegistryLoadError> {
    load_files(&shipped_files(), policy, as_of, "registry")
}

#[test]
fn the_shipped_registry_loads() {
    let loaded = load(&RegistryPolicy::default(), as_of())
        .expect("the shipped registry must load in the measurement path");
    assert!(
        loaded.registry.claims.len() <= RegistryPolicy::default().claim_budget as usize,
        "{} claims",
        loaded.registry.claims.len()
    );
    assert!(
        !loaded.registry.metrics.is_empty(),
        "five engines have shipped metrics"
    );
    assert!(loaded.stale_claim_ids().is_empty());
    assert!(loaded.notices.is_empty(), "{:?}", loaded.notices);
}

#[test]
fn the_loader_refuses_what_the_lint_refuses() {
    let mut files = shipped_files();
    files[0].1.claims.clear();
    let (_, report) = lint(&files, &RegistryPolicy::default(), as_of());
    assert!(report.failed());
    let err = load_files(&files, &RegistryPolicy::default(), as_of(), "registry")
        .expect_err("a metric with no claim behind it must not load");
    let RegistryLoadError::Lint { errors, path } = err else {
        panic!("expected a lint refusal, got {err:?}");
    };
    assert_eq!(path, "registry");
    assert!(
        errors
            .iter()
            .any(|e| e.contains("registry.unmapped-metric")),
        "{errors:?}"
    );
}

#[test]
fn an_expired_claim_is_a_notice_and_still_loads() {
    let far_future: Date = "2099-01-01".parse().unwrap();
    let loaded =
        load(&RegistryPolicy::default(), far_future).expect("expiry must never fail a load");
    assert!(
        !loaded.stale_claim_ids().is_empty(),
        "every claim is past expiry in 2099"
    );
    assert!(loaded
        .notices
        .iter()
        .any(|d| d.code == "registry.evidence-stale"));
    assert!((0..loaded.registry.claims.len()).all(|i| loaded.registry.claims.value_at(i).stale));
    let ids = loaded.stale_claim_ids();
    let mut sorted = ids.clone();
    sorted.sort();
    assert_eq!(ids, sorted);
}

#[test]
fn a_budget_breach_refuses_to_load() {
    let tight = RegistryPolicy {
        claim_budget: 1,
        ..RegistryPolicy::default()
    };
    let err =
        load(&tight, as_of()).expect_err("over budget must refuse at runtime as well");
    let RegistryLoadError::Lint { errors, .. } = err else {
        panic!("expected a lint refusal, got {err:?}");
    };
    assert!(
        errors.iter().any(|e| e.contains("registry.claim-budget")),
        "{errors:?}"
    );
}

#[test]
fn the_roster_is_the_registry_this_repository_ships() {
    let listed: BTreeSet<String> = SHIPPED
        .iter()
        .map(|engine| engine.engine_id.to_string())
        .collect();
    let loaded = load(&RegistryPolicy::default(), as_of()).expect("loads");
    let expected: BTreeSet<String> = (0..loaded.expected_engines.len())
        .map(|i| loaded.expected_engines.key_at(i).clone())
        .collect();
    assert_eq!(
        listed, expected,
        "the roster in this file and the registry this repository ships disagree"
    );
    assert_eq!(
        loaded.engine_families.get("tamper"),
        Some(&EngineFamily::Tamper)
    );
}

#[test]
fn every_shipped_metric_declares_exactly_one_ladder() {
    for engine in SHIPPED {
        let declared: BTreeSet<String> = engine
            .metrics()
            .into_iter()
            .map(|d| d.metric_id)
            .collect();
        let ladders = engine.severity_ladders();
        let ranked: BTreeSet<String> = (0..ladders.len())
            .map(|i| ladders.key_at(i).clone())
            .collect();
        assert_eq!(declared, ranked, "{}", engine.engine_id);
        Registry::check_engine(&engine.file().1, engine).expect("manifest and engine agree");
    }
}

#[test]
fn the_shape_fixture_does_not_impersonate_a_shipped_engine() {
    let fixture = sample_result();
    for engine in SHIPPED {
        assert_ne!(
            fixture.engine_id, engine.engine_id,
            "a shape fixture must not wear a shipped engine's name"
        );
        assert_ne!(fixture.metric_id, engine.metric_id);
    }
    assert_eq!(
        fixture.severity,
        Severity::Info,
        "a fixture that arrives pre-ranked answers a question nobody measured"
    );
}

#[test]
fn each_lint_rule_names_itself() {
    let codes = |files: &[(String, EngineRegistryFile)]| -> Vec<&'static str> {
        let (_, report) = lint(files, &RegistryPolicy::default(), as_of());
        report.diagnostics.iter().map(|d| d.code).collect()
    };

    let mut versioned = shipped_files();
    versioned[0].1.schema_version = 9;
    assert!(codes(&versioned).contains(&"registry.schema-version"));

    let mut renamed = shipped_files();
    renamed[0].1.claims[0].outcome = "elsewhere".to_string();
    assert!(codes(&renamed).contains(&"registry.claim-id-format"));

    let mut unsaid = shipped_files();
    unsaid[0].1.claims[0].does_not_predict.clear();
    assert!(codes(&unsaid).contains(&"registry.missing-field"));

    let mut blank = shipped_files();
    blank[0].1.claims[0].owner = "  ".to_string();
    assert!(codes(&blank).contains(&"registry.missing-field"));

    let mut twice = shipped_files();
    let copy = twice[0].1.claims[0].clone();
    twice[1].1.claims.push(copy);
    assert!(codes(&twice).contains(&"registry.duplicate-claim"));

    let mut metric_twice = shipped_files();
    let copy = metric_twice[0].1.metrics[0].clone();
    metric_twice[1].1.metrics.push(copy);
    assert!(codes(&metric_twice).contains(&"registry.duplicate-metric"));

    let mut uncited = shipped_files();
    uncited[0].1.metrics.clear();
    let found = codes(&uncited);
    assert!(found.contains(&"registry.unused-claim"), "{found:?}");
    assert!(codes(&shipped_files()).is_empty());
}

#[test]
fn only_errors_fail_a_lint() {
    let mut uncited = shipped_files();
    uncited[0].1.metrics.clear();
    let (registry, report) = lint(&uncited, &RegistryPolicy::default(), as_of());
    assert!(!report.failed());
    assert!(report.errors().is_empty());
    assert_eq!(report.claim_count, 5);
    assert_eq!(report.metric_count, 4);
    assert_eq!(
        registry.metric_sources.get("tamper.test-removal"),
        Some(&"tamper.toml".to_string())
    );
}

#[test]
fn a_claim_names_itself_by_its_tuple() {
    let c = claim("andon.x@2|any|y", EvidenceTier::A, "2027-01-01");
    assert_eq!(c.canonical_id(), "andon.x@2|any|y");
}

#[test]
fn dates_read_back_as_they_were_written() {
    for text in ["2026-08-17", "0001-01-01", "2024-02-29", "9999-12-31"] {
        let date: Date = text.parse().expect("a valid date");
        assert_eq!(date.written(), text);
        assert_eq!(date.year_month(), &text[..7]);
    }
    for text in [
        "", "2026-8-17", "2026-13-01", "2026-00-01", "2026-02-30", "2025-02-29", "2026-08-17 ",
        "2026/08/17", "20260817",
    ] {
        assert_eq!(Date::parse(text), Err(DateError), "{text}");
    }
}

#[test]
fn dates_compare_by_year_then_month_then_day() {
    let date = |text: &str| -> Date { text.parse().expect("a valid date") };
    assert!(date("2027-01-01").is_after(&date("2026-12-31")));
    assert!(date("2026-08-18").is_after(&date("2026-08-17")));
    assert!(!date("2026-08-17").is_after(&date("2026-08-17")));
    assert!(!date("2026-07-31").is_after(&date("2026-08-01")));
}

#[test]
fn a_registry_directory_is_read_by_name_and_only_its_toml_files() {
    let entry = |name: &str, file: bool| (name.to_string(), file);
    assert_eq!(
        files_to_read(&[
            entry("tests.toml", true),
            entry("README.md", true),
            entry("archive.toml", false),
            entry(".toml", true),
            entry("clones.toml", true),
            entry("a.toml.bak", true),
            entry("b..toml", true),
            entry("toml", true),
        ]),
        vec![
            "b..toml".to_string(),
            "clones.toml".to_string(),
            "tests.toml".to_string()
        ]
    );
    assert_eq!(files_to_read(&[]), Vec::<String>::new());
}

#[test]
fn what_loads_holds_together() {
    let loaded = load(&RegistryPolicy::default(), as_of()).expect("the registry loads");
    let claims = &loaded.registry.claims;
    for i in 0..claims.len() {
        let resolved = claims.value_at(i);
        assert_eq!(claims.key_at(i), &resolved.claim.claim_id);
        assert_eq!(resolved.claim.claim_id, resolved.claim.canonical_id());
        assert!(!resolved.claim.does_not_predict.is_empty());
        assert_eq!(resolved.stale, as_of().is_after(&resolved.claim.expiry));
    }
    let metrics = &loaded.registry.metrics;
    for i in 0..metrics.len() {
        assert!(claims.contains_key(&metrics.value_at(i).claim_id));
    }
}

#[test]
fn the_day_of_a_lint_changes_no_error() {
    let mut files = shipped_files();
    files[0].1.claims[0].owner = " \t".to_string();
    files[1].1.claims[0].does_not_predict.clear();
    files[2].1.metrics[0].claim_id = "nobody@1|declares|this".to_string();
    let errors = |day: &str| -> Vec<String> {
        let (_, report) = lint(&files, &RegistryPolicy::default(), day.parse().unwrap());
        report
            .errors()
            .iter()
            .map(|d| format!("{} {} {}", d.code, d.location, d.message))
            .collect()
    };
    let today = errors("2026-08-17");
    assert_eq!(today.len(), 3);
    assert_eq!(today, errors("2099-01-01"));
    assert_eq!(today, errors("0001-01-01"));
}

#[test]
fn the_schedule_is_the_one_thing_that_is_not_about_evidence() {
    assert_eq!(SCHEDULING_HYGIENE_CODES, ["registry.expiry-stagger"]);
}

#[test]
fn each_expired_claim_is_noticed_once_even_where_the_registry_is_refused() {
    let mut files = shipped_files();
    files[0].1.claims[0].expiry = "2020-01-01".parse().expect("a valid date");
    files[0].1.claims[0].owner = String::new();
    files[1].1.claims[0].expiry = "2026-08-16".parse().expect("a valid date");
    files[2].1.claims[0].expiry = as_of();
    let expired = [
        files[0].1.claims[0].claim_id.clone(),
        files[1].1.claims[0].claim_id.clone(),
    ];

    let (registry, report) = lint(&files, &RegistryPolicy::default(), as_of());
    assert!(!report.errors().is_empty(), "a claim without an owner is refused");
    let notices: Vec<_> = report
        .diagnostics
        .iter()
        .filter(|d| d.code == "registry.evidence-stale")
        .collect();
    assert_eq!(notices.len(), 2);
    for (notice, id) in notices.iter().zip(&expired) {
        assert!(notice.message.contains(id.as_str()), "{notice:?}");
    }
    for (_, file) in &files {
        for claim in &file.claims {
            let merged = registry.claims.get(&claim.claim_id).expect("a merged claim");
            assert_eq!(merged.stale, expired.contains(&claim.claim_id));
        }
    }
}

#[test]
fn a_file_of_another_version_adds_one_error_and_nothing_else() {
    let without = shipped_files();
    let mut with = without.clone();
    let mut foreign = without[0].1.clone();
    foreign.schema_version = 9;
    with.insert(1, ("foreign.toml".to_string(), foreign));

    let (a, report_a) = lint(&without, &RegistryPolicy::default(), as_of());
    let (b, report_b) = lint(&with, &RegistryPolicy::default(), as_of());
    assert_eq!(a, b);
    assert_eq!(report_b.errors().len(), report_a.errors().len() + 1);
    let others: Vec<_> = report_b
        .diagnostics
        .iter()
        .filter(|d| d.code != "registry.schema-version")
        .cloned()
        .collect();
    assert_eq!(others, report_a.diagnostics);
    let added = &report_b.errors()[0];
    assert_eq!(added.location, "foreign.toml");
    assert_eq!(added.message, "unsupported registry schema_version 9 (expected 1)");
}
