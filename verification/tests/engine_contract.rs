//! The properties the engine boundary enforces.

use andon_core::engine::{
    run_engine, EngineDescriptor, EngineError, MeasureContext, MeasureEngine, MetricDescriptor,
};
use andon_core::policy::Policy;
use andon_core::registry::{EngineRegistryFile, MetricDecl, Registry};
use andon_core::schema::enums::{Completeness, EngineClass, EngineFamily, MetricClass, Severity};
use andon_core::schema::payload::{MeasurementResult, MetricValue, Ratio};
use andon_core::schema::regime::MeasurementRegime;
use andon_core::strmap::StrMap;
use andon_core::testing::{sample_compare_context, sample_regime, sample_result};
use andon_core::verdict::ladder::{Rung, SeverityLadder, Threshold};

/// The manifest the engine below matches.
fn manifest() -> EngineRegistryFile {
    EngineRegistryFile {
        schema_version: 1,
        engine: "static-metrics".to_string(),
        family: EngineFamily::Static,
        metrics: vec![MetricDecl {
            metric_id: METRIC.to_string(),
            claim_id: CLAIM.to_string(),
            class: MetricClass::DiffActionable,
            deterministic: true,
        }],
        claims: Vec::new(),
    }
}

const CLAIM: &str = "andon.static.cognitive@1|typescript|comprehension-time";
const METRIC: &str = "sample.metric";

struct TestEngine {
    class: EngineClass,
    metrics: Vec<MetricDescriptor>,
}

impl TestEngine {
    fn new(class: EngineClass) -> Self {
        Self {
            class,
            metrics: vec![MetricDescriptor {
                metric_id: METRIC.to_string(),
                claim_id: CLAIM.to_string(),
                class: MetricClass::DiffActionable,
                deterministic: true,
            }],
        }
    }
}

impl MeasureEngine for TestEngine {
    fn descriptor(&self) -> EngineDescriptor {
        EngineDescriptor {
            engine_id: "static-metrics".to_string(),
            family: EngineFamily::Static,
            class: self.class,
            version: "0.1.0".to_string(),
        }
    }

    fn metrics(&self) -> Vec<MetricDescriptor> {
        self.metrics.clone()
    }

    fn severity_ladders(&self) -> StrMap<SeverityLadder> {
        let mut ladders = StrMap::new();
        for metric in &self.metrics {
            ladders.insert(metric.metric_id.clone(), SeverityLadder::NoOpinion);
        }
        ladders
    }

    fn regime(&self) -> MeasurementRegime {
        sample_regime()
    }

    fn measure(&self, _ctx: &MeasureContext) -> Result<Vec<MeasurementResult>, EngineError> {
        let mut result = sample_result();
        result.digest = String::new();
        Ok(vec![result])
    }
}

fn context(sandbox_available: bool) -> MeasureContext {
    MeasureContext {
        compare_context: sample_compare_context(),
        policy: Policy::default(),
        changed_paths: vec!["src/index.ts".to_string()],
        sandbox_available,
    }
}

#[test]
fn a_code_exec_engine_is_refused_without_a_sandbox() {
    let engine = TestEngine::new(EngineClass::CodeExec);
    let error = run_engine(&engine, &context(false)).expect_err("must be refused");
    assert!(
        matches!(error, EngineError::SandboxRequired { ref engine_id } if engine_id == "static-metrics"),
        "expected SandboxRequired, got {error:?}"
    );
}

#[test]
fn a_code_exec_engine_runs_when_a_sandbox_is_available() {
    let engine = TestEngine::new(EngineClass::CodeExec);
    assert_eq!(run_engine(&engine, &context(true)).unwrap().len(), 1);
}

#[test]
fn a_static_safe_engine_runs_either_way() {
    let engine = TestEngine::new(EngineClass::StaticSafe);
    assert_eq!(run_engine(&engine, &context(false)).unwrap().len(), 1);
    assert_eq!(run_engine(&engine, &context(true)).unwrap().len(), 1);
}

#[test]
fn results_come_back_sealed_against_the_compare_context() {
    let engine = TestEngine::new(EngineClass::StaticSafe);
    let results = run_engine(&engine, &context(false)).unwrap();
    let digest = &results[0].digest;
    assert_eq!(digest.len(), 64, "expected a hex SHA-256, got {digest:?}");

    let mut other = context(false);
    other.compare_context.head_oid = "9".repeat(40);
    let rebound = run_engine(&engine, &other).unwrap();
    assert_ne!(&rebound[0].digest, digest);
}

#[test]
fn an_engine_matching_its_manifest_passes_the_drift_check() {
    let file = manifest();
    let engine = TestEngine::new(EngineClass::StaticSafe);
    Registry::check_engine(&file, &engine).expect("manifest and engine agree");
}

#[test]
fn a_metric_emitted_but_not_declared_is_caught() {
    let file = manifest();
    let mut engine = TestEngine::new(EngineClass::StaticSafe);
    engine.metrics.push(MetricDescriptor {
        metric_id: "static.undeclared".to_string(),
        claim_id: CLAIM.to_string(),
        class: MetricClass::DiffActionable,
        deterministic: true,
    });
    let problems = Registry::check_engine(&file, &engine).expect_err("drift must be caught");
    assert!(
        problems
            .iter()
            .any(|p| p.contains("static.undeclared") && p.contains("absent from the registry")),
        "got {problems:?}"
    );
}

#[test]
fn a_metric_declared_but_never_emitted_is_caught() {
    let file = manifest();
    let mut engine = TestEngine::new(EngineClass::StaticSafe);
    engine.metrics.clear();
    let problems = Registry::check_engine(&file, &engine).expect_err("drift must be caught");
    assert!(
        problems.iter().any(|p| p.contains("never emits it")),
        "got {problems:?}"
    );
}

#[test]
fn a_metric_citing_a_different_claim_in_code_is_caught() {
    let file = manifest();
    let mut engine = TestEngine::new(EngineClass::StaticSafe);
    engine.metrics[0].claim_id = "andon.static.cognitive@2|typescript|comprehension-time".into();
    let problems = Registry::check_engine(&file, &engine).expect_err("drift must be caught");
    assert!(
        problems.iter().any(|p| p.contains("in code and")),
        "got {problems:?}"
    );
}

#[test]
fn a_determinism_disagreement_is_caught() {
    let file = manifest();
    let mut engine = TestEngine::new(EngineClass::StaticSafe);
    engine.metrics[0].deterministic = false;
    let problems = Registry::check_engine(&file, &engine).expect_err("drift must be caught");
    assert!(
        problems.iter().any(|p| p.contains("determinism")),
        "got {problems:?}"
    );
}

#[test]
fn an_engine_identity_mismatch_is_caught() {
    let file = manifest();
    struct Renamed(TestEngine);
    impl MeasureEngine for Renamed {
        fn descriptor(&self) -> EngineDescriptor {
            EngineDescriptor {
                engine_id: "clones".to_string(),
                family: EngineFamily::Clones,
                ..self.0.descriptor()
            }
        }
        fn metrics(&self) -> Vec<MetricDescriptor> {
            self.0.metrics()
        }
        fn severity_ladders(&self) -> StrMap<SeverityLadder> {
            self.0.severity_ladders()
        }
        fn regime(&self) -> MeasurementRegime {
            self.0.regime()
        }
        fn measure(&self, ctx: &MeasureContext) -> Result<Vec<MeasurementResult>, EngineError> {
            self.0.measure(ctx)
        }
    }
    let engine = Renamed(TestEngine::new(EngineClass::StaticSafe));
    let problems = Registry::check_engine(&file, &engine).expect_err("drift must be caught");
    assert_eq!(
        problems.len(),
        2,
        "engine id and family both differ: {problems:?}"
    );
}

/// An engine that hands back exactly what it was given.
struct Scripted {
    results: Vec<MeasurementResult>,
    ladder: Option<SeverityLadder>,
}

impl MeasureEngine for Scripted {
    fn descriptor(&self) -> EngineDescriptor {
        TestEngine::new(EngineClass::StaticSafe).descriptor()
    }
    fn metrics(&self) -> Vec<MetricDescriptor> {
        Vec::new()
    }
    fn severity_ladders(&self) -> StrMap<SeverityLadder> {
        let mut ladders = StrMap::new();
        if let Some(ladder) = self.ladder {
            ladders.insert(METRIC.to_string(), ladder);
        }
        ladders
    }
    fn regime(&self) -> MeasurementRegime {
        sample_regime()
    }
    fn measure(&self, _ctx: &MeasureContext) -> Result<Vec<MeasurementResult>, EngineError> {
        if self.results.is_empty() {
            return Err(EngineError::Failed {
                engine_id: "static-metrics".to_string(),
                reason: "nothing to read".to_string(),
            });
        }
        Ok(self.results.clone())
    }
}

const RUNGS: &[Rung] = &[Rung {
    at: Threshold::Count(10),
    severity: Severity::High,
}];

#[test]
fn the_boundary_assigns_the_severity_the_ladder_declares() {
    let mut degraded = sample_result();
    degraded.completeness = Completeness::Partial;
    let engine = Scripted {
        results: vec![sample_result(), degraded],
        ladder: Some(SeverityLadder::Thresholds(RUNGS)),
    };
    let results = run_engine(&engine, &context(false)).unwrap();
    assert_eq!(results[0].severity, Severity::High);
    assert_eq!(
        results[1].severity,
        Severity::Low,
        "a partial result is capped whatever its number is"
    );
}

#[test]
fn each_refusal_of_the_boundary_names_what_is_wrong() {
    let mut misfamilied = sample_result();
    misfamilied.family = EngineFamily::Clones;
    let engine = Scripted {
        results: vec![misfamilied],
        ladder: Some(SeverityLadder::NoOpinion),
    };
    assert_eq!(
        run_engine(&engine, &context(false)).expect_err("refused"),
        EngineError::FamilyMismatch {
            metric_id: METRIC.to_string(),
            result: EngineFamily::Clones,
            descriptor: EngineFamily::Static,
            regime: EngineFamily::Static,
        }
    );

    let engine = Scripted {
        results: vec![sample_result()],
        ladder: None,
    };
    assert_eq!(
        run_engine(&engine, &context(false)).expect_err("refused"),
        EngineError::NoLadder {
            metric_id: METRIC.to_string()
        }
    );

    let engine = Scripted {
        results: vec![sample_result()],
        ladder: Some(SeverityLadder::Flag(Severity::High)),
    };
    assert!(matches!(
        run_engine(&engine, &context(false)).expect_err("refused"),
        EngineError::Ladder { .. }
    ));

    let mut uncarriable = sample_result();
    uncarriable.value = MetricValue::Ratio(Ratio::NotANumber);
    let engine = Scripted {
        results: vec![uncarriable],
        ladder: Some(SeverityLadder::NoOpinion),
    };
    assert!(matches!(
        run_engine(&engine, &context(false)).expect_err("refused"),
        EngineError::Canonical { .. }
    ));

    let engine = Scripted {
        results: Vec::new(),
        ladder: None,
    };
    assert!(matches!(
        run_engine(&engine, &context(false)).expect_err("refused"),
        EngineError::Failed { .. }
    ));
}
