//! What a reader is told, to the letter.

use andon_core::payload::registry_load::RegistryLoadError;
use andon_core::payload::AssemblyError;
use andon_core::registry::RegistryError;
use andon_core::schema::enums::EngineFamily;
use andon_core::schema::payload::{LineSpan, ResultScope, ScopeKind};

fn s(text: &str) -> String {
    text.to_string()
}

fn says(error: AssemblyError, expected: &str) {
    assert_eq!(error.describe(), expected);
}

#[test]
fn an_engine_that_is_named_twice_or_in_both_lists_is_told_so() {
    says(
        AssemblyError::DuplicateEngine { engine_id: s("static") },
        "engine 'static' contributed twice to one payload",
    );
    says(
        AssemblyError::DuplicateFailure { engine_id: s("clones") },
        "engine 'clones' failed twice in one payload",
    );
    says(
        AssemblyError::EngineSucceededAndFailed { engine_id: s("clones") },
        "engine 'clones' both produced results and reported a failure",
    );
}

#[test]
fn a_roster_that_does_not_match_is_told_by_engine() {
    says(
        AssemblyError::UnknownEngine { engine_id: s("rogue") },
        "engine 'rogue' contributed to this payload and no registry file declares it",
    );
    says(
        AssemblyError::MissingEngine { engine_id: s("clones") },
        "engine 'clones' is declared in the registry and appears in this payload neither          as an output nor as a failure",
    );
}

#[test]
fn a_result_from_the_wrong_engine_or_family_names_both() {
    says(
        AssemblyError::EngineMismatch {
            metric_id: s("static.x"),
            claimed: s("clones"),
            actual: s("static"),
        },
        "result 'static.x' says engine 'clones' but came from 'static'",
    );
    says(
        AssemblyError::FamilyMismatch {
            engine_id: s("static"),
            metric_id: s("static.x"),
            result: EngineFamily::Clones,
            descriptor: EngineFamily::Static,
            regime: EngineFamily::Tamper,
        },
        "result 'static.x' from 'static' is stamped Clones but the engine reports Static and its regime is Tamper",
    );
}

#[test]
fn a_result_without_the_right_digest_is_told_against_the_tuple() {
    says(
        AssemblyError::Unsealed { engine_id: s("static"), metric_id: s("static.x") },
        "result 'static.x' from 'static' was never sealed",
    );
    says(
        AssemblyError::DigestMismatch {
            engine_id: s("static"),
            metric_id: s("static.x"),
            base_oid: s("aaa"),
            head_oid: s("bbb"),
        },
        "result 'static.x' from 'static' carries a digest that is not the digest of its own contents against (aaa, bbb)",
    );
}

#[test]
fn a_shared_pairing_key_shows_the_whole_scope() {
    let scope = ResultScope {
        kind: ScopeKind::Function,
        path: Some(s("src/a \"b\".rs")),
        blob_oid: None,
        symbol: Some(s("tab\there")),
        line_span: Some(LineSpan { start: 3, end: 17 }),
    };
    let derived = format!("{:?}", scope);
    says(
        AssemblyError::DuplicateResult { metric_id: s("static.x"), scope: Box::new(scope) },
        &format!("two results share the pairing key ('static.x', {derived})"),
    );
    says(
        AssemblyError::DuplicateResult {
            metric_id: s("static.x"),
            scope: Box::new(ResultScope {
                kind: ScopeKind::Repository,
                path: None,
                blob_oid: Some(s("abc")),
                symbol: None,
                line_span: None,
            }),
        },
        "two results share the pairing key ('static.x', ResultScope { kind: Repository, path: None, blob_oid: Some(\"abc\"), symbol: None, line_span: None })",
    );
}

#[test]
fn a_result_that_disagrees_with_the_registry_says_how() {
    says(
        AssemblyError::UnknownClaim { metric_id: s("static.x"), claim_id: s("c") },
        "result 'static.x' cites claim 'c', which the registry does not declare",
    );
    says(
        AssemblyError::UndeclaredMetric { engine_id: s("static"), metric_id: s("static.x") },
        "result 'static.x' from 'static' names a metric the registry does not declare",
    );
    says(
        AssemblyError::MetricRebound { metric_id: s("static.x"), declared: s("a"), cited: s("b") },
        "metric 'static.x' is declared against claim 'a' and this result cites 'b'",
    );
    says(
        AssemblyError::MetricDeclarationMismatch {
            metric_id: s("static.x"),
            field: "class",
            declared: s("Descriptive"),
            carried: s("Actionable"),
        },
        "metric 'static.x' is declared class Descriptive and this result says Actionable",
    );
    says(
        AssemblyError::EvidenceClaimMismatch {
            metric_id: s("static.x"),
            claim_id: s("a"),
            evidence_claim_id: s("b"),
        },
        "result 'static.x' cites claim 'a' and carries evidence for 'b'",
    );
}

#[test]
fn the_remaining_refusals_are_told_in_words() {
    says(
        AssemblyError::UnknownTamperSignal { metric_id: s("tamper.nope") },
        "tamper flag 'tamper.nope' does not name a signal; every detector flag is `tamper.<signal>` as `TamperSignal` spells it",
    );
    says(
        AssemblyError::UnverifiableJustification { reference: s("PR-7") },
        "this is a self-report and it carries a justification marked verified (PR-7);          only a verifier writing an attestation record can mint one",
    );
    says(
        AssemblyError::PolicyHash(s("no canonical form")),
        "the policy in force could not be hashed: no canonical form",
    );
}

#[test]
fn a_registry_that_cannot_be_loaded_names_the_path() {
    let io = RegistryLoadError::Io { path: s("reg"), reason: s("denied") };
    assert_eq!(io.describe(), "registry reg: denied");
    let parse = RegistryLoadError::Parse(RegistryError::Toml {
        path: s("reg/a.toml"),
        reason: s("expected ="),
    });
    assert_eq!(parse.describe(), "reg/a.toml: not valid TOML: expected =");
    let lint = RegistryLoadError::Lint { path: s("reg"), errors: vec![s("one"), s("two")] };
    assert_eq!(lint.describe(), "registry reg failed the evidence lint: one; two");
}
