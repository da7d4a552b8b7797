//! What a reader is told when a payload cannot be assembled or a registry
//! cannot be loaded.
use vstd::prelude::*;

use super::registry_load::RegistryLoadError;
use super::{AssemblyError, AssemblyErrorModel};
use crate::registry::RegistryError;
use crate::schema::payload::{LineSpan, ResultScope};
use crate::text;

verus! {

/// The `Debug` spelling of a text: between double quotes, escaped.
pub uninterp spec fn debug_text_of(text: Seq<char>) -> Seq<char>;

/// `format!("{:?}", ..)` of a `str`: a function of the text alone. Which
/// characters it escapes, and how, is left unsaid.
#[verifier::external_body]
fn debug_text(text: &str) -> (r: String)
    ensures
        r@ == debug_text_of(text@),
{
    format!("{:?}", text)
}

/// An optional text, as a debugging reader sees it.
pub open spec fn option_text(value: Option<String>) -> Seq<char> {
    match value {
        Some(text) => "Some("@ + debug_text_of(text@) + ")"@,
        None => "None"@,
    }
}

/// An optional line range, as a debugging reader sees it.
pub open spec fn span_text(span: Option<LineSpan>) -> Seq<char> {
    match span {
        Some(s) => "Some(LineSpan { start: "@ + text::decimal(s.start as nat) + ", end: "@
            + text::decimal(s.end as nat) + " })"@,
        None => "None"@,
    }
}

/// A scope, as a debugging reader sees it: every field by name.
pub open spec fn scope_text(scope: ResultScope) -> Seq<char> {
    "ResultScope { kind: "@ + scope.kind.variant_name() + ", path: "@ + option_text(scope.path)
        + ", blob_oid: "@ + option_text(scope.blob_oid) + ", symbol: "@ + option_text(scope.symbol)
        + ", line_span: "@ + span_text(scope.line_span) + " }"@
}

fn push_option(out: &mut String, value: &Option<String>)
    ensures
        final(out)@ == old(out)@ + option_text(*value),
{
    match value {
        Some(text) => {
            out.append("Some(");
            out.append(debug_text(text.as_str()).as_str());
            out.append(")");
        },
        None => {
            out.append("None");
        },
    }
    proof {
        assert(out@ =~= old(out)@ + option_text(*value));
    }
}

fn push_span(out: &mut String, span: Option<LineSpan>)
    ensures
        final(out)@ == old(out)@ + span_text(span),
{
    match span {
        Some(s) => {
            out.append("Some(LineSpan { start: ");
            text::push_decimal(out, s.start as u64);
            out.append(", end: ");
            text::push_decimal(out, s.end as u64);
            out.append(" })");
        },
        None => {
            out.append("None");
        },
    }
    proof {
        assert(out@ =~= old(out)@ + span_text(span));
    }
}

fn push_scope(out: &mut String, scope: &ResultScope)
    ensures
        final(out)@ == old(out)@ + scope_text(*scope),
{
    out.append("ResultScope { kind: ");
    out.append(scope.kind.name());
    out.append(", path: ");
    push_option(out, &scope.path);
    out.append(", blob_oid: ");
    push_option(out, &scope.blob_oid);
    out.append(", symbol: ");
    push_option(out, &scope.symbol);
    out.append(", line_span: ");
    push_span(out, scope.line_span);
    out.append(" }");
    proof {
        assert(out@ =~= old(out)@ + scope_text(*scope));
    }
}

impl AssemblyErrorModel {
    /// What a reader is told.
    pub open spec fn message(self) -> Seq<char> {
        match self {
            AssemblyErrorModel::DuplicateEngine(engine_id) =>
            "engine '"@ + engine_id + "' contributed twice to one payload"@,
            AssemblyErrorModel::EngineMismatch { metric_id, claimed, actual } =>
            "result '"@ + metric_id + "' says engine '"@ + claimed + "' but came from '"@ + actual
                + "'"@,
            AssemblyErrorModel::FamilyMismatch { engine_id, metric_id, result, descriptor, regime } =>
            "result '"@ + metric_id + "' from '"@ + engine_id + "' is stamped "@
                + result.variant_name() + " but the engine reports "@ + descriptor.variant_name()
                + " and its regime is "@ + regime.variant_name(),
            AssemblyErrorModel::Unsealed { engine_id, metric_id } =>
            "result '"@ + metric_id + "' from '"@ + engine_id + "' was never sealed"@,
            AssemblyErrorModel::DuplicateResult { metric_id, scope } =>
            "two results share the pairing key ('"@ + metric_id + "', "@ + scope_text(scope) + ")"@,
            AssemblyErrorModel::UnknownClaim { metric_id, claim_id } =>
            "result '"@ + metric_id + "' cites claim '"@ + claim_id
                + "', which the registry does not declare"@,
            AssemblyErrorModel::UnknownTamperSignal(metric_id) =>
            "tamper flag '"@ + metric_id
                + "' does not name a signal; every detector flag is `tamper.<signal>` as `TamperSignal` spells it"@,
            AssemblyErrorModel::DigestMismatch { engine_id, metric_id, base_oid, head_oid } =>
            "result '"@ + metric_id + "' from '"@ + engine_id
                + "' carries a digest that is not the digest of its own contents against ("@
                + base_oid + ", "@ + head_oid + ")"@,
            AssemblyErrorModel::UndeclaredMetric { engine_id, metric_id } =>
            "result '"@ + metric_id + "' from '"@ + engine_id
                + "' names a metric the registry does not declare"@,
            AssemblyErrorModel::MetricRebound { metric_id, declared, cited } =>
            "metric '"@ + metric_id + "' is declared against claim '"@ + declared
                + "' and this result cites '"@ + cited + "'"@,
            AssemblyErrorModel::MetricDeclarationMismatch { metric_id, field, declared, carried } =>
            "metric '"@ + metric_id + "' is declared "@ + field + " "@ + declared
                + " and this result says "@ + carried,
            AssemblyErrorModel::EvidenceClaimMismatch { metric_id, claim_id, evidence_claim_id } =>
            "result '"@ + metric_id + "' cites claim '"@ + claim_id
                + "' and carries evidence for '"@ + evidence_claim_id + "'"@,
            AssemblyErrorModel::MissingEngine(engine_id) =>
            "engine '"@ + engine_id
                + "' is declared in the registry and appears in this payload neither          as an output nor as a failure"@,
            AssemblyErrorModel::UnknownEngine(engine_id) =>
            "engine '"@ + engine_id
                + "' contributed to this payload and no registry file declares it"@,
            AssemblyErrorModel::DuplicateFailure(engine_id) =>
            "engine '"@ + engine_id + "' failed twice in one payload"@,
            AssemblyErrorModel::EngineSucceededAndFailed(engine_id) =>
            "engine '"@ + engine_id + "' both produced results and reported a failure"@,
            AssemblyErrorModel::UnverifiableJustification(reference) =>
            "this is a self-report and it carries a justification marked verified ("@ + reference
                + ");          only a verifier writing an attestation record can mint one"@,
            AssemblyErrorModel::PolicyHash(reason) =>
            "the policy in force could not be hashed: "@ + reason,
        }
    }
}

impl AssemblyError {
    /// What a reader is told.
    pub fn describe(&self) -> (r: String)
        ensures
            r@ == self@.message(),
    {
        match self {
            AssemblyError::DuplicateEngine { engine_id } => {
                let mut out = "engine '".to_owned();
                out.append(engine_id.as_str());
                out.append("' contributed twice to one payload");
                out
            },
            AssemblyError::EngineMismatch { metric_id, claimed, actual } => {
                let mut out = "result '".to_owned();
                out.append(metric_id.as_str());
                out.append("' says engine '");
                out.append(claimed.as_str());
                out.append("' but came from '");
                out.append(actual.as_str());
                out.append("'");
                out
            },
            AssemblyError::FamilyMismatch { engine_id, metric_id, result, descriptor, regime } => {
                let mut out = "result '".to_owned();
                out.append(metric_id.as_str());
                out.append("' from '");
                out.append(engine_id.as_str());
                out.append("' is stamped ");
                out.append(result.name());
                out.append(" but the engine reports ");
                out.append(descriptor.name());
                out.append(" and its regime is ");
                out.append(regime.name());
                out
            },
            AssemblyError::Unsealed { engine_id, metric_id } => {
                let mut out = "result '".to_owned();
                out.append(metric_id.as_str());
                out.append("' from '");
                out.append(engine_id.as_str());
                out.append("' was never sealed");
                out
            },
            AssemblyError::DuplicateResult { metric_id, scope } => {
                let mut out = "two results share the pairing key ('".to_owned();
                out.append(metric_id.as_str());
                out.append("', ");
                push_scope(&mut out, scope);
                out.append(")");
                out
            },
            AssemblyError::UnknownClaim { metric_id, claim_id } => {
                let mut out = "result '".to_owned();
                out.append(metric_id.as_str());
                out.append("' cites claim '");
                out.append(claim_id.as_str());
                out.append("', which the registry does not declare");
                out
            },
            AssemblyError::UnknownTamperSignal { metric_id } => {
                let mut out = "tamper flag '".to_owned();
                out.append(metric_id.as_str());
                out.append("' does not name a signal; every detector flag is `tamper.<signal>` as `TamperSignal` spells it");
                out
            },
            AssemblyError::DigestMismatch { engine_id, metric_id, base_oid, head_oid } => {
                let mut out = "result '".to_owned();
                out.append(metric_id.as_str());
                out.append("' from '");
                out.append(engine_id.as_str());
                out.append("' carries a digest that is not the digest of its own contents against (");
                out.append(base_oid.as_str());
                out.append(", ");
                out.append(head_oid.as_str());
                out.append(")");
                out
            },
            AssemblyError::UndeclaredMetric { engine_id, metric_id } => {
                let mut out = "result '".to_owned();
                out.append(metric_id.as_str());
                out.append("' from '");
                out.append(engine_id.as_str());
                out.append("' names a metric the registry does not declare");
                out
            },
            AssemblyError::MetricRebound { metric_id, declared, cited } => {
                let mut out = "metric '".to_owned();
                out.append(metric_id.as_str());
                out.append("' is declared against claim '");
                out.append(declared.as_str());
                out.append("' and this result cites '");
                out.append(cited.as_str());
                out.append("'");
                out
            },
            AssemblyError::MetricDeclarationMismatch { metric_id, field, declared, carried } => {
                let mut out = "metric '".to_owned();
                out.append(metric_id.as_str());
                out.append("' is declared ");
                out.append(field);
                out.append(" ");
                out.append(declared.as_str());
                out.append(" and this result says ");
                out.append(carried.as_str());
                out
            },
            AssemblyError::EvidenceClaimMismatch { metric_id, claim_id, evidence_claim_id } => {
                let mut out = "result '".to_owned();
                out.append(metric_id.as_str());
                out.append("' cites claim '");
                out.append(claim_id.as_str());
                out.append("' and carries evidence for '");
                out.append(evidence_claim_id.as_str());
                out.append("'");
                out
            },
            AssemblyError::MissingEngine { engine_id } => {
                let mut out = "engine '".to_owned();
                out.append(engine_id.as_str());
                out.append("' is declared in the registry and appears in this payload neither          as an output nor as a failure");
                out
            },
            AssemblyError::UnknownEngine { engine_id } => {
                let mut out = "engine '".to_owned();
                out.append(engine_id.as_str());
                out.append("' contributed to this payload and no registry file declares it");
                out
            },
            AssemblyError::DuplicateFailure { engine_id } => {
                let mut out = "engine '".to_owned();
                out.append(engine_id.as_str());
                out.append("' failed twice in one payload");
                out
            },
            AssemblyError::EngineSucceededAndFailed { engine_id } => {
                let mut out = "engine '".to_owned();
                out.append(engine_id.as_str());
                out.append("' both produced results and reported a failure");
                out
            },
            AssemblyError::UnverifiableJustification { reference } => {
                let mut out = "this is a self-report and it carries a justification marked verified (".to_owned();
                out.append(reference.as_str());
                out.append(");          only a verifier writing an attestation record can mint one");
                out
            },
            AssemblyError::PolicyHash(reason) => {
                let mut out = "the policy in force could not be hashed: ".to_owned();
                out.append(reason.as_str());
                out
            },
        }
    }
}

impl RegistryError {
    /// What a reader is told.
    pub open spec fn message(self) -> Seq<char> {
        match self {
            RegistryError::Toml { path, reason } => path@ + ": not valid TOML: "@ + reason@,
        }
    }

    /// What a reader is told.
    pub fn describe(&self) -> (r: String)
        ensures
            r@ == self.message(),
    {
        match self {
            RegistryError::Toml { path, reason } => {
                let mut out = path.clone();
                out.append(": not valid TOML: ");
                out.append(reason.as_str());
                out
            },
        }
    }
}

impl RegistryLoadError {
    /// What a reader is told.
    pub open spec fn message(self) -> Seq<char> {
        match self {
            RegistryLoadError::Io { path, reason } => "registry "@ + path@ + ": "@ + reason@,
            RegistryLoadError::Parse(e) => e.message(),
            RegistryLoadError::Lint { path, errors } => "registry "@ + path@
                + " failed the evidence lint: "@ + text::joined(text::texts(errors@), "; "@),
        }
    }

    /// What a reader is told.
    pub fn describe(&self) -> (r: String)
        ensures
            r@ == self.message(),
    {
        match self {
            RegistryLoadError::Io { path, reason } => {
                let mut out = "registry ".to_owned();
                out.append(path.as_str());
                out.append(": ");
                out.append(reason.as_str());
                out
            },
            RegistryLoadError::Parse(e) => e.describe(),
            RegistryLoadError::Lint { path, errors } => {
                let mut out = "registry ".to_owned();
                out.append(path.as_str());
                out.append(" failed the evidence lint: ");
                out.append(text::join(errors.as_slice(), "; ").as_str());
                out
            },
        }
    }
}

} // verus!
