//! The closed vocabularies of the payload schema.
//!
//! Every string an agent or a verifier branches on lives here as an enum. The
//! wire spellings are a published contract, which is why they are not
//! internally consistent: `escalate_to_human` is snake_case while
//! `confirmed-static` and `parse-degraded` are kebab-case.
use vstd::prelude::*;

verus! {

/// What an actor is told to do about a change.
///
/// Deliberately categorical: there is no numeric quality value for an agent to
/// optimize against.
#[derive(Debug, Clone, Copy, PartialEq, Eq, Structural)]
pub enum Verdict {
    /// Nothing above the advisory floor.
    Pass,
    /// Findings worth reporting that must not stop the line.
    Advise,
    /// The line stops.
    Block,
    /// The iteration cap fired. A human decides; the agent must not keep
    /// trying.
    EscalateToHuman,
}

impl View for Verdict {
    type V = Self;

    open spec fn view(&self) -> Self {
        *self
    }
}

impl Verdict {
    /// How this value is spelled on the wire.
    pub open spec fn wire_name(self) -> Seq<char> {
        match self {
            Verdict::Pass => "pass"@,
            Verdict::Advise => "advise"@,
            Verdict::Block => "block"@,
            Verdict::EscalateToHuman => "escalate_to_human"@,
        }
    }

    /// The spelling of this value on the wire.
    pub fn wire(self) -> (r: &'static str)
        ensures
            r@ == self.wire_name(),
    {
        match self {
            Verdict::Pass => "pass",
            Verdict::Advise => "advise",
            Verdict::Block => "block",
            Verdict::EscalateToHuman => "escalate_to_human",
        }
    }
}

/// How much trust a measurement record has earned.
///
/// Only `confirmed` and `confirmed-static` are passes. The `unwitnessed-*`
/// values are explicitly not tamper accusations.
#[derive(Debug, Clone, Copy, PartialEq, Eq, Structural)]
pub enum Attestation {
    /// A recompute matched every compared digest.
    Confirmed,
    /// A recompute with no self-report to compare against.
    ConfirmedStatic,
    /// Digests disagree on an equal tuple at an equal regime.
    Divergent,
    /// No recompute happened. Neutral, not negative.
    Unwitnessed,
    /// The regimes differ, so the digests were never comparable.
    UnwitnessedVersionSkew,
    /// The claimed base is stale: not an attack, and still not a pass.
    UnwitnessedBaseMismatch,
}

impl View for Attestation {
    type V = Self;

    open spec fn view(&self) -> Self {
        *self
    }
}

impl Attestation {
    /// How this value is spelled on the wire.
    pub open spec fn wire_name(self) -> Seq<char> {
        match self {
            Attestation::Confirmed => "confirmed"@,
            Attestation::ConfirmedStatic => "confirmed-static"@,
            Attestation::Divergent => "divergent"@,
            Attestation::Unwitnessed => "unwitnessed"@,
            Attestation::UnwitnessedVersionSkew => "unwitnessed-version-skew"@,
            Attestation::UnwitnessedBaseMismatch => "unwitnessed-base-mismatch"@,
        }
    }

    /// The spelling of this value on the wire.
    pub fn wire(self) -> (r: &'static str)
        ensures
            r@ == self.wire_name(),
    {
        match self {
            Attestation::Confirmed => "confirmed",
            Attestation::ConfirmedStatic => "confirmed-static",
            Attestation::Divergent => "divergent",
            Attestation::Unwitnessed => "unwitnessed",
            Attestation::UnwitnessedVersionSkew => "unwitnessed-version-skew",
            Attestation::UnwitnessedBaseMismatch => "unwitnessed-base-mismatch",
        }
    }
}

/// Deterministic signals that a number moved for a reason other than the code
/// getting better.
#[derive(Debug, Clone, Copy, PartialEq, Eq, Structural)]
pub enum TamperSignal {
    /// Suppression density rising in the diff.
    SuppressionDensity,
    /// Tests deleted or marked skipped.
    TestRemoval,
    /// Coverage-exclusion configuration widened.
    CoverageExclusionDrift,
    /// New tests that execute code without asserting on it.
    AssertionFreeTest,
    /// Thresholds edited in tool configuration inside the measured change.
    ThresholdConfigEdit,
    /// A hard-coded lookup table standing in for an implementation.
    LookupTableBlowup,
    /// Parse errors rose, hiding code from the static engines.
    ParseErrorDelta,
    /// The claimed base is not an ancestor of the trusted branch. Raised by a
    /// verifier, never by a detector.
    BaseFabrication,
}

impl View for TamperSignal {
    type V = Self;

    open spec fn view(&self) -> Self {
        *self
    }
}

impl TamperSignal {
    /// How this value is spelled on the wire.
    pub open spec fn wire_name(self) -> Seq<char> {
        match self {
            TamperSignal::SuppressionDensity => "suppression-density"@,
            TamperSignal::TestRemoval => "test-removal"@,
            TamperSignal::CoverageExclusionDrift => "coverage-exclusion-drift"@,
            TamperSignal::AssertionFreeTest => "assertion-free-test"@,
            TamperSignal::ThresholdConfigEdit => "threshold-config-edit"@,
            TamperSignal::LookupTableBlowup => "lookup-table-blowup"@,
            TamperSignal::ParseErrorDelta => "parse-error-delta"@,
            TamperSignal::BaseFabrication => "base-fabrication"@,
        }
    }

    /// The spelling of this value on the wire.
    pub fn wire(self) -> (r: &'static str)
        ensures
            r@ == self.wire_name(),
    {
        match self {
            TamperSignal::SuppressionDensity => "suppression-density",
            TamperSignal::TestRemoval => "test-removal",
            TamperSignal::CoverageExclusionDrift => "coverage-exclusion-drift",
            TamperSignal::AssertionFreeTest => "assertion-free-test",
            TamperSignal::ThresholdConfigEdit => "threshold-config-edit",
            TamperSignal::LookupTableBlowup => "lookup-table-blowup",
            TamperSignal::ParseErrorDelta => "parse-error-delta",
            TamperSignal::BaseFabrication => "base-fabrication",
        }
    }
}

/// How complete a measurement is. Absence of data is always said out loud rather
/// than reported as a zero.
#[derive(Debug, Clone, Copy, PartialEq, Eq, Structural)]
pub enum Completeness {
    /// Everything the engine set out to measure was measured.
    Complete,
    /// Some results are missing and named as missing.
    Partial,
    /// The parser gave up on part of the input.
    ParseDegraded,
    /// The inputs needed did not exist.
    Unwitnessed,
}

impl View for Completeness {
    type V = Self;

    open spec fn view(&self) -> Self {
        *self
    }
}

impl Completeness {
    /// How this value is spelled on the wire.
    pub open spec fn wire_name(self) -> Seq<char> {
        match self {
            Completeness::Complete => "complete"@,
            Completeness::Partial => "partial"@,
            Completeness::ParseDegraded => "parse-degraded"@,
            Completeness::Unwitnessed => "unwitnessed"@,
        }
    }

    /// The spelling of this value on the wire.
    pub fn wire(self) -> (r: &'static str)
        ensures
            r@ == self.wire_name(),
    {
        match self {
            Completeness::Complete => "complete",
            Completeness::Partial => "partial",
            Completeness::ParseDegraded => "parse-degraded",
            Completeness::Unwitnessed => "unwitnessed",
        }
    }

    /// The name of this value.
    pub open spec fn variant_name(self) -> Seq<char> {
        match self {
            Completeness::Complete => "Complete"@,
            Completeness::Partial => "Partial"@,
            Completeness::ParseDegraded => "ParseDegraded"@,
            Completeness::Unwitnessed => "Unwitnessed"@,
        }
    }

    /// The name of this value.
    pub fn name(self) -> (r: &'static str)
        ensures
            r@ == self.variant_name(),
    {
        match self {
            Completeness::Complete => "Complete",
            Completeness::Partial => "Partial",
            Completeness::ParseDegraded => "ParseDegraded",
            Completeness::Unwitnessed => "Unwitnessed",
        }
    }

    /// The name of this value in lower case.
    pub open spec fn lower_variant_name(self) -> Seq<char> {
        match self {
            Completeness::Complete => "complete"@,
            Completeness::Partial => "partial"@,
            Completeness::ParseDegraded => "parsedegraded"@,
            Completeness::Unwitnessed => "unwitnessed"@,
        }
    }

    /// The name of this value in lower case.
    pub fn lower_name(self) -> (r: &'static str)
        ensures
            r@ == self.lower_variant_name(),
    {
        match self {
            Completeness::Complete => "complete",
            Completeness::Partial => "partial",
            Completeness::ParseDegraded => "parsedegraded",
            Completeness::Unwitnessed => "unwitnessed",
        }
    }
}

/// Finding severity. "MED+" means `Medium` or above.
#[derive(Debug, Clone, Copy, PartialEq, Eq, PartialOrd, Ord, Structural)]
pub enum Severity {
    /// Reported for context; never acted on.
    Info,
    /// Worth mentioning. Advises, never blocks.
    Low,
    /// The bottom of the MED+ band.
    Medium,
    /// A strong finding on a diff-actionable metric.
    High,
    /// Tamper signals and test failures under conservative defaults.
    Critical,
}

impl View for Severity {
    type V = Self;

    open spec fn view(&self) -> Self {
        *self
    }
}

impl Severity {
    /// How this value is spelled on the wire.
    pub open spec fn wire_name(self) -> Seq<char> {
        match self {
            Severity::Info => "info"@,
            Severity::Low => "low"@,
            Severity::Medium => "medium"@,
            Severity::High => "high"@,
            Severity::Critical => "critical"@,
        }
    }

    /// The spelling of this value on the wire.
    pub fn wire(self) -> (r: &'static str)
        ensures
            r@ == self.wire_name(),
    {
        match self {
            Severity::Info => "info",
            Severity::Low => "low",
            Severity::Medium => "medium",
            Severity::High => "high",
            Severity::Critical => "critical",
        }
    }

    /// The name of this value.
    pub open spec fn variant_name(self) -> Seq<char> {
        match self {
            Severity::Info => "Info"@,
            Severity::Low => "Low"@,
            Severity::Medium => "Medium"@,
            Severity::High => "High"@,
            Severity::Critical => "Critical"@,
        }
    }

    /// The name of this value.
    pub fn name(self) -> (r: &'static str)
        ensures
            r@ == self.variant_name(),
    {
        match self {
            Severity::Info => "Info",
            Severity::Low => "Low",
            Severity::Medium => "Medium",
            Severity::High => "High",
            Severity::Critical => "Critical",
        }
    }

    /// Where this value stands, weakest first.
    pub open spec fn rank(self) -> int {
        match self {
            Severity::Info => 0,
            Severity::Low => 1,
            Severity::Medium => 2,
            Severity::High => 3,
            Severity::Critical => 4,
        }
    }

    /// Where this value stands, weakest first.
    pub fn level(self) -> (r: u8)
        ensures
            r == self.rank(),
    {
        match self {
            Severity::Info => 0,
            Severity::Low => 1,
            Severity::Medium => 2,
            Severity::High => 3,
            Severity::Critical => 4,
        }
    }
}

/// The engine families. Every regime and every registry file maps onto exactly
/// one.
#[derive(Debug, Clone, Copy, PartialEq, Eq, PartialOrd, Ord, Structural)]
pub enum EngineFamily {
    /// Size and complexity metrics over parsed code.
    Static,
    /// Token-level duplication detection.
    Clones,
    /// Static gaming detectors.
    Tamper,
    /// History signals: churn, age, ownership, coupling.
    Process,
    /// Coverage-report parsing, negative signal only.
    Artifacts,
    /// The user test command, the one family that executes code.
    Tests,
}

impl View for EngineFamily {
    type V = Self;

    open spec fn view(&self) -> Self {
        *self
    }
}

impl EngineFamily {
    /// How this value is spelled on the wire.
    pub open spec fn wire_name(self) -> Seq<char> {
        match self {
            EngineFamily::Static => "static"@,
            EngineFamily::Clones => "clones"@,
            EngineFamily::Tamper => "tamper"@,
            EngineFamily::Process => "process"@,
            EngineFamily::Artifacts => "artifacts"@,
            EngineFamily::Tests => "tests"@,
        }
    }

    /// The spelling of this value on the wire.
    pub fn wire(self) -> (r: &'static str)
        ensures
            r@ == self.wire_name(),
    {
        match self {
            EngineFamily::Static => "static",
            EngineFamily::Clones => "clones",
            EngineFamily::Tamper => "tamper",
            EngineFamily::Process => "process",
            EngineFamily::Artifacts => "artifacts",
            EngineFamily::Tests => "tests",
        }
    }

    /// The name of this value.
    pub open spec fn variant_name(self) -> Seq<char> {
        match self {
            EngineFamily::Static => "Static"@,
            EngineFamily::Clones => "Clones"@,
            EngineFamily::Tamper => "Tamper"@,
            EngineFamily::Process => "Process"@,
            EngineFamily::Artifacts => "Artifacts"@,
            EngineFamily::Tests => "Tests"@,
        }
    }

    /// The name of this value.
    pub fn name(self) -> (r: &'static str)
        ensures
            r@ == self.variant_name(),
    {
        match self {
            EngineFamily::Static => "Static",
            EngineFamily::Clones => "Clones",
            EngineFamily::Tamper => "Tamper",
            EngineFamily::Process => "Process",
            EngineFamily::Artifacts => "Artifacts",
            EngineFamily::Tests => "Tests",
        }
    }
}

/// Whether running an engine executes repository code.
#[derive(Debug, Clone, Copy, PartialEq, Eq, Structural)]
pub enum EngineClass {
    /// Reads bytes and parses. Never spawns repository code.
    StaticSafe,
    /// Runs code from the repository under test. Requires the sandbox.
    CodeExec,
}

impl View for EngineClass {
    type V = Self;

    open spec fn view(&self) -> Self {
        *self
    }
}

impl EngineClass {
    /// How this value is spelled on the wire.
    pub open spec fn wire_name(self) -> Seq<char> {
        match self {
            EngineClass::StaticSafe => "static-safe"@,
            EngineClass::CodeExec => "code-exec"@,
        }
    }

    /// The spelling of this value on the wire.
    pub fn wire(self) -> (r: &'static str)
        ensures
            r@ == self.wire_name(),
    {
        match self {
            EngineClass::StaticSafe => "static-safe",
            EngineClass::CodeExec => "code-exec",
        }
    }
}

/// Whether a finding is something the agent that made the change can act on.
#[derive(Debug, Clone, Copy, PartialEq, Eq, Structural)]
pub enum MetricClass {
    /// Fixable inside the change being measured.
    DiffActionable,
    /// True and worth knowing, but about the surrounding code.
    ContextInformational,
}

impl View for MetricClass {
    type V = Self;

    open spec fn view(&self) -> Self {
        *self
    }
}

impl MetricClass {
    /// How this value is spelled on the wire.
    pub open spec fn wire_name(self) -> Seq<char> {
        match self {
            MetricClass::DiffActionable => "diff-actionable"@,
            MetricClass::ContextInformational => "context-informational"@,
        }
    }

    /// The spelling of this value on the wire.
    pub fn wire(self) -> (r: &'static str)
        ensures
            r@ == self.wire_name(),
    {
        match self {
            MetricClass::DiffActionable => "diff-actionable",
            MetricClass::ContextInformational => "context-informational",
        }
    }

    /// The name of this value.
    pub open spec fn variant_name(self) -> Seq<char> {
        match self {
            MetricClass::DiffActionable => "DiffActionable"@,
            MetricClass::ContextInformational => "ContextInformational"@,
        }
    }

    /// The name of this value.
    pub fn name(self) -> (r: &'static str)
        ensures
            r@ == self.variant_name(),
    {
        match self {
            MetricClass::DiffActionable => "DiffActionable",
            MetricClass::ContextInformational => "ContextInformational",
        }
    }
}

/// Evidence strength for a claim.
#[derive(Debug, Clone, Copy, PartialEq, Eq, Structural)]
pub enum EvidenceTier {
    /// Validated against outcomes at scale.
    A,
    /// Published validation, narrower population or weaker linkage.
    B,
    /// Weak or contested on its own.
    C,
    /// Critiqued; not to be used as a headline.
    D,
    /// Novel and unvalidated.
    N,
}

impl View for EvidenceTier {
    type V = Self;

    open spec fn view(&self) -> Self {
        *self
    }
}

impl EvidenceTier {
    /// How this value is spelled on the wire.
    pub open spec fn wire_name(self) -> Seq<char> {
        match self {
            EvidenceTier::A => "A"@,
            EvidenceTier::B => "B"@,
            EvidenceTier::C => "C"@,
            EvidenceTier::D => "D"@,
            EvidenceTier::N => "N"@,
        }
    }

    /// The spelling of this value on the wire.
    pub fn wire(self) -> (r: &'static str)
        ensures
            r@ == self.wire_name(),
    {
        match self {
            EvidenceTier::A => "A",
            EvidenceTier::B => "B",
            EvidenceTier::C => "C",
            EvidenceTier::D => "D",
            EvidenceTier::N => "N",
        }
    }
}

/// Who or what asked for this measurement.
#[derive(Debug, Clone, Copy, PartialEq, Eq, Structural)]
pub enum InvocationSource {
    /// A harness hook fired.
    Hook,
    /// An agent chose to measure without a hook forcing it.
    AgentInitiated,
    /// A human ran the command line.
    HumanCli,
    /// The verifier recomputing.
    CiVerifier,
}

impl View for InvocationSource {
    type V = Self;

    open spec fn view(&self) -> Self {
        *self
    }
}

impl InvocationSource {
    /// How this value is spelled on the wire.
    pub open spec fn wire_name(self) -> Seq<char> {
        match self {
            InvocationSource::Hook => "hook"@,
            InvocationSource::AgentInitiated => "agent-initiated"@,
            InvocationSource::HumanCli => "human-cli"@,
            InvocationSource::CiVerifier => "ci-verifier"@,
        }
    }

    /// The spelling of this value on the wire.
    pub fn wire(self) -> (r: &'static str)
        ensures
            r@ == self.wire_name(),
    {
        match self {
            InvocationSource::Hook => "hook",
            InvocationSource::AgentInitiated => "agent-initiated",
            InvocationSource::HumanCli => "human-cli",
            InvocationSource::CiVerifier => "ci-verifier",
        }
    }
}

/// Which lane produced a result.
#[derive(Debug, Clone, Copy, PartialEq, Eq, Structural)]
pub enum Lane {
    /// Sub-second static diff measurement.
    Fast,
    /// Long-running work returning a job handle.
    Async,
}

impl View for Lane {
    type V = Self;

    open spec fn view(&self) -> Self {
        *self
    }
}

impl Lane {
    /// How this value is spelled on the wire.
    pub open spec fn wire_name(self) -> Seq<char> {
        match self {
            Lane::Fast => "fast"@,
            Lane::Async => "async"@,
        }
    }

    /// The spelling of this value on the wire.
    pub fn wire(self) -> (r: &'static str)
        ensures
            r@ == self.wire_name(),
    {
        match self {
            Lane::Fast => "fast",
            Lane::Async => "async",
        }
    }
}

/// Whether a record is a self-report or a verifier's attestation.
#[derive(Debug, Clone, Copy, PartialEq, Eq, Structural)]
pub enum RecordKind {
    /// Written by the binary under measurement.
    SelfReport,
    /// Written by the verifier.
    Attestation,
}

impl View for RecordKind {
    type V = Self;

    open spec fn view(&self) -> Self {
        *self
    }
}

impl RecordKind {
    /// How this value is spelled on the wire.
    pub open spec fn wire_name(self) -> Seq<char> {
        match self {
            RecordKind::SelfReport => "self-report"@,
            RecordKind::Attestation => "attestation"@,
        }
    }

    /// The spelling of this value on the wire.
    pub fn wire(self) -> (r: &'static str)
        ensures
            r@ == self.wire_name(),
    {
        match self {
            RecordKind::SelfReport => "self-report",
            RecordKind::Attestation => "attestation",
        }
    }
}

impl Attestation {
    /// Whether a value is a pass.
    pub open spec fn is_pass(self) -> bool {
        self == Attestation::Confirmed || self == Attestation::ConfirmedStatic
    }

    /// Whether a record with this value may count as evidence downstream.
    pub fn counts_downstream(self) -> (r: bool)
        ensures
            r == self.is_pass(),
    {
        matches!(self, Attestation::Confirmed | Attestation::ConfirmedStatic)
    }
}

impl Severity {
    /// Whether a severity lies in the band that policy may allow to block.
    pub open spec fn med_plus(self) -> bool {
        self.rank() >= Severity::Medium.rank()
    }

    /// The MED+ band that policy may allow to block.
    pub fn is_med_plus(self) -> (r: bool)
        ensures
            r == self.med_plus(),
    {
        self.level() >= Severity::Medium.level()
    }

    /// The weaker of two severities.
    pub open spec fn weaker(self, other: Severity) -> Severity {
        if other.rank() < self.rank() {
            other
        } else {
            self
        }
    }

    /// The weaker of two severities.
    pub fn capped_at(self, other: Severity) -> (r: Severity)
        ensures
            r == self.weaker(other),
    {
        if other.level() < self.level() {
            other
        } else {
            self
        }
    }

    /// The stronger of two severities.
    pub open spec fn stronger(self, other: Severity) -> Severity {
        if other.rank() > self.rank() {
            other
        } else {
            self
        }
    }

    /// The stronger of two severities.
    pub fn raised_to(self, other: Severity) -> (r: Severity)
        ensures
            r == self.stronger(other),
    {
        if other.level() > self.level() {
            other
        } else {
            self
        }
    }
}

// --- laws -----------------------------------------------------------------

/// Severities ascend from info to critical; the band that may block is medium and
/// up; of two severities one is the weaker and the other the stronger.
pub proof fn lemma_the_severity_scale(a: Severity, b: Severity)
    ensures
        Severity::Info.rank() < Severity::Low.rank() < Severity::Medium.rank()
            < Severity::High.rank() < Severity::Critical.rank(),
        a.med_plus() <==> (a == Severity::Medium || a == Severity::High || a
            == Severity::Critical),
        a.rank() == b.rank() <==> a == b,
        a.weaker(b) == a || a.weaker(b) == b,
        a.stronger(b) == a || a.stronger(b) == b,
        a.weaker(b).rank() <= a.rank() && a.weaker(b).rank() <= b.rank(),
        a.stronger(b).rank() >= a.rank() && a.stronger(b).rank() >= b.rank(),
{
}

/// A record counts downstream only where a recompute stood behind it: nothing
/// unwitnessed does, and nothing that disagreed.
pub proof fn lemma_what_counts_downstream(a: Attestation)
    ensures
        Attestation::Confirmed.is_pass(),
        Attestation::ConfirmedStatic.is_pass(),
        a == Attestation::Divergent || a == Attestation::Unwitnessed || a
            == Attestation::UnwitnessedVersionSkew || a == Attestation::UnwitnessedBaseMismatch
            ==> !a.is_pass(),
{
}

} // verus!
