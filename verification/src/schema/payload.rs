//! The measurement record and everything it is made of.
use vstd::prelude::*;

use super::enums::{
    Attestation, Completeness, EngineClass, EngineFamily, EvidenceTier, InvocationSource, Lane,
    MetricClass, RecordKind, Severity, TamperSignal, Verdict,
};
use super::regime::MeasurementRegime;
use crate::canonical;
use crate::canonical::{
    member, object, optional_string, string, CanonicalError, Json, JsonModel,
};
use crate::decimal;
use crate::selfmeasure::SelfMeasureProvenance;
use crate::unambiguous;

verus! {

/// The version of this schema.
pub const SCHEMA_VERSION: u32 = 1;

/// What a head identity identifies.
#[derive(Debug, Clone, Copy, PartialEq, Eq, Structural)]
pub enum HeadKind {
    /// A commit: anyone can check it out and measure it again.
    Commit,
    /// The content hash of a working tree.
    UncommittedWorktree,
    /// The content hash of an index.
    UncommittedIndex,
}

impl View for HeadKind {
    type V = Self;

    open spec fn view(&self) -> Self {
        *self
    }
}

impl HeadKind {
    /// How this value is spelled on the wire.
    pub open spec fn wire_name(self) -> Seq<char> {
        match self {
            HeadKind::Commit => "commit"@,
            HeadKind::UncommittedWorktree => "uncommitted-worktree"@,
            HeadKind::UncommittedIndex => "uncommitted-index"@,
        }
    }

    /// The spelling of this value on the wire.
    pub fn wire(self) -> (r: &'static str)
        ensures
            r@ == self.wire_name(),
    {
        match self {
            HeadKind::Commit => "commit",
            HeadKind::UncommittedWorktree => "uncommitted-worktree",
            HeadKind::UncommittedIndex => "uncommitted-index",
        }
    }
}

/// What granularity a result was measured at.
#[derive(Debug, Clone, Copy, PartialEq, Eq, Structural)]
pub enum ScopeKind {
    /// The repository as a whole.
    Repository,
    /// The change as a whole, the delta-first default.
    Change,
    /// One file.
    File,
    /// One function or method.
    Function,
}

impl View for ScopeKind {
    type V = Self;

    open spec fn view(&self) -> Self {
        *self
    }
}

impl ScopeKind {
    /// How this value is spelled on the wire.
    pub open spec fn wire_name(self) -> Seq<char> {
        match self {
            ScopeKind::Repository => "repository"@,
            ScopeKind::Change => "change"@,
            ScopeKind::File => "file"@,
            ScopeKind::Function => "function"@,
        }
    }

    /// The spelling of this value on the wire.
    pub fn wire(self) -> (r: &'static str)
        ensures
            r@ == self.wire_name(),
    {
        match self {
            ScopeKind::Repository => "repository",
            ScopeKind::Change => "change",
            ScopeKind::File => "file",
            ScopeKind::Function => "function",
        }
    }

    /// The name of this value.
    pub open spec fn variant_name(self) -> Seq<char> {
        match self {
            ScopeKind::Repository => "Repository"@,
            ScopeKind::Change => "Change"@,
            ScopeKind::File => "File"@,
            ScopeKind::Function => "Function"@,
        }
    }

    /// The name of this value.
    pub fn name(self) -> (r: &'static str)
        ensures
            r@ == self.variant_name(),
    {
        match self {
            ScopeKind::Repository => "Repository",
            ScopeKind::Change => "Change",
            ScopeKind::File => "File",
            ScopeKind::Function => "Function",
        }
    }

    /// The name of this value in lower case.
    pub open spec fn lower_variant_name(self) -> Seq<char> {
        match self {
            ScopeKind::Repository => "repository"@,
            ScopeKind::Change => "change"@,
            ScopeKind::File => "file"@,
            ScopeKind::Function => "function"@,
        }
    }

    /// The name of this value in lower case.
    pub fn lower_name(self) -> (r: &'static str)
        ensures
            r@ == self.lower_variant_name(),
    {
        match self {
            ScopeKind::Repository => "repository",
            ScopeKind::Change => "change",
            ScopeKind::File => "file",
            ScopeKind::Function => "function",
        }
    }
}

/// Whether the cache served this result.
#[derive(Debug, Clone, Copy, PartialEq, Eq, Structural)]
pub enum CacheState {
    /// Served from a populated cache.
    Warm,
    /// Computed with an empty cache.
    Cold,
    /// The cache was populated but this key was absent.
    Miss,
}

impl View for CacheState {
    type V = Self;

    open spec fn view(&self) -> Self {
        *self
    }
}

impl CacheState {
    /// How this value is spelled on the wire.
    pub open spec fn wire_name(self) -> Seq<char> {
        match self {
            CacheState::Warm => "warm"@,
            CacheState::Cold => "cold"@,
            CacheState::Miss => "miss"@,
        }
    }

    /// The spelling of this value on the wire.
    pub fn wire(self) -> (r: &'static str)
        ensures
            r@ == self.wire_name(),
    {
        match self {
            CacheState::Warm => "warm",
            CacheState::Cold => "cold",
            CacheState::Miss => "miss",
        }
    }
}

impl HeadKind {
    /// Whether a head of this kind can be fetched and recomputed.
    pub open spec fn witnessable(self) -> bool {
        self == HeadKind::Commit
    }

    /// Whether anything can recompute a head of this kind.
    pub fn is_witnessable(self) -> (r: bool)
        ensures
            r == (self == HeadKind::Commit),
            r == self.witnessable(),
    {
        matches!(self, HeadKind::Commit)
    }
}

/// One measurement run, or one verifier recompute of the same change.
#[derive(Debug, Clone, PartialEq, Eq)]
pub struct MeasurementRecord {
    /// Payload schema version. See [`SCHEMA_VERSION`].
    pub schema_version: u32,
    /// Self-report or verifier attestation.
    pub record_kind: RecordKind,
    /// Which binary produced it.
    pub tool: ToolIdentity,
    /// The `(base_oid, head_oid)` tuple, required on every record.
    pub compare_context: CompareContext,
    /// Who asked, through what, on which pass.
    pub invocation: Invocation,
    /// Fields reserved for monorepo and orchestrator support.
    pub reserved: Reserved,
    /// Digest of the policy in force. Not part of any result digest.
    pub policy_hash: String,
    /// Present when something other than what was asked for was measured.
    pub substitution: Option<Substitution>,
    /// Changed paths nothing could read, so no result describes them.
    pub unreadable_paths: Vec<String>,
    /// Which binary measured, when the tool measured itself.
    pub self_measure: Option<SelfMeasureProvenance>,
    /// Every measured number.
    pub results: Vec<MeasurementResult>,
    /// Record-level completeness, the weakest of the results'.
    pub completeness: Completeness,
    /// The categorical outcome and why.
    pub verdict: VerdictSummary,
    /// The trust half: attestation value, tamper signals, compare detail.
    pub attestation: AttestationBlock,
}

/// What was asked for and what was measured in its place.
#[derive(Debug, Clone, PartialEq, Eq)]
pub struct Substitution {
    /// What the caller asked to have measured.
    pub requested: String,
    /// What was measured instead.
    pub measured: String,
}

/// Which binary produced the record, and whether it was one trusted to measure
/// itself.
#[derive(Debug, Clone, PartialEq, Eq)]
pub struct ToolIdentity {
    /// Tool name.
    pub name: String,
    /// Release version.
    pub version: String,
    /// Commit the binary was built from.
    pub build_oid: String,
    /// True when this binary is an attested release.
    pub attested_release: bool,
}

/// The git tuple every measurement is pinned to.
#[derive(Debug, Clone, PartialEq, Eq)]
pub struct CompareContext {
    /// Full base commit OID.
    pub base_oid: String,
    /// The head's identity, of the kind [`Self::head_kind`] names.
    pub head_oid: String,
    /// What `head_oid` identifies.
    pub head_kind: HeadKind,
    /// Version of the git that resolved this tuple.
    pub git_version: String,
    /// How the base was arrived at.
    pub base_resolution: String,
}

/// Ledger dimensions.
#[derive(Debug, Clone, PartialEq, Eq)]
pub struct Invocation {
    /// Hook, agent, human, or verifier.
    pub source: InvocationSource,
    /// Harness name.
    pub harness: Option<String>,
    /// Model identifier, when the harness discloses one.
    pub model: Option<String>,
    /// Change author, when known.
    pub author: Option<String>,
    /// Which pass around the agent loop this is.
    pub iteration: u32,
}

/// Fields reserved so that monorepo and orchestrator support land without a
/// breaking schema change. Always written, `null` when unset.
#[derive(Debug, Clone, PartialEq, Eq)]
pub struct Reserved {
    /// Orchestrator run correlation.
    pub run_id: Option<String>,
    /// Multi-workspace identity.
    pub workspace_id: Option<String>,
    /// Monorepo package boundary.
    pub package_scope: Option<String>,
}

impl Default for Reserved {
    fn default() -> (r: Self)
        ensures
            r.run_id is None,
            r.workspace_id is None,
            r.package_scope is None,
    {
        Reserved { run_id: None, workspace_id: None, package_scope: None }
    }
}

/// One measured number, with everything needed to trust it.
#[derive(Debug, Clone, PartialEq, Eq)]
pub struct MeasurementResult {
    /// Stable metric id.
    pub metric_id: String,
    /// The evidence claim this number stands on.
    pub claim_id: String,
    /// Engine that produced it.
    pub engine_id: String,
    /// Engine family.
    pub family: EngineFamily,
    /// Whether producing it executed repository code.
    pub engine_class: EngineClass,
    /// Whether the agent can act on it inside its own change.
    pub metric_class: MetricClass,
    /// What the number is about.
    pub scope: ResultScope,
    /// The number.
    pub value: MetricValue,
    /// Change against the base. `None` where a delta is meaningless.
    pub delta: Option<MetricValue>,
    /// How serious, after policy. Excluded from the digest.
    pub severity: Severity,
    /// How complete this particular result is.
    pub completeness: Completeness,
    /// The engine-and-configuration tuple it was produced under.
    pub measurement_regime: MeasurementRegime,
    /// What this number does and does not support.
    pub evidence: EvidenceRef,
    /// Whether this result is inside the digest compare set.
    pub deterministic: bool,
    /// Digest over [`ResultDigestInput`]. Empty until sealed.
    pub digest: String,
    /// Timing and cache metadata. Never enters a digest.
    pub freshness: Freshness,
}

/// The measurement facts a result digest covers.
///
/// The digest answers one question: did both sides measure the same thing and
/// get the same number? Anything that can legitimately differ between the two
/// sides while the measurement is identical stays out: policy and severity,
/// timings, who asked, and evidence, whose staleness depends on the date.
#[derive(Debug, Clone, Copy)]
pub struct ResultDigestInput<'a> {
    /// Bound so a schema change cannot silently preserve a digest.
    pub schema_version: u32,
    /// Base of the measured change.
    pub base_oid: &'a str,
    /// Head of the measured change.
    pub head_oid: &'a str,
    /// Engine that produced the number.
    pub engine_id: &'a str,
    /// Which metric.
    pub metric_id: &'a str,
    /// Which claim it cites.
    pub claim_id: &'a str,
    /// Engine family.
    pub family: EngineFamily,
    /// What the number is about.
    pub scope: &'a ResultScope,
    /// The number itself.
    pub value: &'a MetricValue,
    /// The delta, where one exists.
    pub delta: Option<&'a MetricValue>,
    /// Completeness, a measurement fact rather than a policy one.
    pub completeness: Completeness,
    /// The regime, so a version change cannot pass as an equal measurement.
    pub measurement_regime: &'a MeasurementRegime,
}

/// What a result is about.
#[derive(Debug, PartialEq, Eq)]
pub struct ResultScope {
    /// Granularity: repository, change, file, or function.
    pub kind: ScopeKind,
    /// Repository-relative path with forward slashes.
    pub path: Option<String>,
    /// The git blob OID the bytes came from.
    pub blob_oid: Option<String>,
    /// Function or class name, where the metric is scoped below file level.
    pub symbol: Option<String>,
    /// Line range within the file, where the metric is line-scoped.
    pub line_span: Option<LineSpan>,
}

impl Clone for ResultScope {
    fn clone(&self) -> (r: Self)
        ensures
            r == *self,
    {
        ResultScope {
            kind: self.kind,
            path: self.path.clone(),
            blob_oid: self.blob_oid.clone(),
            symbol: self.symbol.clone(),
            line_span: self.line_span,
        }
    }
}

/// A 1-based inclusive line range.
#[derive(Debug, Clone, Copy, PartialEq, Eq, Structural)]
pub struct LineSpan {
    /// First line, 1-based and inclusive.
    pub start: u32,
    /// Last line, 1-based and inclusive.
    pub end: u32,
}

/// Number of decimal places a ratio carries.
pub const RATIO_DECIMAL_PLACES: i32 = 6;

/// A proportion or rate.
///
/// A ratio that is a number is a whole number of millionths: six places is far
/// more resolution than any code metric has, and a value that short has one
/// spelling that every parser reads back exactly.
#[derive(Debug, Clone, Copy, PartialEq, Eq, Structural)]
pub enum Ratio {
    /// A number of millionths.
    Millionths(i64),
    /// A number of millionths that needs more room, by its digits and the zeros
    /// after them.
    Scaled {
        /// The digits.
        digits: i64,
        /// How many zeros follow them.
        zeros: u16,
    },
    /// Not a number at all.
    NotANumber,
    /// Above every number.
    Infinite,
    /// Below every number.
    NegativeInfinite,
}

/// The digits of the largest ratio that can be carried, in millionths.
pub const LARGEST_RATIO_DIGITS: i64 = 17976931348623154;

/// How many zeros follow the digits of the largest ratio that can be carried.
pub const LARGEST_RATIO_ZEROS: u16 = 292;

impl Ratio {
    /// How many millionths a ratio is, where it is a number.
    pub open spec fn millionths(self) -> Option<int> {
        match self {
            Ratio::Millionths(n) => Some(n as int),
            Ratio::Scaled { digits, zeros } => Some(
                decimal::scaled(digits as int, zeros as nat),
            ),
            _ => None,
        }
    }

    /// Whether a ratio has reached another. What is not a number reaches nothing
    /// and is reached by nothing.
    pub open spec fn reaches(self, at: Ratio) -> bool {
        match (self, at) {
            (Ratio::NotANumber, _) => false,
            (_, Ratio::NotANumber) => false,
            (Ratio::Infinite, _) => true,
            (_, Ratio::NegativeInfinite) => true,
            (Ratio::NegativeInfinite, _) => false,
            (_, Ratio::Infinite) => false,
            _ => self.millionths()->Some_0 >= at.millionths()->Some_0,
        }
    }

    /// Whether a ratio can be carried: a number no larger, either way, than the
    /// largest double that can be counted in millionths without overflowing.
    pub open spec fn carriable(self) -> bool {
        let most = decimal::scaled(LARGEST_RATIO_DIGITS as int, LARGEST_RATIO_ZEROS as nat);
        self.millionths() matches Some(n) && -most <= n <= most
    }

    /// The digits of a ratio in millionths, and how many zeros follow them.
    fn digits(self) -> (r: Option<(i64, u16)>)
        ensures
            match r {
                Some((digits, zeros)) => self.millionths() == Some(
                    decimal::scaled(digits as int, zeros as nat),
                ),
                None => self.millionths() is None,
            },
    {
        match self {
            Ratio::Millionths(n) => {
                proof {
                    assert(canonical::ten_to(0) == 1);
                    assert(decimal::scaled(n as int, 0) == n);
                }
                Some((n, 0))
            },
            Ratio::Scaled { digits, zeros } => Some((digits, zeros)),
            _ => None,
        }
    }

    /// The ratio that is `digits` times a power of ten, where it is a whole
    /// number of millionths by its digits alone.
    pub fn from_digits(digits: i64, power: i32) -> (r: Option<Ratio>)
        ensures
            r is Some <==> -RATIO_DECIMAL_PLACES <= power <= u16::MAX - RATIO_DECIMAL_PLACES,
            r matches Some(x) ==> x.millionths() == Some(
                decimal::scaled(digits as int, (power + RATIO_DECIMAL_PLACES) as nat),
            ),
            r matches Some(x) ==> (x is Millionths <==> i64::MIN <= decimal::scaled(
                digits as int,
                (power + RATIO_DECIMAL_PLACES) as nat,
            ) <= i64::MAX),
    {
        if power < -RATIO_DECIMAL_PLACES || power > 65535 - RATIO_DECIMAL_PLACES {
            return None;
        }
        let zeros: u16 = (power + RATIO_DECIMAL_PLACES) as u16;
        let mut n: i128 = digits as i128;
        let mut i: u16 = 0;
        proof {
            assert(canonical::ten_to(0) == 1);
            assert(decimal::scaled(digits as int, 0) == digits);
        }
        while i < zeros
            invariant
                i <= zeros,
                zeros == power + RATIO_DECIMAL_PLACES,
                -RATIO_DECIMAL_PLACES <= power <= u16::MAX - RATIO_DECIMAL_PLACES,
                n == decimal::scaled(digits as int, i as nat),
                i64::MIN <= n <= i64::MAX,
            decreases zeros - i,
        {
            proof {
                let x = canonical::ten_to(i as nat) as int;
                let d = digits as int;
                assert(canonical::ten_to((i + 1) as nat) == 10 * x);
                assert(d * (10 * x) == 10 * (d * x)) by (nonlinear_arith);
                decimal::lemma_scaled_grows(d, (i + 1) as nat, zeros as nat);
            }
            n = n * 10;
            if n < -0x8000_0000_0000_0000 || n > 0x7fff_ffff_ffff_ffff {
                return Some(Ratio::Scaled { digits, zeros });
            }
            i = i + 1;
        }
        Some(Ratio::Millionths(n as i64))
    }

    /// Whether this ratio has reached another.
    pub fn has_reached(self, at: Ratio) -> (r: bool)
        ensures
            r == self.reaches(at),
    {
        match (self.digits(), at.digits()) {
            (Some((a, p)), Some((b, q))) => decimal::reaches(a as i128, p, b as i128, q),
            _ => match (self, at) {
                (Ratio::NotANumber, _) => false,
                (_, Ratio::NotANumber) => false,
                (Ratio::Infinite, _) => true,
                (_, Ratio::NegativeInfinite) => true,
                _ => false,
            },
        }
    }

    /// Whether this ratio can be carried.
    pub fn can_be_carried(self) -> (r: bool)
        ensures
            r == self.carriable(),
    {
        match self.digits() {
            Some((a, p)) => {
                proof {
                    let x = canonical::ten_to(LARGEST_RATIO_ZEROS as nat) as int;
                    let d = LARGEST_RATIO_DIGITS as int;
                    assert((-d) * x == -(d * x)) by (nonlinear_arith);
                }
                decimal::reaches(LARGEST_RATIO_DIGITS as i128, LARGEST_RATIO_ZEROS, a as i128, p)
                    && decimal::reaches(
                    a as i128,
                    p,
                    -(LARGEST_RATIO_DIGITS as i128),
                    LARGEST_RATIO_ZEROS,
                )
            },
            None => false,
        }
    }
}

/// A measured value.
#[derive(Debug, PartialEq, Eq)]
pub enum MetricValue {
    /// An exact non-negative count.
    Count(u64),
    /// An exact signed quantity.
    Integer(i64),
    /// A proportion or rate.
    Ratio(Ratio),
    /// An elapsed time.
    Duration {
        /// Elapsed milliseconds.
        millis: u64,
    },
    /// A boolean outcome.
    Flag(bool),
    /// A categorical or free-text value.
    Text(String),
}

impl Clone for MetricValue {
    fn clone(&self) -> (r: Self)
        ensures
            r == *self,
    {
        match self {
            MetricValue::Count(n) => MetricValue::Count(*n),
            MetricValue::Integer(n) => MetricValue::Integer(*n),
            MetricValue::Ratio(x) => MetricValue::Ratio(*x),
            MetricValue::Duration { millis } => MetricValue::Duration { millis: *millis },
            MetricValue::Flag(b) => MetricValue::Flag(*b),
            MetricValue::Text(s) => MetricValue::Text(s.clone()),
        }
    }
}

/// The evidence a number stands on, resolved from the registry.
#[derive(Debug, Clone, PartialEq, Eq)]
pub struct EvidenceRef {
    /// The claim resolved.
    pub claim_id: String,
    /// Evidence strength behind it.
    pub tier: EvidenceTier,
    /// Short citation key; the registry holds the full citation.
    pub citation: String,
    /// What this number is *not* evidence for.
    pub does_not_predict: Vec<String>,
    /// True once the claim is past its expiry.
    pub stale: bool,
}

/// Timing and cache metadata. Excluded from every digest.
#[derive(Debug, Clone, PartialEq, Eq)]
pub struct Freshness {
    /// RFC 3339 timestamp.
    pub measured_at: String,
    /// How long the measurement took.
    pub duration_ms: u64,
    /// Fast or async lane.
    pub lane: Lane,
    /// Whether the cache served it.
    pub cache: CacheState,
}

/// The categorical outcome and why.
#[derive(Debug, Clone, PartialEq, Eq)]
pub struct VerdictSummary {
    /// The categorical outcome.
    pub verdict: Verdict,
    /// Why, one entry per contributing cause.
    pub reasons: Vec<VerdictReason>,
    /// Where this run sits against the iteration cap.
    pub iteration: IterationState,
}

/// One reason a verdict is what it is.
#[derive(Debug, Clone, PartialEq, Eq)]
pub struct VerdictReason {
    /// Stable machine code.
    pub code: String,
    /// How serious this reason is.
    pub severity: Severity,
    /// Human-readable explanation.
    pub message: String,
    /// Which results drove it.
    pub metric_ids: Vec<String>,
}

/// What a verdict reason says.
pub struct ReasonModel {
    pub code: Seq<char>,
    pub severity: Severity,
    pub message: Seq<char>,
    pub metric_ids: Seq<Seq<char>>,
}

impl View for VerdictReason {
    type V = ReasonModel;

    open spec fn view(&self) -> ReasonModel {
        ReasonModel {
            code: self.code@,
            severity: self.severity,
            message: self.message@,
            metric_ids: crate::text::texts(self.metric_ids@),
        }
    }
}

/// Loop-iteration accounting for one branch.
#[derive(Debug, Clone, Copy, PartialEq, Eq, Structural)]
pub struct IterationState {
    /// Passes taken on this branch so far.
    pub count: u32,
    /// From the policy field, never a constant.
    pub cap: u32,
    /// True once the cap fired.
    pub escalated: bool,
}

/// The trust half of a record.
#[derive(Debug, Clone, PartialEq, Eq)]
pub struct AttestationBlock {
    /// How much trust this record has earned.
    pub value: Attestation,
    /// Every tamper signal that fired.
    pub tamper_signals: Vec<TamperSignal>,
    /// Present on verifier records only.
    pub verifier: Option<VerifierIdentity>,
    /// Present once a compare has been attempted.
    pub compare: Option<CompareOutcome>,
}

impl Default for AttestationBlock {
    /// A record starts self-reported and unwitnessed. Trust is earned, so the
    /// default cannot be a pass.
    fn default() -> (r: Self)
        ensures
            r.value == Attestation::Unwitnessed,
            r.tamper_signals@.len() == 0,
            r.verifier is None,
            r.compare is None,
    {
        AttestationBlock {
            value: Attestation::Unwitnessed,
            tamper_signals: Vec::new(),
            verifier: None,
            compare: None,
        }
    }
}

/// Who attested.
#[derive(Debug, Clone, PartialEq, Eq)]
pub struct VerifierIdentity {
    /// Provenance source.
    pub provider: String,
    /// Workflow run URL or equivalent provenance pointer.
    pub run_ref: Option<String>,
    /// The base the verifier resolved for itself.
    pub trusted_base_oid: String,
}

/// The result of comparing a self-report against a recompute.
#[derive(Debug, Clone, PartialEq, Eq)]
pub struct CompareOutcome {
    /// Did the `(base_oid, head_oid)` tuples match?
    pub tuple_equal: bool,
    /// Did the measurement regimes match?
    pub regime_equal: bool,
    /// Metric ids whose digests were compared and agreed.
    pub matched: Vec<String>,
    /// Metric ids whose digests were compared and disagreed.
    pub mismatched: Vec<String>,
    /// Metric ids present on one side only.
    pub unpaired: Vec<String>,
}

// --- the wire -------------------------------------------------------------

impl LineSpan {
    /// What a span says on the wire.
    pub open spec fn json_model(self) -> JsonModel {
        JsonModel::Members(
            seq![
                ("start"@, JsonModel::Whole(self.start as int)),
                ("end"@, JsonModel::Whole(self.end as int)),
            ],
        )
    }

    /// This span as it goes on the wire.
    pub fn to_json(&self) -> (j: Json)
        ensures
            j@ == self.json_model(),
    {
        let members = vec![
            member("start", Json::Unsigned(self.start as u64)),
            member("end", Json::Unsigned(self.end as u64)),
        ];
        proof {
            assert(canonical::member_models(members@) =~= self.json_model()->Members_0);
        }
        object(members)
    }
}

impl ResultScope {
    /// What a scope says on the wire.
    pub open spec fn json_model(self) -> JsonModel {
        JsonModel::Members(
            seq![
                ("kind"@, JsonModel::Text(self.kind.wire_name())),
                ("path"@, canonical::optional_text(self.path)),
                ("blob_oid"@, canonical::optional_text(self.blob_oid)),
                ("symbol"@, canonical::optional_text(self.symbol)),
                (
                    "line_span"@,
                    match self.line_span {
                        Some(span) => span.json_model(),
                        None => JsonModel::Null,
                    },
                ),
            ],
        )
    }

    /// This scope as it goes on the wire.
    pub fn to_json(&self) -> (j: Json)
        ensures
            j@ == self.json_model(),
    {
        let span = match &self.line_span {
            Some(span) => span.to_json(),
            None => Json::Null,
        };
        let members = vec![
            member("kind", string(self.kind.wire())),
            member("path", optional_string(&self.path)),
            member("blob_oid", optional_string(&self.blob_oid)),
            member("symbol", optional_string(&self.symbol)),
            member("line_span", span),
        ];
        proof {
            assert(canonical::member_models(members@) =~= self.json_model()->Members_0);
        }
        object(members)
    }
}

impl MetricValue {
    /// Whether a value can be carried on the wire.
    pub open spec fn carriable(self) -> bool {
        self matches MetricValue::Ratio(x) ==> x.carriable()
    }

    /// The kind of a value, as it is spelled on the wire.
    pub open spec fn kind_name(self) -> Seq<char> {
        match self {
            MetricValue::Count(_) => "count"@,
            MetricValue::Integer(_) => "integer"@,
            MetricValue::Ratio(_) => "ratio"@,
            MetricValue::Duration { .. } => "duration"@,
            MetricValue::Flag(_) => "flag"@,
            MetricValue::Text(_) => "text"@,
        }
    }

    /// The kind of this value, as it is spelled on the wire.
    pub fn kind(&self) -> (r: &'static str)
        ensures
            r@ == self.kind_name(),
    {
        match self {
            MetricValue::Count(_) => "count",
            MetricValue::Integer(_) => "integer",
            MetricValue::Ratio(_) => "ratio",
            MetricValue::Duration { .. } => "duration",
            MetricValue::Flag(_) => "flag",
            MetricValue::Text(_) => "text",
        }
    }

    /// The content of a value on the wire.
    pub open spec fn content_model(self) -> JsonModel {
        match self {
            MetricValue::Count(n) => JsonModel::Whole(n as int),
            MetricValue::Integer(n) => JsonModel::Whole(n as int),
            MetricValue::Ratio(x) => match x.millionths() {
                Some(n) => JsonModel::Millionths(n),
                None => JsonModel::Null,
            },
            MetricValue::Duration { millis } => JsonModel::Members(
                seq![("millis"@, JsonModel::Whole(millis as int))],
            ),
            MetricValue::Flag(b) => JsonModel::Bool(b),
            MetricValue::Text(s) => JsonModel::Text(s@),
        }
    }

    /// What a value that can be carried says on the wire.
    pub open spec fn json_model(self) -> JsonModel {
        JsonModel::Members(
            seq![("kind"@, JsonModel::Text(self.kind_name())), ("value"@, self.content_model())],
        )
    }

    /// This value as it goes on the wire, where it can.
    pub fn to_json(&self) -> (r: Result<Json, CanonicalError>)
        ensures
            r is Ok <==> self.carriable(),
            r matches Ok(j) ==> j@ == self.json_model(),
    {
        let content = match self {
            MetricValue::Count(n) => Json::Unsigned(*n),
            MetricValue::Integer(n) => Json::Signed(*n),
            MetricValue::Ratio(x) => {
                if !x.can_be_carried() {
                    return Err(CanonicalError::UncarriableRatio);
                }
                match *x {
                    Ratio::Millionths(n) => Json::Millionths(n),
                    Ratio::Scaled { digits, zeros } => Json::Scaled { digits, zeros },
                    _ => {
                        return Err(CanonicalError::UncarriableRatio);
                    },
                }
            },
            MetricValue::Duration { millis } => {
                let members = vec![member("millis", Json::Unsigned(*millis))];
                proof {
                    assert(canonical::member_models(members@)
                        =~= self.content_model()->Members_0);
                }
                object(members)
            },
            MetricValue::Flag(b) => Json::Bool(*b),
            MetricValue::Text(s) => string(s.as_str()),
        };
        let members = vec![member("kind", string(self.kind())), member("value", content)];
        proof {
            assert(canonical::member_models(members@) =~= self.json_model()->Members_0);
        }
        Ok(object(members))
    }
}

/// Whether an optional value can be carried on the wire.
pub open spec fn optional_carriable(v: Option<MetricValue>) -> bool {
    v matches Some(x) ==> x.carriable()
}

/// What an optional value says on the wire.
pub open spec fn optional_value_model(v: Option<MetricValue>) -> JsonModel {
    match v {
        Some(x) => x.json_model(),
        None => JsonModel::Null,
    }
}

/// An optional value as it goes on the wire, where it can.
pub fn optional_value_json(v: Option<&MetricValue>) -> (r: Result<Json, CanonicalError>)
    ensures
        r is Ok <==> (v matches Some(x) ==> x.carriable()),
        r matches Ok(j) ==> j@ == (match v {
            Some(x) => x.json_model(),
            None => JsonModel::Null,
        }),
{
    match v {
        Some(x) => x.to_json(),
        None => Ok(Json::Null),
    }
}

impl<'a> ResultDigestInput<'a> {
    /// Whether the facts can be carried on the wire.
    pub open spec fn carriable(self) -> bool {
        self.value.carriable() && (self.delta matches Some(d) ==> d.carriable())
    }

    /// What the facts say on the wire.
    pub open spec fn json_model(self) -> JsonModel {
        JsonModel::Members(
            seq![
                ("schema_version"@, JsonModel::Whole(self.schema_version as int)),
                ("base_oid"@, JsonModel::Text(self.base_oid@)),
                ("head_oid"@, JsonModel::Text(self.head_oid@)),
                ("engine_id"@, JsonModel::Text(self.engine_id@)),
                ("metric_id"@, JsonModel::Text(self.metric_id@)),
                ("claim_id"@, JsonModel::Text(self.claim_id@)),
                ("family"@, JsonModel::Text(self.family.wire_name())),
                ("scope"@, self.scope.json_model()),
                ("value"@, self.value.json_model()),
                (
                    "delta"@,
                    match self.delta {
                        Some(d) => d.json_model(),
                        None => JsonModel::Null,
                    },
                ),
                ("completeness"@, JsonModel::Text(self.completeness.wire_name())),
                ("measurement_regime"@, self.measurement_regime.json_model()),
            ],
        )
    }

    /// These facts as they go on the wire, where they can.
    pub fn to_json(&self) -> (r: Result<Json, CanonicalError>)
        ensures
            r is Ok <==> self.carriable(),
            r matches Ok(j) ==> j@ == self.json_model(),
    {
        let value = match self.value.to_json() {
            Ok(j) => j,
            Err(e) => {
                return Err(e);
            },
        };
        let delta = match optional_value_json(self.delta) {
            Ok(j) => j,
            Err(e) => {
                return Err(e);
            },
        };
        let members = vec![
            member("schema_version", Json::Unsigned(self.schema_version as u64)),
            member("base_oid", string(self.base_oid)),
            member("head_oid", string(self.head_oid)),
            member("engine_id", string(self.engine_id)),
            member("metric_id", string(self.metric_id)),
            member("claim_id", string(self.claim_id)),
            member("family", string(self.family.wire())),
            member("scope", self.scope.to_json()),
            member("value", value),
            member("delta", delta),
            member("completeness", string(self.completeness.wire())),
            member("measurement_regime", self.measurement_regime.to_json()),
        ];
        proof {
            assert(canonical::member_models(members@) =~= self.json_model()->Members_0);
        }
        Ok(object(members))
    }

    /// The digest of these facts, where they can be carried.
    pub fn digest(&self) -> (r: Result<String, CanonicalError>)
        ensures
            r is Ok <==> self.carriable(),
            r matches Ok(d) ==> d@ == canonical::digest_of(self.json_model()) && d@.len() == 64,
    {
        match self.to_json() {
            Ok(j) => Ok(canonical::digest(&j)),
            Err(e) => Err(e),
        }
    }
}

impl MeasurementResult {
    /// Whether a result can be sealed.
    pub open spec fn sealable(self) -> bool {
        self.value.carriable() && optional_carriable(self.delta)
    }

    /// What a result's digest covers, against a tuple.
    pub open spec fn digest_facts(self, ctx: CompareContext) -> JsonModel {
        JsonModel::Members(
            seq![
                ("schema_version"@, JsonModel::Whole(SCHEMA_VERSION as int)),
                ("base_oid"@, JsonModel::Text(ctx.base_oid@)),
                ("head_oid"@, JsonModel::Text(ctx.head_oid@)),
                ("engine_id"@, JsonModel::Text(self.engine_id@)),
                ("metric_id"@, JsonModel::Text(self.metric_id@)),
                ("claim_id"@, JsonModel::Text(self.claim_id@)),
                ("family"@, JsonModel::Text(self.family.wire_name())),
                ("scope"@, self.scope.json_model()),
                ("value"@, self.value.json_model()),
                ("delta"@, optional_value_model(self.delta)),
                ("completeness"@, JsonModel::Text(self.completeness.wire_name())),
                ("measurement_regime"@, self.measurement_regime.json_model()),
            ],
        )
    }

    /// The digest a result has against a tuple.
    pub open spec fn digest_against(self, ctx: CompareContext) -> Seq<char> {
        canonical::digest_of(self.digest_facts(ctx))
    }

    /// The facts this result's digest covers.
    pub fn digest_input<'a>(&'a self, ctx: &'a CompareContext) -> (r: ResultDigestInput<'a>)
        ensures
            r.json_model() == self.digest_facts(*ctx),
            r.carriable() == self.sealable(),
    {
        let r = ResultDigestInput {
            schema_version: SCHEMA_VERSION,
            base_oid: ctx.base_oid.as_str(),
            head_oid: ctx.head_oid.as_str(),
            engine_id: self.engine_id.as_str(),
            metric_id: self.metric_id.as_str(),
            claim_id: self.claim_id.as_str(),
            family: self.family,
            scope: &self.scope,
            value: &self.value,
            delta: self.delta.as_ref(),
            completeness: self.completeness,
            measurement_regime: &self.measurement_regime,
        };
        proof {
            assert(r.json_model()->Members_0 =~= self.digest_facts(*ctx)->Members_0);
        }
        r
    }

    /// Compute and store this result's digest.
    ///
    /// A seal that fails leaves no digest behind, not even an earlier one: an
    /// absent digest is a visible problem, and a stale one looks like a good
    /// seal.
    pub fn seal(&mut self, ctx: &CompareContext) -> (r: Result<(), CanonicalError>)
        ensures
            r is Ok <==> old(self).sealable(),
            final(self).digest@ == (if old(self).sealable() {
                old(self).digest_against(*ctx)
            } else {
                Seq::<char>::empty()
            }),
            r is Ok ==> final(self).digest@.len() == 64,
            *final(self) == (MeasurementResult { digest: final(self).digest, ..*old(self) }),
    {
        let sealed = self.digest_input(ctx).digest();
        match sealed {
            Ok(digest) => {
                self.digest = digest;
                Ok(())
            },
            Err(e) => {
                self.digest = String::new();
                Err(e)
            },
        }
    }
}

// --- laws -----------------------------------------------------------------

/// A digest covers what was measured and nothing else: results that differ only
/// in severity, evidence, timing, class or determinism have one digest.
pub proof fn lemma_digest_covers_measurement_facts_only(
    a: MeasurementResult,
    b: MeasurementResult,
    ctx: CompareContext,
)
    requires
        b == (MeasurementResult {
            engine_class: b.engine_class,
            metric_class: b.metric_class,
            severity: b.severity,
            evidence: b.evidence,
            deterministic: b.deterministic,
            digest: b.digest,
            freshness: b.freshness,
            ..a
        }),
    ensures
        a.digest_facts(ctx) == b.digest_facts(ctx),
        a.digest_against(ctx) == b.digest_against(ctx),
        a.sealable() == b.sealable(),
{
    assert(a.digest_facts(ctx)->Members_0 =~= b.digest_facts(ctx)->Members_0);
}

proof fn lemma_families_differ(a: EngineFamily, b: EngineFamily)
    requires
        a.wire_name() == b.wire_name(),
    ensures
        a == b,
{
    reveal_strlit("static");
    reveal_strlit("clones");
    reveal_strlit("tamper");
    reveal_strlit("process");
    reveal_strlit("artifacts");
    reveal_strlit("tests");
    assert("static"@.len() == 6 && "clones"@.len() == 6 && "tamper"@.len() == 6);
    assert("process"@.len() == 7 && "artifacts"@.len() == 9 && "tests"@.len() == 5);
    assert("static"@[0] == 's' && "clones"@[0] == 'c' && "tamper"@[0] == 't');
    assert(a.wire_name().len() == b.wire_name().len());
    assert(a.wire_name()[0] == b.wire_name()[0]);
}

proof fn lemma_completeness_differs(a: Completeness, b: Completeness)
    requires
        a.wire_name() == b.wire_name(),
    ensures
        a == b,
{
    reveal_strlit("complete");
    reveal_strlit("partial");
    reveal_strlit("parse-degraded");
    reveal_strlit("unwitnessed");
    assert("complete"@.len() == 8 && "partial"@.len() == 7);
    assert("parse-degraded"@.len() == 14 && "unwitnessed"@.len() == 11);
    assert(a.wire_name().len() == b.wire_name().len());
}

/// The bytes a digest is taken over bind the tuple, the engine, the metric, the
/// claim, the scope, the number and the regime: where any of these differs, the
/// bytes do.
pub proof fn lemma_digested_bytes_bind(
    a: MeasurementResult,
    a_ctx: CompareContext,
    b: MeasurementResult,
    b_ctx: CompareContext,
)
    requires
        canonical::encode(a.digest_facts(a_ctx)) == canonical::encode(b.digest_facts(b_ctx)),
    ensures
        a_ctx.base_oid@ == b_ctx.base_oid@,
        a_ctx.head_oid@ == b_ctx.head_oid@,
        a.engine_id@ == b.engine_id@,
        a.metric_id@ == b.metric_id@,
        a.claim_id@ == b.claim_id@,
        a.family == b.family,
        canonical::encode(a.scope.json_model()) == canonical::encode(b.scope.json_model()),
        canonical::encode(a.value.json_model()) == canonical::encode(b.value.json_model()),
        canonical::encode(optional_value_model(a.delta)) == canonical::encode(
            optional_value_model(b.delta),
        ),
        a.completeness == b.completeness,
        canonical::encode(a.measurement_regime.json_model()) == canonical::encode(
            b.measurement_regime.json_model(),
        ),
{
    let x = a.digest_facts(a_ctx)->Members_0;
    let y = b.digest_facts(b_ctx)->Members_0;
    assert forall|k: int| 0 <= k < x.len() implies canonical::encode((#[trigger] x[k]).1)
        == canonical::encode(y[k].1) by {
        unambiguous::lemma_members_bind(x, y, k);
    }
    assert(x[1].1 is Text && x[2].1 is Text && x[3].1 is Text && x[4].1 is Text && x[5].1 is Text);
    assert(x[6].1 is Text && x[10].1 is Text && x[7].0 == y[7].0 && x[8].0 == y[8].0);
    assert(x[9].0 == y[9].0 && x[11].0 == y[11].0);
    unambiguous::lemma_strings_bind(a_ctx.base_oid@, b_ctx.base_oid@);
    unambiguous::lemma_strings_bind(a_ctx.head_oid@, b_ctx.head_oid@);
    unambiguous::lemma_strings_bind(a.engine_id@, b.engine_id@);
    unambiguous::lemma_strings_bind(a.metric_id@, b.metric_id@);
    unambiguous::lemma_strings_bind(a.claim_id@, b.claim_id@);
    unambiguous::lemma_strings_bind(a.family.wire_name(), b.family.wire_name());
    unambiguous::lemma_strings_bind(a.completeness.wire_name(), b.completeness.wire_name());
    lemma_families_differ(a.family, b.family);
    lemma_completeness_differs(a.completeness, b.completeness);
}

/// What an optional text says.
pub open spec fn optional_view(s: Option<String>) -> Option<Seq<char>> {
    match s {
        Some(t) => Some(t@),
        None => None,
    }
}

proof fn lemma_optional_text_binds(a: Option<String>, b: Option<String>)
    requires
        canonical::encode(canonical::optional_text(a)) == canonical::encode(
            canonical::optional_text(b),
        ),
    ensures
        optional_view(a) == optional_view(b),
{
    unambiguous::lemma_canonical_text_has_one_reading(
        canonical::optional_text(a),
        canonical::optional_text(b),
    );
}

proof fn lemma_whole_numbers_bind(a: int, b: int)
    requires
        canonical::encode(JsonModel::Whole(a)) == canonical::encode(JsonModel::Whole(b)),
    ensures
        a == b,
{
    unambiguous::lemma_canonical_text_has_one_reading(JsonModel::Whole(a), JsonModel::Whole(b));
}

proof fn lemma_kinds_differ(a: ScopeKind, b: ScopeKind)
    requires
        a.wire_name() == b.wire_name(),
    ensures
        a == b,
{
    reveal_strlit("repository");
    reveal_strlit("change");
    reveal_strlit("file");
    reveal_strlit("function");
    assert("repository"@.len() == 10 && "change"@.len() == 6);
    assert("file"@.len() == 4 && "function"@.len() == 8);
    assert(a.wire_name().len() == b.wire_name().len());
}

proof fn lemma_spans_bind(a: LineSpan, b: LineSpan)
    requires
        canonical::encode(a.json_model()) == canonical::encode(b.json_model()),
    ensures
        a == b,
{
    let x = a.json_model()->Members_0;
    let y = b.json_model()->Members_0;
    unambiguous::lemma_members_bind(x, y, 0);
    unambiguous::lemma_members_bind(x, y, 1);
    lemma_whole_numbers_bind(a.start as int, b.start as int);
    lemma_whole_numbers_bind(a.end as int, b.end as int);
}

/// Two scopes have one text exactly when they are the same place: of one kind, at
/// one path and blob, about one symbol, over the same lines.
pub proof fn lemma_scopes_bind(a: ResultScope, b: ResultScope)
    ensures
        canonical::encode(a.json_model()) == canonical::encode(b.json_model()) <==> {
            &&& a.kind == b.kind
            &&& optional_view(a.path) == optional_view(b.path)
            &&& optional_view(a.blob_oid) == optional_view(b.blob_oid)
            &&& optional_view(a.symbol) == optional_view(b.symbol)
            &&& a.line_span == b.line_span
        },
{
    let x = a.json_model()->Members_0;
    let y = b.json_model()->Members_0;
    if canonical::encode(a.json_model()) == canonical::encode(b.json_model()) {
        assert forall|k: int| 0 <= k < 5 implies canonical::encode((#[trigger] x[k]).1)
            == canonical::encode(y[k].1) by {
            unambiguous::lemma_members_bind(x, y, k);
        }
        assert(x[0].1 is Text && x[1].0 == y[1].0 && x[2].0 == y[2].0 && x[3].0 == y[3].0);
        assert(x[4].0 == y[4].0);
        unambiguous::lemma_strings_bind(a.kind.wire_name(), b.kind.wire_name());
        lemma_kinds_differ(a.kind, b.kind);
        lemma_optional_text_binds(a.path, b.path);
        lemma_optional_text_binds(a.blob_oid, b.blob_oid);
        lemma_optional_text_binds(a.symbol, b.symbol);
        unambiguous::lemma_canonical_text_has_one_reading(x[4].1, y[4].1);
        if a.line_span is Some && b.line_span is Some {
            lemma_spans_bind(a.line_span->Some_0, b.line_span->Some_0);
        }
    } else {
        if a.kind == b.kind && optional_view(a.path) == optional_view(b.path) && optional_view(
            a.blob_oid,
        ) == optional_view(b.blob_oid) && optional_view(a.symbol) == optional_view(b.symbol)
            && a.line_span == b.line_span {
            assert(x =~= y);
        }
    }
}

proof fn lemma_value_kinds_differ(a: MetricValue, b: MetricValue)
    requires
        a.kind_name() == b.kind_name(),
    ensures
        a is Count == b is Count,
        a is Integer == b is Integer,
        a is Ratio == b is Ratio,
        a is Duration == b is Duration,
        a is Flag == b is Flag,
        a is Text == b is Text,
{
    reveal_strlit("count");
    reveal_strlit("integer");
    reveal_strlit("ratio");
    reveal_strlit("duration");
    reveal_strlit("flag");
    reveal_strlit("text");
    assert("count"@.len() == 5 && "integer"@.len() == 7 && "ratio"@.len() == 5);
    assert("duration"@.len() == 8 && "flag"@.len() == 4 && "text"@.len() == 4);
    assert("count"@[0] == 'c' && "ratio"@[0] == 'r' && "flag"@[0] == 'f' && "text"@[0] == 't');
    assert(a.kind_name().len() == b.kind_name().len());
    assert(a.kind_name()[0] == b.kind_name()[0]);
}

/// Two values that can be carried have one text only where they are one value: of
/// one kind, and the same number, flag or text.
pub proof fn lemma_values_bind(a: MetricValue, b: MetricValue)
    requires
        a.carriable(),
        b.carriable(),
        canonical::encode(a.json_model()) == canonical::encode(b.json_model()),
    ensures
        match a {
            MetricValue::Count(x) => b matches MetricValue::Count(y) && x == y,
            MetricValue::Integer(x) => b matches MetricValue::Integer(y) && x == y,
            MetricValue::Ratio(x) => b matches MetricValue::Ratio(y) && x.millionths()
                == y.millionths(),
            MetricValue::Duration { millis: x } => b matches MetricValue::Duration { millis: y }
                && x == y,
            MetricValue::Flag(x) => b matches MetricValue::Flag(y) && x == y,
            MetricValue::Text(x) => b matches MetricValue::Text(y) && x@ == y@,
        },
{
    let x = a.json_model()->Members_0;
    let y = b.json_model()->Members_0;
    unambiguous::lemma_members_bind(x, y, 0);
    unambiguous::lemma_members_bind(x, y, 1);
    unambiguous::lemma_strings_bind(a.kind_name(), b.kind_name());
    lemma_value_kinds_differ(a, b);
    unambiguous::lemma_canonical_text_has_one_reading(a.content_model(), b.content_model());
    if let MetricValue::Duration { millis: m } = a {
        if let MetricValue::Duration { millis: k } = b {
            unambiguous::lemma_members_bind(
                a.content_model()->Members_0,
                b.content_model()->Members_0,
                0,
            );
            lemma_whole_numbers_bind(m as int, k as int);
        }
    }
}

/// Ratios that are numbers are ordered as numbers. What is not a number reaches
/// nothing and is reached by nothing; and every number lies between the infinities.
pub proof fn lemma_how_ratios_are_ordered(a: Ratio, b: Ratio, c: Ratio)
    ensures
        a.millionths() is Some && b.millionths() is Some ==> (a.reaches(b) <==> a.millionths()->Some_0
            >= b.millionths()->Some_0),
        !Ratio::NotANumber.reaches(a) && !a.reaches(Ratio::NotANumber),
        a != Ratio::NotANumber ==> Ratio::Infinite.reaches(a) && a.reaches(Ratio::NegativeInfinite),
        a.reaches(Ratio::Infinite) <==> a == Ratio::Infinite,
        Ratio::NegativeInfinite.reaches(a) <==> a == Ratio::NegativeInfinite,
        a.reaches(b) && b.reaches(c) ==> a.reaches(c),
        a != Ratio::NotANumber && b != Ratio::NotANumber ==> a.reaches(b) || b.reaches(a),
{
}

/// How many millionths a ratio is: its digits, followed by its zeros.
pub proof fn lemma_what_a_ratio_is(digits: i64, zeros: u16)
    ensures
        Ratio::Millionths(digits).millionths() == Some(digits as int),
        (Ratio::Scaled { digits, zeros }).millionths() == Some(
            digits * canonical::ten_to(zeros as nat),
        ),
        Ratio::NotANumber.millionths() is None,
        Ratio::Infinite.millionths() is None,
        Ratio::NegativeInfinite.millionths() is None,
{
}

/// Only a commit can be fetched by somebody else: nothing recomputes a head that was
/// never committed.
pub proof fn lemma_what_can_be_witnessed(k: HeadKind)
    ensures
        k is Commit ==> k.witnessable(),
        k !is Commit ==> !k.witnessable(),
{
}

} // verus!
