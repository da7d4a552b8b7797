//! The policy schema: every knob the verdict, the loop and the loader read.
//!
//! Defaults are conservative on purpose: tamper signals and test failures
//! block, weak evidence can only advise, and MED+ severity is reachable only on
//! diff-actionable metrics. A verifier loads policy from the base commit, so
//! editing thresholds inside the change being measured gains nothing.
use vstd::prelude::*;

use crate::canonical;
use crate::canonical::{
    array, member, object, optional_string, string, string_list, CanonicalError, Json, JsonModel,
};
use crate::schema::enums::{EvidenceTier, Severity};
use crate::text;

verus! {

/// Iteration cap default. Three passes is enough for an agent to act on a
/// finding and confirm the fix; past that it is grinding.
pub const DEFAULT_ITERATION_CAP: u32 = 3;

/// Agent-mode profile budget, in tokens.
pub const DEFAULT_AGENT_PROFILE_TOKEN_BUDGET: u32 = 1500;

/// Bytes-per-token divisor for the budget estimator.
pub const DEFAULT_BYTES_PER_TOKEN: u32 = 4;

/// Claim tuples one owner can re-review in a week, once a year.
pub const DEFAULT_CLAIM_BUDGET: u32 = 24;

/// At most this many claims may fall due in one calendar month.
pub const DEFAULT_MAX_CLAIMS_EXPIRING_PER_MONTH: u32 = 3;

/// Default wall-clock cap on the user test command.
pub const DEFAULT_TEST_TIMEOUT_MS: u32 = 600_000;

/// The policy version this library implements.
pub const POLICY_SCHEMA_VERSION: u32 = 1;

/// Which binary performs self-measurement.
#[derive(Debug, Clone, Copy, PartialEq, Eq, Structural)]
pub enum SelfMeasureBinary {
    /// The rule: the last attested release measures, so a broken detector
    /// cannot bless its own fix.
    LastAttestedRelease,
    /// The bootstrap exception: legal only until the first attested release
    /// exists.
    CurrentBuild,
}

impl View for SelfMeasureBinary {
    type V = Self;

    open spec fn view(&self) -> Self {
        *self
    }
}

impl SelfMeasureBinary {
    /// How this value is spelled on the wire.
    pub open spec fn wire_name(self) -> Seq<char> {
        match self {
            SelfMeasureBinary::LastAttestedRelease => "last-attested-release"@,
            SelfMeasureBinary::CurrentBuild => "current-build"@,
        }
    }

    /// The spelling of this value on the wire.
    pub fn wire(self) -> (r: &'static str)
        ensures
            r@ == self.wire_name(),
    {
        match self {
            SelfMeasureBinary::LastAttestedRelease => "last-attested-release",
            SelfMeasureBinary::CurrentBuild => "current-build",
        }
    }
}

/// What a list of tiers says.
pub open spec fn tiers_model(tiers: Seq<EvidenceTier>) -> JsonModel {
    JsonModel::List(Seq::new(tiers.len(), |i: int| JsonModel::Text(tiers[i].wire_name())))
}

fn tiers_json(tiers: &[EvidenceTier]) -> (j: Json)
    ensures
        j@ == tiers_model(tiers@),
{
    let mut items: Vec<Json> = Vec::new();
    let mut i: usize = 0;
    while i < tiers.len()
        invariant
            i <= tiers.len(),
            items@.len() == i,
            forall|k: int|
                0 <= k < i ==> (#[trigger] items@[k])@ == JsonModel::Text(tiers@[k].wire_name()),
        decreases tiers.len() - i,
    {
        items.push(string(tiers[i].wire()));
        i = i + 1;
    }
    proof {
        assert(canonical::models(items@) =~= tiers_model(tiers@)->List_0);
    }
    array(items)
}

/// What an optional number says.
pub open spec fn optional_whole(n: Option<u64>) -> JsonModel {
    match n {
        Some(x) => JsonModel::Whole(x as int),
        None => JsonModel::Null,
    }
}

fn optional_number(n: Option<u64>) -> (j: Json)
    ensures
        j@ == optional_whole(n),
{
    match n {
        Some(x) => Json::Unsigned(x),
        None => Json::Null,
    }
}

/// The policy in force.
#[derive(Debug, Clone, PartialEq, Eq)]
pub struct Policy {
    /// Policy schema version. Only [`POLICY_SCHEMA_VERSION`] is accepted.
    pub schema_version: u32,
    /// What may block, and what evidence is strong enough to.
    pub severity: SeverityPolicy,
    /// Agent-loop guardrails, the iteration cap among them.
    pub loop_policy: LoopPolicy,
    /// Agent-mode payload budget.
    pub agent: AgentPolicy,
    /// Latency and spawn budgets.
    pub perf: PerfPolicy,
    /// History window for the process family.
    pub history: HistoryPolicy,
    /// Evidence-registry governance: claim budget and expiry stagger.
    pub registry: RegistryPolicy,
    /// Rules for the tool measuring itself.
    pub self_measure: SelfMeasurePolicy,
    /// The code-exec lane.
    pub sandbox: SandboxPolicy,
}

/// What is allowed to stop the line.
#[derive(Debug, Clone, PartialEq, Eq)]
pub struct SeverityPolicy {
    /// A tamper signal blocks.
    pub block_on_tamper: bool,
    /// A failing test suite blocks.
    pub block_on_test_failure: bool,
    /// The strongest severity a C-tier claim may reach. Weak evidence advises.
    pub max_severity_for_c_tier: Severity,
    /// MED+ severity requires a diff-actionable metric.
    pub med_plus_requires_diff_actionable: bool,
    /// Evidence tiers that may reach MED+ at all.
    pub med_plus_tiers: Vec<EvidenceTier>,
}

impl SeverityPolicy {
    /// Whether these are the conservative defaults.
    pub open spec fn is_default(self) -> bool {
        &&& self.block_on_tamper
        &&& self.block_on_test_failure
        &&& self.max_severity_for_c_tier == Severity::Low
        &&& self.med_plus_requires_diff_actionable
        &&& self.med_plus_tiers@ == seq![EvidenceTier::A, EvidenceTier::B]
    }

    /// What this section says, field by field.
    pub open spec fn json_model(self) -> JsonModel {
        JsonModel::Members(
            seq![
                ("block_on_tamper"@, JsonModel::Bool(self.block_on_tamper)),
                ("block_on_test_failure"@, JsonModel::Bool(self.block_on_test_failure)),
                ("max_severity_for_c_tier"@, JsonModel::Text(self.max_severity_for_c_tier.wire_name())),
                ("med_plus_requires_diff_actionable"@, JsonModel::Bool(self.med_plus_requires_diff_actionable)),
                ("med_plus_tiers"@, tiers_model(self.med_plus_tiers@)),
            ],
        )
    }

    /// This section, field by field.
    pub fn to_json(&self) -> (j: Json)
        ensures
            j@ == self.json_model(),
    {
        let members = vec![
            member("block_on_tamper", Json::Bool(self.block_on_tamper)),
            member("block_on_test_failure", Json::Bool(self.block_on_test_failure)),
            member("max_severity_for_c_tier", string(self.max_severity_for_c_tier.wire())),
            member("med_plus_requires_diff_actionable", Json::Bool(self.med_plus_requires_diff_actionable)),
            member("med_plus_tiers", tiers_json(self.med_plus_tiers.as_slice())),
        ];
        proof {
            assert(canonical::member_models(members@) =~= self.json_model()->Members_0);
        }
        object(members)
    }
}

impl Default for SeverityPolicy {
    fn default() -> (r: Self)
        ensures
            r.is_default(),
    {
        let r = SeverityPolicy {
            block_on_tamper: true,
            block_on_test_failure: true,
            max_severity_for_c_tier: Severity::Low,
            med_plus_requires_diff_actionable: true,
            med_plus_tiers: vec![EvidenceTier::A, EvidenceTier::B],
        };
        proof {
            assert(r.med_plus_tiers@ =~= seq![EvidenceTier::A, EvidenceTier::B]);
        }
        r
    }
}

/// Agent-loop guardrails.
#[derive(Debug, Clone, PartialEq, Eq)]
pub struct LoopPolicy {
    /// Passes around the loop before `escalate_to_human`.
    pub iteration_cap: u32,
    /// Whether context-informational findings advance the counter.
    pub count_context_informational: bool,
}

impl LoopPolicy {
    /// Whether these are the conservative defaults.
    pub open spec fn is_default(self) -> bool {
        &&& self.iteration_cap == DEFAULT_ITERATION_CAP
        &&& !self.count_context_informational
    }

    /// What this section says, field by field.
    pub open spec fn json_model(self) -> JsonModel {
        JsonModel::Members(
            seq![
                ("iteration_cap"@, JsonModel::Whole(self.iteration_cap as int)),
                ("count_context_informational"@, JsonModel::Bool(self.count_context_informational)),
            ],
        )
    }

    /// This section, field by field.
    pub fn to_json(&self) -> (j: Json)
        ensures
            j@ == self.json_model(),
    {
        let members = vec![
            member("iteration_cap", Json::Unsigned(self.iteration_cap as u64)),
            member("count_context_informational", Json::Bool(self.count_context_informational)),
        ];
        proof {
            assert(canonical::member_models(members@) =~= self.json_model()->Members_0);
        }
        object(members)
    }
}

impl Default for LoopPolicy {
    fn default() -> (r: Self)
        ensures
            r.is_default(),
    {
        let r = LoopPolicy {
            iteration_cap: DEFAULT_ITERATION_CAP,
            count_context_informational: false,
        };
        r
    }
}

/// Agent-mode payload budget.
#[derive(Debug, Clone, PartialEq, Eq)]
pub struct AgentPolicy {
    /// Token ceiling for the agent-mode profile.
    pub profile_token_budget: u32,
    /// Divisor converting the token budget into a byte budget.
    pub bytes_per_token: u32,
}

impl AgentPolicy {
    /// Whether these are the conservative defaults.
    pub open spec fn is_default(self) -> bool {
        &&& self.profile_token_budget == DEFAULT_AGENT_PROFILE_TOKEN_BUDGET
        &&& self.bytes_per_token == DEFAULT_BYTES_PER_TOKEN
    }

    /// What this section says, field by field.
    pub open spec fn json_model(self) -> JsonModel {
        JsonModel::Members(
            seq![
                ("profile_token_budget"@, JsonModel::Whole(self.profile_token_budget as int)),
                ("bytes_per_token"@, JsonModel::Whole(self.bytes_per_token as int)),
            ],
        )
    }

    /// This section, field by field.
    pub fn to_json(&self) -> (j: Json)
        ensures
            j@ == self.json_model(),
    {
        let members = vec![
            member("profile_token_budget", Json::Unsigned(self.profile_token_budget as u64)),
            member("bytes_per_token", Json::Unsigned(self.bytes_per_token as u64)),
        ];
        proof {
            assert(canonical::member_models(members@) =~= self.json_model()->Members_0);
        }
        object(members)
    }
}

impl Default for AgentPolicy {
    fn default() -> (r: Self)
        ensures
            r.is_default(),
    {
        let r = AgentPolicy {
            profile_token_budget: DEFAULT_AGENT_PROFILE_TOKEN_BUDGET,
            bytes_per_token: DEFAULT_BYTES_PER_TOKEN,
        };
        r
    }
}

/// Latency budgets. Here so that changing one is a policy edit and not a quiet
/// ratchet.
#[derive(Debug, Clone, PartialEq, Eq)]
pub struct PerfPolicy {
    /// Warm-cache p95 target for the fast lane, with a watching file-system
    /// monitor.
    pub fast_lane_warm_p95_ms: u32,
    /// Warm-cache p95 target with no watching file-system monitor.
    pub fast_lane_warm_fallback_p95_ms: u32,
    /// Hard cold cap; past it the fast lane spills to async.
    pub fast_lane_cold_cap_ms: u32,
    /// Ceiling on git spawns in one measurement.
    pub max_git_spawns_per_measure: u32,
}

impl PerfPolicy {
    /// Whether these are the conservative defaults.
    pub open spec fn is_default(self) -> bool {
        &&& self.fast_lane_warm_p95_ms == 1000
        &&& self.fast_lane_warm_fallback_p95_ms == 2000
        &&& self.fast_lane_cold_cap_ms == 10_000
        &&& self.max_git_spawns_per_measure == 64
    }

    /// What this section says, field by field.
    pub open spec fn json_model(self) -> JsonModel {
        JsonModel::Members(
            seq![
                ("fast_lane_warm_p95_ms"@, JsonModel::Whole(self.fast_lane_warm_p95_ms as int)),
                ("fast_lane_warm_fallback_p95_ms"@, JsonModel::Whole(self.fast_lane_warm_fallback_p95_ms as int)),
                ("fast_lane_cold_cap_ms"@, JsonModel::Whole(self.fast_lane_cold_cap_ms as int)),
                ("max_git_spawns_per_measure"@, JsonModel::Whole(self.max_git_spawns_per_measure as int)),
            ],
        )
    }

    /// This section, field by field.
    pub fn to_json(&self) -> (j: Json)
        ensures
            j@ == self.json_model(),
    {
        let members = vec![
            member("fast_lane_warm_p95_ms", Json::Unsigned(self.fast_lane_warm_p95_ms as u64)),
            member("fast_lane_warm_fallback_p95_ms", Json::Unsigned(self.fast_lane_warm_fallback_p95_ms as u64)),
            member("fast_lane_cold_cap_ms", Json::Unsigned(self.fast_lane_cold_cap_ms as u64)),
            member("max_git_spawns_per_measure", Json::Unsigned(self.max_git_spawns_per_measure as u64)),
        ];
        proof {
            assert(canonical::member_models(members@) =~= self.json_model()->Members_0);
        }
        object(members)
    }
}

impl Default for PerfPolicy {
    fn default() -> (r: Self)
        ensures
            r.is_default(),
    {
        let r = PerfPolicy {
            fast_lane_warm_p95_ms: 1000,
            fast_lane_warm_fallback_p95_ms: 2000,
            fast_lane_cold_cap_ms: 10_000,
            max_git_spawns_per_measure: 64,
        };
        r
    }
}

/// History window for process metrics.
#[derive(Debug, Clone, PartialEq, Eq)]
pub struct HistoryPolicy {
    /// Days of history the process family reads.
    pub window_days: u32,
}

impl HistoryPolicy {
    /// Whether these are the conservative defaults.
    pub open spec fn is_default(self) -> bool {
        &&& self.window_days == 365
    }

    /// What this section says, field by field.
    pub open spec fn json_model(self) -> JsonModel {
        JsonModel::Members(
            seq![
                ("window_days"@, JsonModel::Whole(self.window_days as int)),
            ],
        )
    }

    /// This section, field by field.
    pub fn to_json(&self) -> (j: Json)
        ensures
            j@ == self.json_model(),
    {
        let members = vec![
            member("window_days", Json::Unsigned(self.window_days as u64)),
        ];
        proof {
            assert(canonical::member_models(members@) =~= self.json_model()->Members_0);
        }
        object(members)
    }
}

impl Default for HistoryPolicy {
    fn default() -> (r: Self)
        ensures
            r.is_default(),
    {
        let r = HistoryPolicy {
            window_days: 365,
        };
        r
    }
}

/// Evidence-registry governance.
#[derive(Debug, Clone, PartialEq, Eq)]
pub struct RegistryPolicy {
    /// Enforced count. Exceeding it fails the lint.
    pub claim_budget: u32,
    /// Expiry stagger bound, enforced by the lint.
    pub max_claims_expiring_per_month: u32,
}

impl RegistryPolicy {
    /// Whether these are the conservative defaults.
    pub open spec fn is_default(self) -> bool {
        &&& self.claim_budget == DEFAULT_CLAIM_BUDGET
        &&& self.max_claims_expiring_per_month == DEFAULT_MAX_CLAIMS_EXPIRING_PER_MONTH
    }

    /// What this section says, field by field.
    pub open spec fn json_model(self) -> JsonModel {
        JsonModel::Members(
            seq![
                ("claim_budget"@, JsonModel::Whole(self.claim_budget as int)),
                ("max_claims_expiring_per_month"@, JsonModel::Whole(self.max_claims_expiring_per_month as int)),
            ],
        )
    }

    /// This section, field by field.
    pub fn to_json(&self) -> (j: Json)
        ensures
            j@ == self.json_model(),
    {
        let members = vec![
            member("claim_budget", Json::Unsigned(self.claim_budget as u64)),
            member("max_claims_expiring_per_month", Json::Unsigned(self.max_claims_expiring_per_month as u64)),
        ];
        proof {
            assert(canonical::member_models(members@) =~= self.json_model()->Members_0);
        }
        object(members)
    }
}

impl Default for RegistryPolicy {
    fn default() -> (r: Self)
        ensures
            r.is_default(),
    {
        let r = RegistryPolicy {
            claim_budget: DEFAULT_CLAIM_BUDGET,
            max_claims_expiring_per_month: DEFAULT_MAX_CLAIMS_EXPIRING_PER_MONTH,
        };
        r
    }
}

/// How the tool measures itself.
#[derive(Debug, Clone, PartialEq, Eq)]
pub struct SelfMeasurePolicy {
    /// Which binary is allowed to measure this repository.
    pub binary: SelfMeasureBinary,
    /// Paths excluded from self-measurement.
    pub excluded_paths: Vec<String>,
    /// Emit a finding when the excluded set grows.
    pub exclusion_drift_signal: bool,
}

impl SelfMeasurePolicy {
    /// Whether these are the conservative defaults.
    pub open spec fn is_default(self) -> bool {
        &&& self.binary == SelfMeasureBinary::LastAttestedRelease
        &&& crate::text::texts(self.excluded_paths@) == seq!["fixtures/gamed/**"@, "fixtures/adversarial/**"@, "crates/andon-registry-lint/tests/fixtures/**"@]
        &&& self.exclusion_drift_signal
    }

    /// What this section says, field by field.
    pub open spec fn json_model(self) -> JsonModel {
        JsonModel::Members(
            seq![
                ("binary"@, JsonModel::Text(self.binary.wire_name())),
                ("excluded_paths"@, canonical::text_list(self.excluded_paths@)),
                ("exclusion_drift_signal"@, JsonModel::Bool(self.exclusion_drift_signal)),
            ],
        )
    }

    /// This section, field by field.
    pub fn to_json(&self) -> (j: Json)
        ensures
            j@ == self.json_model(),
    {
        let members = vec![
            member("binary", string(self.binary.wire())),
            member("excluded_paths", string_list(self.excluded_paths.as_slice())),
            member("exclusion_drift_signal", Json::Bool(self.exclusion_drift_signal)),
        ];
        proof {
            assert(canonical::member_models(members@) =~= self.json_model()->Members_0);
        }
        object(members)
    }
}

impl Default for SelfMeasurePolicy {
    fn default() -> (r: Self)
        ensures
            r.is_default(),
    {
        let r = SelfMeasurePolicy {
            binary: SelfMeasureBinary::LastAttestedRelease,
            excluded_paths: vec!["fixtures/gamed/**".to_owned(), "fixtures/adversarial/**".to_owned(), "crates/andon-registry-lint/tests/fixtures/**".to_owned()],
            exclusion_drift_signal: true,
        };
        proof {
            assert(crate::text::texts(r.excluded_paths@) =~= seq!["fixtures/gamed/**"@, "fixtures/adversarial/**"@, "crates/andon-registry-lint/tests/fixtures/**"@]);
        }
        r
    }
}

/// The code-exec lane. Everything here is off or empty by default.
#[derive(Debug, Clone, PartialEq, Eq)]
pub struct SandboxPolicy {
    /// The async lane's feature flag. While `false`, no code-exec engine joins a
    /// measurement.
    pub enabled: bool,
    /// The user's test command. `None` means this deployment ships no code-exec
    /// engine at all.
    pub test_command: Option<String>,
    /// Wall-clock cap on the test command, in milliseconds.
    pub test_timeout_ms: u32,
    /// Environment variable names passed through to the suite.
    pub env_allow: Vec<String>,
    /// Best-effort memory cap for the suite, in MiB. `None` means no cap.
    pub memory_limit_mb: Option<u64>,
}

impl SandboxPolicy {
    /// Whether these are the conservative defaults.
    pub open spec fn is_default(self) -> bool {
        &&& !self.enabled
        &&& self.test_command is None
        &&& self.test_timeout_ms == DEFAULT_TEST_TIMEOUT_MS
        &&& crate::text::texts(self.env_allow@) == Seq::<Seq<char>>::empty()
        &&& self.memory_limit_mb is None
    }

    /// What this section says, field by field.
    pub open spec fn json_model(self) -> JsonModel {
        JsonModel::Members(
            seq![
                ("enabled"@, JsonModel::Bool(self.enabled)),
                ("test_command"@, canonical::optional_text(self.test_command)),
                ("test_timeout_ms"@, JsonModel::Whole(self.test_timeout_ms as int)),
                ("env_allow"@, canonical::text_list(self.env_allow@)),
                ("memory_limit_mb"@, optional_whole(self.memory_limit_mb)),
            ],
        )
    }

    /// This section, field by field.
    pub fn to_json(&self) -> (j: Json)
        ensures
            j@ == self.json_model(),
    {
        let members = vec![
            member("enabled", Json::Bool(self.enabled)),
            member("test_command", optional_string(&self.test_command)),
            member("test_timeout_ms", Json::Unsigned(self.test_timeout_ms as u64)),
            member("env_allow", string_list(self.env_allow.as_slice())),
            member("memory_limit_mb", optional_number(self.memory_limit_mb)),
        ];
        proof {
            assert(canonical::member_models(members@) =~= self.json_model()->Members_0);
        }
        object(members)
    }
}

impl Default for SandboxPolicy {
    fn default() -> (r: Self)
        ensures
            r.is_default(),
    {
        let r = SandboxPolicy {
            enabled: false,
            test_command: None,
            test_timeout_ms: DEFAULT_TEST_TIMEOUT_MS,
            env_allow: Vec::new(),
            memory_limit_mb: None,
        };
        proof {
            assert(crate::text::texts(r.env_allow@) =~= Seq::<Seq<char>>::empty());
        }
        r
    }
}

impl Default for Policy {
    fn default() -> (r: Self)
        ensures
            r.is_default(),
    {
        Policy {
            schema_version: POLICY_SCHEMA_VERSION,
            severity: SeverityPolicy::default(),
            loop_policy: LoopPolicy::default(),
            agent: AgentPolicy::default(),
            perf: PerfPolicy::default(),
            history: HistoryPolicy::default(),
            registry: RegistryPolicy::default(),
            self_measure: SelfMeasurePolicy::default(),
            sandbox: SandboxPolicy::default(),
        }
    }
}

/// A policy that cannot be used.
#[derive(Debug, Clone, PartialEq, Eq)]
pub enum PolicyError {
    /// The file is not valid TOML, or carries a key the schema does not define.
    Toml(String),
    /// The file declares a schema version this library does not implement.
    UnsupportedVersion {
        /// Version the file declared.
        found: u32,
        /// Version this library implements.
        expected: u32,
    },
    /// The policy could not be canonically written for hashing.
    Canonical(CanonicalError),
}

impl PolicyError {
    /// What a reader is told.
    pub open spec fn message(self) -> Seq<char> {
        match self {
            PolicyError::Toml(reason) => "policy is not valid TOML: "@ + reason@,
            PolicyError::UnsupportedVersion { found, expected } =>
            "unsupported policy schema_version "@ + text::decimal(found as nat) + " (expected "@
                + text::decimal(expected as nat) + ")"@,
            PolicyError::Canonical(e) => "policy could not be hashed: "@ + e.message(),
        }
    }

    /// What a reader is told.
    pub fn describe(&self) -> (r: String)
        ensures
            r@ == self.message(),
    {
        match self {
            PolicyError::Toml(reason) => {
                let mut out = "policy is not valid TOML: ".to_owned();
                out.append(reason.as_str());
                out
            },
            PolicyError::UnsupportedVersion { found, expected } => {
                let mut out = "unsupported policy schema_version ".to_owned();
                text::push_decimal(&mut out, *found as u64);
                out.append(" (expected ");
                text::push_decimal(&mut out, *expected as u64);
                out.append(")");
                out
            },
            PolicyError::Canonical(e) => {
                let mut out = "policy could not be hashed: ".to_owned();
                out.append(e.describe().as_str());
                out
            },
        }
    }
}

impl Policy {
    /// Whether this is the conservative default, section by section.
    pub open spec fn is_default(self) -> bool {
        &&& self.schema_version == POLICY_SCHEMA_VERSION
        &&& self.severity.is_default()
        &&& self.loop_policy.is_default()
        &&& self.agent.is_default()
        &&& self.perf.is_default()
        &&& self.history.is_default()
        &&& self.registry.is_default()
        &&& self.self_measure.is_default()
        &&& self.sandbox.is_default()
    }

    /// What a policy says, section by section.
    pub open spec fn json_model(self) -> JsonModel {
        JsonModel::Members(
            seq![
                ("schema_version"@, JsonModel::Whole(self.schema_version as int)),
                ("severity"@, self.severity.json_model()),
                ("loop"@, self.loop_policy.json_model()),
                ("agent"@, self.agent.json_model()),
                ("perf"@, self.perf.json_model()),
                ("history"@, self.history.json_model()),
                ("registry"@, self.registry.json_model()),
                ("self_measure"@, self.self_measure.json_model()),
                ("sandbox"@, self.sandbox.json_model()),
            ],
        )
    }

    /// This policy, section by section.
    pub fn to_json(&self) -> (j: Json)
        ensures
            j@ == self.json_model(),
    {
        let members = vec![
            member("schema_version", Json::Unsigned(self.schema_version as u64)),
            member("severity", self.severity.to_json()),
            member("loop", self.loop_policy.to_json()),
            member("agent", self.agent.to_json()),
            member("perf", self.perf.to_json()),
            member("history", self.history.to_json()),
            member("registry", self.registry.to_json()),
            member("self_measure", self.self_measure.to_json()),
            member("sandbox", self.sandbox.to_json()),
        ];
        proof {
            assert(canonical::member_models(members@) =~= self.json_model()->Members_0);
        }
        object(members)
    }

    /// Accept what a policy file parsed to: the policy itself where its version
    /// is the one implemented, and the refusal otherwise.
    pub fn from_parsed(parsed: Result<Policy, String>) -> (r: Result<Policy, PolicyError>)
        ensures
            r == (match parsed {
                Err(reason) => Err::<Policy, PolicyError>(PolicyError::Toml(reason)),
                Ok(policy) => if policy.schema_version == POLICY_SCHEMA_VERSION {
                    Ok::<Policy, PolicyError>(policy)
                } else {
                    Err::<Policy, PolicyError>(
                        PolicyError::UnsupportedVersion {
                            found: policy.schema_version,
                            expected: POLICY_SCHEMA_VERSION,
                        },
                    )
                },
            }),
    {
        match parsed {
            Err(reason) => Err(PolicyError::Toml(reason)),
            Ok(policy) => {
                if policy.schema_version != POLICY_SCHEMA_VERSION {
                    return Err(
                        PolicyError::UnsupportedVersion {
                            found: policy.schema_version,
                            expected: POLICY_SCHEMA_VERSION,
                        },
                    );
                }
                Ok(policy)
            },
        }
    }

    /// Digest of the policy in force. Stamped on records, and not part of any
    /// result digest.
    pub fn policy_hash(&self) -> (r: Result<String, PolicyError>)
        ensures
            r matches Ok(h) && h@ == canonical::digest_of(self.json_model()),
    {
        Ok(canonical::digest(&self.to_json()))
    }
}

// --- laws -----------------------------------------------------------------

/// The defaults are conservative. Tampering and a failing suite block. Weak evidence
/// ends at low, and only diff-actionable metrics of tiers A and B go higher. The
/// loop calls a human in after three passes. The tool is measured by its last
/// attested release, and no code is executed.
pub proof fn lemma_the_defaults_are_conservative(policy: Policy)
    requires
        policy.is_default(),
    ensures
        policy.schema_version == 1,
        policy.severity.block_on_tamper,
        policy.severity.block_on_test_failure,
        policy.severity.max_severity_for_c_tier == Severity::Low,
        policy.severity.med_plus_requires_diff_actionable,
        forall|tier: EvidenceTier| #[trigger]
            policy.severity.med_plus_tiers@.contains(tier) <==> tier == EvidenceTier::A || tier
                == EvidenceTier::B,
        policy.loop_policy.iteration_cap == 3,
        !policy.loop_policy.count_context_informational,
        policy.agent.profile_token_budget == 1500,
        policy.agent.bytes_per_token == 4,
        policy.registry.claim_budget == 24,
        policy.registry.max_claims_expiring_per_month == 3,
        policy.self_measure.binary == SelfMeasureBinary::LastAttestedRelease,
        policy.self_measure.exclusion_drift_signal,
        !policy.sandbox.enabled,
        policy.sandbox.test_command is None,
        policy.sandbox.test_timeout_ms == 600_000,
        policy.sandbox.env_allow@.len() == 0,
        policy.sandbox.memory_limit_mb is None,
{
    let tiers = policy.severity.med_plus_tiers@;
    assert(tiers[0] == EvidenceTier::A && tiers[1] == EvidenceTier::B);
    assert(text::texts(policy.sandbox.env_allow@).len() == policy.sandbox.env_allow@.len());
}

} // verus!
