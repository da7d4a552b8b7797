//! Stable machine codes for verdict reasons. Consumers branch on these.
use vstd::prelude::*;

verus! {

/// A tamper detector fired and policy stops the line for it.
pub const TAMPER_SIGNAL: &'static str = "tamper-signal";

/// The user test command failed and policy blocks on that.
pub const TEST_FAILURE: &'static str = "test-failure";

/// The user test command failed and policy chose not to block.
pub const TEST_FAILURE_ADVISORY: &'static str = "test-failure-advisory";

/// A tamper detector fired and policy does not stop the line for it.
pub const TAMPER_SIGNAL_ADVISORY: &'static str = "tamper-signal-advisory";

/// One or more findings reached MED+ after policy.
pub const SEVERITY_MED_PLUS: &'static str = "severity-med-plus";

/// Findings below the MED+ band, reported and not blocking.
pub const FINDING_ADVISORY: &'static str = "finding-advisory";

/// The policy was edited inside the measured change.
pub const POLICY_CHANGE: &'static str = "policy-change";

/// The edit loosened policy and no verified justification covers it.
pub const POLICY_CHANGE_LOOSENING: &'static str = "policy-change-loosening";

/// The per-branch iteration cap has been passed.
pub const ITERATION_CAP: &'static str = "iteration-cap";

/// An engine could not run. Its metrics are absent, not zero.
pub const ENGINE_UNAVAILABLE: &'static str = "engine-unavailable";

/// A reported finding stands on a claim that is past its re-review date.
pub const EVIDENCE_STALE: &'static str = "evidence-stale";

/// The iteration counter restarted because its state was unusable.
pub const ITERATION_STATE_RESET: &'static str = "iteration-state-reset";

/// The measurement did not see everything it set out to.
pub const MEASUREMENT_INCOMPLETE: &'static str = "measurement-incomplete";

/// A changed path could not be read, so no result describes it.
pub const CHANGE_NOT_READ: &'static str = "change-not-read";

/// The engines and the loaded registry disagree about a claim.
pub const EVIDENCE_REGISTRY_SKEW: &'static str = "evidence-registry-skew";

} // verus!
