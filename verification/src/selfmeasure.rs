//! Self-measurement: which binary measured, and whether that was the rule.
//!
//! The tool must pass its own measurement, which would let a broken detector
//! judge the fix to itself. The rule is that self-measurement runs the last
//! attested release. Overriding it is sometimes legitimate and never quiet: an
//! override carries a reason from a closed set.
use vstd::prelude::*;

verus! {

/// Why a self-measurement was set aside.
#[derive(Debug, Clone, Copy, PartialEq, Eq, Structural)]
pub enum OverrideReason {
    /// No attested release exists yet.
    BootstrapNoAttestedRelease,
    /// The change under measurement is to an engine.
    EngineChangeUnderReview,
    /// A detector defect is known, filed, and firing on this change.
    KnownDetectorDefect,
    /// The attested binary could not be fetched or run.
    InfrastructureUnavailable,
    /// A finding was reviewed and found to be a false positive.
    ReviewedFalsePositive,
}

impl View for OverrideReason {
    type V = Self;

    open spec fn view(&self) -> Self {
        *self
    }
}

impl OverrideReason {
    /// How this value is spelled on the wire.
    pub open spec fn wire_name(self) -> Seq<char> {
        match self {
            OverrideReason::BootstrapNoAttestedRelease => "bootstrap-no-attested-release"@,
            OverrideReason::EngineChangeUnderReview => "engine-change-under-review"@,
            OverrideReason::KnownDetectorDefect => "known-detector-defect"@,
            OverrideReason::InfrastructureUnavailable => "infrastructure-unavailable"@,
            OverrideReason::ReviewedFalsePositive => "reviewed-false-positive"@,
        }
    }

    /// The spelling of this value on the wire.
    pub fn wire(self) -> (r: &'static str)
        ensures
            r@ == self.wire_name(),
    {
        match self {
            OverrideReason::BootstrapNoAttestedRelease => "bootstrap-no-attested-release",
            OverrideReason::EngineChangeUnderReview => "engine-change-under-review",
            OverrideReason::KnownDetectorDefect => "known-detector-defect",
            OverrideReason::InfrastructureUnavailable => "infrastructure-unavailable",
            OverrideReason::ReviewedFalsePositive => "reviewed-false-positive",
        }
    }
}

/// A recorded override.
#[derive(Debug, Clone, PartialEq, Eq)]
pub struct SelfMeasureOverride {
    /// Which closed-set reason applies.
    pub reason: OverrideReason,
    /// Free text explaining this instance.
    pub justification: String,
    /// Issue or change the decision is recorded against.
    pub reference: String,
    /// Who approved it. A named person, not a role.
    pub approved_by: String,
    /// Commit the override applies to. Overrides do not carry forward.
    pub head_oid: String,
}

/// Which binary a self-measurement ran, and whether that was the rule or an
/// exception.
#[derive(Debug, Clone, PartialEq, Eq)]
pub struct SelfMeasureProvenance {
    /// Version of the binary that measured.
    pub measuring_binary_version: String,
    /// Commit it was built from.
    pub measuring_binary_oid: String,
    /// Whether that binary was an attested release.
    pub attested: bool,
    /// Present when the attested-binary rule was not followed.
    pub override_record: Option<SelfMeasureOverride>,
    /// Paths excluded from self-measurement.
    pub excluded_paths: Vec<String>,
    /// Set when the excluded set grew since the last attested run.
    pub exclusion_drift: bool,
}

impl SelfMeasureProvenance {
    /// Whether a run followed the attested-binary rule, with nothing to excuse.
    pub open spec fn clean(self) -> bool {
        self.attested && self.override_record is None && !self.exclusion_drift
    }

    /// Whether this run satisfied the attested-binary rule without an override.
    pub fn is_clean(&self) -> (r: bool)
        ensures
            r == (self.attested && self.override_record is None && !self.exclusion_drift),
            r == self.clean(),
    {
        self.attested && self.override_record.is_none() && !self.exclusion_drift
    }
}

/// What keeps a run from being clean: a binary that was not attested, an override, or
/// an excluded set that grew, each on its own, and nothing else that is recorded.
pub proof fn lemma_what_keeps_a_run_from_being_clean(
    a: SelfMeasureProvenance,
    b: SelfMeasureProvenance,
)
    ensures
        !a.attested ==> !a.clean(),
        a.override_record is Some ==> !a.clean(),
        a.exclusion_drift ==> !a.clean(),
        !a.clean() ==> !a.attested || a.override_record is Some || a.exclusion_drift,
        a.attested == b.attested && a.exclusion_drift == b.exclusion_drift && (a.override_record
            is Some <==> b.override_record is Some) ==> a.clean() == b.clean(),
{
}

} // verus!
