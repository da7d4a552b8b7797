//! What happens when the change under measurement edits the policy.
//!
//! Every policy edit produces an advisory finding carrying the delta: which
//! field, from what, to what. Only a loosening can block, and only when no
//! verified justification covers it. A justification nobody checked is reported
//! and changes nothing.
//!
//! Fields are found by walking the two policies as they are written, so a field
//! is reported the day it lands. A field without a recorded direction is named
//! in the finding and never stops the line.
use vstd::prelude::*;

use crate::canonical;
use crate::canonical::{to_canonical_string, Json, JsonModel};
use crate::decimal;
use crate::policy::{Policy, PolicyError};
use crate::sorting;
use crate::strmap;
use crate::strmap::StrSet;
use crate::text;
use crate::text::same_text;

verus! {

/// Which way an edit moved the bar.
#[derive(Debug, Clone, Copy, PartialEq, Eq, Structural)]
pub enum Direction {
    /// The bar got easier to pass. The only direction that can block.
    Loosening,
    /// The bar got harder to pass.
    Tightening,
    /// Moved, but neither loosens nor tightens.
    Neutral,
    /// A field or a value without a recorded direction. Reported, never
    /// blocking.
    Unclassified,
}

impl Direction {
    /// The direction as a reader sees it.
    pub open spec fn words(self) -> Seq<char> {
        match self {
            Direction::Loosening => "loosens"@,
            Direction::Tightening => "tightens"@,
            Direction::Neutral => "neither loosens nor tightens"@,
            Direction::Unclassified => "direction unclassified"@,
        }
    }

    fn describe(self) -> (r: &'static str)
        ensures
            r@ == self.words(),
    {
        match self {
            Direction::Loosening => "loosens",
            Direction::Tightening => "tightens",
            Direction::Neutral => "neither loosens nor tightens",
            Direction::Unclassified => "direction unclassified",
        }
    }
}

/// One field that moved.
#[derive(Debug, Clone, PartialEq, Eq)]
pub struct PolicyDelta {
    /// Dotted path.
    pub field: String,
    /// Value in the base policy.
    pub before: String,
    /// Value in the head policy.
    pub after: String,
    /// Which way it moved.
    pub direction: Direction,
}

/// What a delta says.
pub struct DeltaModel {
    pub field: Seq<char>,
    pub before: Seq<char>,
    pub after: Seq<char>,
    pub direction: Direction,
}

impl View for PolicyDelta {
    type V = DeltaModel;

    open spec fn view(&self) -> DeltaModel {
        DeltaModel {
            field: self.field@,
            before: self.before@,
            after: self.after@,
            direction: self.direction,
        }
    }
}

/// What a list of deltas says.
pub open spec fn deltas_of(s: Seq<PolicyDelta>) -> Seq<DeltaModel> {
    s.map_values(|d: PolicyDelta| d@)
}

impl DeltaModel {
    /// The delta as a reader sees it.
    pub open spec fn description(self) -> Seq<char> {
        self.field + ": "@ + self.before + " -> "@ + self.after + " ("@ + self.direction.words()
            + ")"@
    }
}

impl PolicyDelta {
    /// The delta as a reader sees it.
    pub fn describe(&self) -> (r: String)
        ensures
            r@ == self@.description(),
    {
        let mut out = self.field.clone();
        out.append(": ");
        out.append(self.before.as_str());
        out.append(" -> ");
        out.append(self.after.as_str());
        out.append(" (");
        out.append(self.direction.describe());
        out.append(")");
        out
    }
}

/// A recorded reason for loosening a quality gate.
#[derive(Debug, Clone, PartialEq, Eq)]
pub enum Justification {
    /// Supplied by the caller and checked against nothing. Reported, never
    /// authoritative.
    Unverified {
        /// Where the caller says the justification was recorded.
        reference: String,
        /// What the caller says it says.
        summary: String,
    },
    /// Read from the ledger by a party in a position to check it. The only form
    /// that suppresses blocking.
    Verified {
        /// The ledger reference that was resolved.
        reference: String,
        /// What it says.
        summary: String,
    },
}

impl Justification {
    /// Where a justification claims to come from.
    pub open spec fn source(self) -> Seq<char> {
        match self {
            Justification::Unverified { reference, .. } => reference@,
            Justification::Verified { reference, .. } => reference@,
        }
    }

    /// What a justification says.
    pub open spec fn content(self) -> Seq<char> {
        match self {
            Justification::Unverified { summary, .. } => summary@,
            Justification::Verified { summary, .. } => summary@,
        }
    }

    /// The justification as a reader sees it, verification status included.
    pub open spec fn description(self) -> Seq<char> {
        if self is Verified {
            "justified by "@ + self.source() + " (verified against the ledger): "@ + self.content()
        } else {
            "cites "@ + self.source() + " (UNVERIFIED — nothing has checked this): "@
                + self.content()
        }
    }

    /// Where the justification claims to come from.
    pub fn reference(&self) -> (r: &str)
        ensures
            r@ == self.source(),
    {
        match self {
            Justification::Unverified { reference, .. } => reference.as_str(),
            Justification::Verified { reference, .. } => reference.as_str(),
        }
    }

    /// What it says.
    pub fn summary(&self) -> (r: &str)
        ensures
            r@ == self.content(),
    {
        match self {
            Justification::Unverified { summary, .. } => summary.as_str(),
            Justification::Verified { summary, .. } => summary.as_str(),
        }
    }

    /// Whether anyone checked it.
    pub fn is_verified(&self) -> (r: bool)
        ensures
            r == (*self is Verified),
    {
        matches!(self, Justification::Verified { .. })
    }

    /// The justification as a reader should see it, verification status
    /// included.
    pub fn describe(&self) -> (r: String)
        ensures
            r@ == self.description(),
    {
        if self.is_verified() {
            let mut out = "justified by ".to_owned();
            out.append(self.reference());
            out.append(" (verified against the ledger): ");
            out.append(self.summary());
            out
        } else {
            let mut out = "cites ".to_owned();
            out.append(self.reference());
            out.append(" (UNVERIFIED — nothing has checked this): ");
            out.append(self.summary());
            out
        }
    }
}

/// What this change says about the quality gates it is measured by.
#[derive(Debug, Clone, PartialEq, Eq)]
pub struct PolicyChange {
    /// Every field that moved, in path order.
    pub deltas: Vec<PolicyDelta>,
    /// The justification offered for any loosening in this change.
    pub justification: Option<Justification>,
}

impl Default for PolicyChange {
    fn default() -> (r: Self)
        ensures
            r.deltas@.len() == 0,
            r.justification is None,
    {
        PolicyChange { deltas: Vec::new(), justification: None }
    }
}

/// The deltas among these that loosen, in order.
pub open spec fn loosening(s: Seq<DeltaModel>) -> Seq<DeltaModel>
    decreases s.len(),
{
    if s.len() == 0 {
        Seq::empty()
    } else if s.last().direction == Direction::Loosening {
        loosening(s.drop_last()).push(s.last())
    } else {
        loosening(s.drop_last())
    }
}

impl PolicyChange {
    /// Whether some field loosened.
    pub open spec fn loosens(self) -> bool {
        exists|i: int|
            0 <= i < self.deltas@.len() && (#[trigger] self.deltas@[i]).direction
                == Direction::Loosening
    }

    /// Whether a verified justification covers this change.
    pub open spec fn justified(self) -> bool {
        self.justification matches Some(j) && j is Verified
    }

    /// Whether this edit stops the line.
    pub open spec fn stops(self) -> bool {
        !self.justified() && self.loosens()
    }

    /// Whether nothing moved at all.
    pub fn is_empty(&self) -> (r: bool)
        ensures
            r == (self.deltas@.len() == 0),
    {
        self.deltas.len() == 0
    }

    /// The deltas that lowered the bar.
    pub fn loosenings(&self) -> (r: Vec<&PolicyDelta>)
        ensures
            r@.map_values(|d: &PolicyDelta| d@) == loosening(deltas_of(self.deltas@)),
            r@.len() > 0 <==> self.loosens(),
    {
        let mut out: Vec<&PolicyDelta> = Vec::new();
        let ghost all = deltas_of(self.deltas@);
        let ghost f = |d: &PolicyDelta| d@;
        let mut i: usize = 0;
        proof {
            assert(out@.map_values(f) =~= loosening(all.take(0)));
        }
        while i < self.deltas.len()
            invariant
                i <= self.deltas.len(),
                all == deltas_of(self.deltas@),
                f == (|d: &PolicyDelta| d@),
                out@.map_values(f) == loosening(all.take(i as int)),
                out@.len() > 0 <==> exists|k: int|
                    0 <= k < i && (#[trigger] self.deltas@[k]).direction == Direction::Loosening,
            decreases self.deltas.len() - i,
        {
            let delta = &self.deltas[i];
            let ghost before = out@;
            if matches!(delta.direction, Direction::Loosening) {
                out.push(delta);
                proof {
                    assert(self.deltas@[i as int].direction == Direction::Loosening);
                }
            }
            proof {
                assert(all.take(i + 1).drop_last() =~= all.take(i as int));
                assert(all.take(i + 1).last() == delta@);
                assert(out@.map_values(f) =~= loosening(all.take(i + 1)));
            }
            i = i + 1;
        }
        proof {
            assert(all.take(i as int) =~= all);
        }
        out
    }

    /// Whether a verified justification covers this change.
    ///
    /// The single question both blocking routes ask: this module's own
    /// loosenings, and a threshold edit fired over some other configuration
    /// file.
    pub fn is_justified(&self) -> (r: bool)
        ensures
            r == self.justified(),
    {
        match &self.justification {
            Some(j) => j.is_verified(),
            None => false,
        }
    }

    /// Whether this edit stops the line: a loosening without a verified
    /// justification, and nothing else.
    pub fn stops_the_line(&self) -> (r: bool)
        ensures
            r == self.stops(),
    {
        !self.is_justified() && self.loosenings().len() > 0
    }
}

/// The policy in force where a file may be absent.
///
/// Absent means the conservative defaults, which is what would have been used.
/// A change that adds a policy file is therefore compared against the defaults
/// rather than against nothing.
pub fn resolve(parsed: Option<Result<Policy, String>>) -> (r: Result<Policy, PolicyError>)
    ensures
        match parsed {
            None => r matches Ok(p) && p.is_default(),
            Some(Err(reason)) => r == Err::<Policy, PolicyError>(PolicyError::Toml(reason)),
            Some(Ok(policy)) => if policy.schema_version == crate::policy::POLICY_SCHEMA_VERSION {
                r == Ok::<Policy, PolicyError>(policy)
            } else {
                r == Err::<Policy, PolicyError>(
                    PolicyError::UnsupportedVersion {
                        found: policy.schema_version,
                        expected: crate::policy::POLICY_SCHEMA_VERSION,
                    },
                )
            },
        },
{
    match parsed {
        Some(parsed) => Policy::from_parsed(parsed),
        None => Ok(Policy::default()),
    }
}

// --- values ---------------------------------------------------------------

/// Whether two values say the same.
fn same_value(a: &Json, b: &Json) -> (r: bool)
    ensures
        r == (a@ == b@),
    decreases a,
{
    match (a, b) {
        (Json::Null, Json::Null) => true,
        (Json::Bool(x), Json::Bool(y)) => *x == *y,
        (Json::Unsigned(x), Json::Unsigned(y)) => *x == *y,
        (Json::Signed(x), Json::Signed(y)) => *x == *y,
        (Json::Unsigned(x), Json::Signed(y)) => *y >= 0 && *x == *y as u64,
        (Json::Signed(x), Json::Unsigned(y)) => *x >= 0 && *x as u64 == *y,
        (Json::Millionths(_), Json::Millionths(_))
        | (Json::Millionths(_), Json::Scaled { .. })
        | (Json::Scaled { .. }, Json::Millionths(_))
        | (Json::Scaled { .. }, Json::Scaled { .. }) => {
            at_least(number(a), number(b)) && at_least(number(b), number(a))
        },
        (Json::Text(x), Json::Text(y)) => same_text(x.as_str(), y.as_str()),
        (Json::List(x), Json::List(y)) => {
            proof {
                canonical::lemma_list_model(*x);
                canonical::lemma_list_model(*y);
            }
            if x.len() != y.len() {
                proof {
                    assert(canonical::models(x@).len() != canonical::models(y@).len());
                }
                return false;
            }
            let mut i: usize = 0;
            while i < x.len()
                invariant
                    i <= x.len(),
                    x.len() == y.len(),
                    *a == Json::List(*x),
                    a@ == JsonModel::List(canonical::models(x@)),
                    b@ == JsonModel::List(canonical::models(y@)),
                    forall|k: int| 0 <= k < i ==> (#[trigger] x@[k])@ == y@[k]@,
                decreases x.len() - i,
            {
                proof {
                    assert(decreases_to!(a => a->List_0));
                    assert(decreases_to!(x => x@));
                    assert(decreases_to!(x@ => x@[i as int]));
                }
                if !same_value(&x[i], &y[i]) {
                    proof {
                        assert(canonical::models(x@)[i as int] != canonical::models(y@)[i as int]);
                    }
                    return false;
                }
                i = i + 1;
            }
            proof {
                assert(canonical::models(x@) =~= canonical::models(y@));
            }
            true
        },
        (Json::Members(x), Json::Members(y)) => {
            proof {
                canonical::lemma_members_model(*x);
                canonical::lemma_members_model(*y);
            }
            if x.len() != y.len() {
                proof {
                    assert(canonical::member_models(x@).len() != canonical::member_models(
                        y@,
                    ).len());
                }
                return false;
            }
            let mut i: usize = 0;
            while i < x.len()
                invariant
                    i <= x.len(),
                    x.len() == y.len(),
                    *a == Json::Members(*x),
                    a@ == JsonModel::Members(canonical::member_models(x@)),
                    b@ == JsonModel::Members(canonical::member_models(y@)),
                    forall|k: int|
                        0 <= k < i ==> (#[trigger] x@[k]).0@ == y@[k].0@ && x@[k].1@ == y@[k].1@,
                decreases x.len() - i,
            {
                proof {
                    assert(decreases_to!(a => a->Members_0));
                    assert(decreases_to!(x => x@));
                    assert(decreases_to!(x@ => x@[i as int]));
                    assert(decreases_to!(x@[i as int] => x@[i as int].1));
                }
                if !same_text(x[i].0.as_str(), y[i].0.as_str()) || !same_value(&x[i].1, &y[i].1) {
                    proof {
                        assert(canonical::member_models(x@)[i as int] != canonical::member_models(
                            y@,
                        )[i as int]);
                    }
                    return false;
                }
                i = i + 1;
            }
            proof {
                assert(canonical::member_models(x@) =~= canonical::member_models(y@));
            }
            true
        },
        _ => false,
    }
}

/// A value as a reader sees it: bare strings, compact JSON otherwise.
pub open spec fn rendered(value: JsonModel) -> Seq<char> {
    match value {
        JsonModel::Text(s) => s,
        JsonModel::Null => "(unset)"@,
        _ => canonical::encode(value),
    }
}

fn render(value: &Json) -> (r: String)
    ensures
        r@ == rendered(value@),
{
    match value {
        Json::Text(s) => s.clone(),
        Json::Null => "(unset)".to_owned(),
        _ => to_canonical_string(value),
    }
}

// --- directions -----------------------------------------------------------

/// What kind of knob a field is.
#[derive(Debug, Clone, Copy, PartialEq, Eq, Structural)]
pub enum Knob {
    /// Turning it off lowers the bar.
    RelaxesWhenFalse,
    /// Turning it on lowers the bar.
    RelaxesWhenTrue,
    /// A number where raising it relaxes a limit.
    Ceiling,
    /// A number where lowering it relaxes a limit.
    Floor,
    /// A severity. Moving down the scale relaxes.
    SeverityScale,
    /// The measuring binary. Moving from the rule to its exception relaxes.
    BinaryScale,
    /// A set where adding an entry relaxes.
    GrowRelaxes,
    /// A set where removing an entry relaxes.
    ShrinkRelaxes,
    /// Moves without loosening or tightening.
    Neutral,
}

/// Every field of the policy, and which way it moves the bar.
pub open spec fn knob_of(field: Seq<char>) -> Option<Knob> {
    if field == "schema_version"@ {
        Some(Knob::Neutral)
    } else if field == "severity.block_on_tamper"@ || field == "severity.block_on_test_failure"@ {
        Some(Knob::RelaxesWhenFalse)
    } else if field == "severity.max_severity_for_c_tier"@ {
        Some(Knob::SeverityScale)
    } else if field == "severity.med_plus_requires_diff_actionable"@ {
        Some(Knob::RelaxesWhenTrue)
    } else if field == "severity.med_plus_tiers"@ {
        Some(Knob::ShrinkRelaxes)
    } else if field == "loop.iteration_cap"@ {
        Some(Knob::Ceiling)
    } else if field == "loop.count_context_informational"@ {
        Some(Knob::RelaxesWhenFalse)
    } else if field == "agent.profile_token_budget"@ || field == "agent.bytes_per_token"@ {
        Some(Knob::Neutral)
    } else if field == "perf.fast_lane_warm_p95_ms"@ || field
        == "perf.fast_lane_warm_fallback_p95_ms"@ || field == "perf.fast_lane_cold_cap_ms"@ || field
        == "perf.max_git_spawns_per_measure"@ {
        Some(Knob::Ceiling)
    } else if field == "history.window_days"@ {
        Some(Knob::Neutral)
    } else if field == "registry.claim_budget"@ || field
        == "registry.max_claims_expiring_per_month"@ {
        Some(Knob::Ceiling)
    } else if field == "self_measure.binary"@ {
        Some(Knob::BinaryScale)
    } else if field == "self_measure.excluded_paths"@ {
        Some(Knob::GrowRelaxes)
    } else if field == "self_measure.exclusion_drift_signal"@ {
        Some(Knob::RelaxesWhenFalse)
    } else if field == "sandbox.enabled"@ {
        Some(Knob::RelaxesWhenFalse)
    } else if field == "sandbox.test_timeout_ms"@ {
        Some(Knob::Floor)
    } else if field == "sandbox.test_command"@ || field == "sandbox.env_allow"@ || field
        == "sandbox.memory_limit_mb"@ {
        Some(Knob::Neutral)
    } else {
        None
    }
}

/// Every field of the policy, and which way it moves the bar.
///
/// Restricting MED+ to diff-actionable metrics is what lowers the bar, so
/// lifting the restriction tightens it. A shorter test timeout turns a failing
/// suite into an unanswered question, so lowering it relaxes. What the sandbox
/// runs and with what is configuration, not strictness.
pub fn knob(field: &str) -> (r: Option<Knob>)
    ensures
        r == knob_of(field@),
{
    if same_text(field, "schema_version") {
        Some(Knob::Neutral)
    } else if same_text(field, "severity.block_on_tamper") || same_text(
        field,
        "severity.block_on_test_failure",
    ) {
        Some(Knob::RelaxesWhenFalse)
    } else if same_text(field, "severity.max_severity_for_c_tier") {
        Some(Knob::SeverityScale)
    } else if same_text(field, "severity.med_plus_requires_diff_actionable") {
        Some(Knob::RelaxesWhenTrue)
    } else if same_text(field, "severity.med_plus_tiers") {
        Some(Knob::ShrinkRelaxes)
    } else if same_text(field, "loop.iteration_cap") {
        Some(Knob::Ceiling)
    } else if same_text(field, "loop.count_context_informational") {
        Some(Knob::RelaxesWhenFalse)
    } else if same_text(field, "agent.profile_token_budget") || same_text(
        field,
        "agent.bytes_per_token",
    ) {
        Some(Knob::Neutral)
    } else if same_text(field, "perf.fast_lane_warm_p95_ms") || same_text(
        field,
        "perf.fast_lane_warm_fallback_p95_ms",
    ) || same_text(field, "perf.fast_lane_cold_cap_ms") || same_text(
        field,
        "perf.max_git_spawns_per_measure",
    ) {
        Some(Knob::Ceiling)
    } else if same_text(field, "history.window_days") {
        Some(Knob::Neutral)
    } else if same_text(field, "registry.claim_budget") || same_text(
        field,
        "registry.max_claims_expiring_per_month",
    ) {
        Some(Knob::Ceiling)
    } else if same_text(field, "self_measure.binary") {
        Some(Knob::BinaryScale)
    } else if same_text(field, "self_measure.excluded_paths") {
        Some(Knob::GrowRelaxes)
    } else if same_text(field, "self_measure.exclusion_drift_signal") {
        Some(Knob::RelaxesWhenFalse)
    } else if same_text(field, "sandbox.enabled") {
        Some(Knob::RelaxesWhenFalse)
    } else if same_text(field, "sandbox.test_timeout_ms") {
        Some(Knob::Floor)
    } else if same_text(field, "sandbox.test_command") || same_text(field, "sandbox.env_allow")
        || same_text(field, "sandbox.memory_limit_mb") {
        Some(Knob::Neutral)
    } else {
        None
    }
}

/// A number in millionths, where the value is one.
pub open spec fn number_of(value: JsonModel) -> Option<int> {
    match value {
        JsonModel::Whole(n) => Some(n * 1000000),
        JsonModel::Millionths(n) => Some(n),
        _ => None,
    }
}

/// The number that digits and zeros give.
pub open spec fn given(n: Option<(i128, u16)>) -> Option<int> {
    match n {
        Some((digits, zeros)) => Some(decimal::scaled(digits as int, zeros as nat)),
        None => None,
    }
}

/// Whether the digits of a number are those of a machine integer.
pub open spec fn narrow(n: Option<(i128, u16)>) -> bool {
    n matches Some((digits, _)) ==> -0x1_0000_0000_0000_0000 <= digits
        <= 0x1_0000_0000_0000_0000
}

fn number(value: &Json) -> (r: Option<(i128, u16)>)
    ensures
        given(r) == number_of(value@),
        narrow(r),
{
    proof {
        assert(canonical::ten_to(6) == 1000000) by {
            reveal_with_fuel(canonical::ten_to, 7);
        }
        assert(canonical::ten_to(0) == 1);
    }
    match value {
        Json::Unsigned(n) => {
            proof {
                assert(value@ == JsonModel::Whole(*n as int));
                assert(decimal::scaled(*n as int, 6) == *n as int * 1000000);
            }
            Some((*n as i128, 6))
        },
        Json::Signed(n) => {
            proof {
                assert(value@ == JsonModel::Whole(*n as int));
                assert(decimal::scaled(*n as int, 6) == *n as int * 1000000);
            }
            Some((*n as i128, 6))
        },
        Json::Millionths(n) => {
            proof {
                assert(decimal::scaled(*n as int, 0) == *n as int);
            }
            Some((*n as i128, 0))
        },
        Json::Scaled { digits, zeros } => Some((*digits as i128, *zeros)),
        _ => None,
    }
}

/// Whether both are numbers and the first is no smaller.
fn at_least(a: Option<(i128, u16)>, b: Option<(i128, u16)>) -> (r: bool)
    requires
        narrow(a),
        narrow(b),
    ensures
        r == (given(a) is Some && given(b) is Some && given(a)->Some_0 >= given(b)->Some_0),
{
    match (a, b) {
        (Some((x, p)), Some((y, q))) => decimal::reaches(x, p, y, q),
        _ => false,
    }
}

/// A truth value, where the value is one.
pub open spec fn bool_of(value: JsonModel) -> Option<bool> {
    match value {
        JsonModel::Bool(b) => Some(b),
        _ => None,
    }
}

fn truth(value: &Json) -> (r: Option<bool>)
    ensures
        r == bool_of(value@),
{
    match value {
        Json::Bool(b) => Some(*b),
        _ => None,
    }
}

/// Where a value stands on the severity scale, strictest first.
pub open spec fn severity_step(value: JsonModel) -> Option<int> {
    match value {
        JsonModel::Text(s) => if s == "critical"@ {
            Some(0)
        } else if s == "high"@ {
            Some(1)
        } else if s == "medium"@ {
            Some(2)
        } else if s == "low"@ {
            Some(3)
        } else if s == "info"@ {
            Some(4)
        } else {
            None
        },
        _ => None,
    }
}

/// Where a value stands on the binary scale, strictest first.
pub open spec fn binary_step(value: JsonModel) -> Option<int> {
    match value {
        JsonModel::Text(s) => if s == "last-attested-release"@ {
            Some(0)
        } else if s == "current-build"@ {
            Some(1)
        } else {
            None
        },
        _ => None,
    }
}

fn severity_position(value: &Json) -> (r: Option<i128>)
    ensures
        match r {
            Some(n) => severity_step(value@) == Some(n as int),
            None => severity_step(value@) is None,
        },
{
    match value {
        Json::Text(s) => if same_text(s.as_str(), "critical") {
            Some(0)
        } else if same_text(s.as_str(), "high") {
            Some(1)
        } else if same_text(s.as_str(), "medium") {
            Some(2)
        } else if same_text(s.as_str(), "low") {
            Some(3)
        } else if same_text(s.as_str(), "info") {
            Some(4)
        } else {
            None
        },
        _ => None,
    }
}

fn binary_position(value: &Json) -> (r: Option<i128>)
    ensures
        match r {
            Some(n) => binary_step(value@) == Some(n as int),
            None => binary_step(value@) is None,
        },
{
    match value {
        Json::Text(s) => if same_text(s.as_str(), "last-attested-release") {
            Some(0)
        } else if same_text(s.as_str(), "current-build") {
            Some(1)
        } else {
            None
        },
        _ => None,
    }
}

/// Which way a truth value moved, where `relaxed` is the relaxed setting.
pub open spec fn bool_direction(
    before: Option<bool>,
    after: Option<bool>,
    relaxed: bool,
) -> Direction {
    match (before, after) {
        (Some(b), Some(a)) => if b != a {
            if a == relaxed {
                Direction::Loosening
            } else {
                Direction::Tightening
            }
        } else {
            Direction::Unclassified
        },
        _ => Direction::Unclassified,
    }
}

/// Which way a number moved, where going up relaxes.
pub open spec fn rise_direction(before: Option<int>, after: Option<int>) -> Direction {
    match (before, after) {
        (Some(b), Some(a)) => if a > b {
            Direction::Loosening
        } else if a < b {
            Direction::Tightening
        } else {
            Direction::Unclassified
        },
        _ => Direction::Unclassified,
    }
}

/// Whether some item of `a` is no item of `b`.
pub open spec fn has_other(a: Seq<JsonModel>, b: Seq<JsonModel>) -> bool {
    exists|i: int| 0 <= i < a.len() && !b.contains(#[trigger] a[i])
}

/// Which way a set moved. An edit that both adds and removes is a loosening if
/// anything moved in the relaxing direction.
pub open spec fn set_moved(before: JsonModel, after: JsonModel, growing_relaxes: bool) -> Direction {
    match (before, after) {
        (JsonModel::List(b), JsonModel::List(a)) => {
            let added = has_other(a, b);
            let gone = has_other(b, a);
            let relaxed = if growing_relaxes { added } else { gone };
            let tightened = if growing_relaxes { gone } else { added };
            if relaxed {
                Direction::Loosening
            } else if tightened {
                Direction::Tightening
            } else {
                Direction::Neutral
            }
        },
        _ => Direction::Unclassified,
    }
}

/// Which way one field moved.
pub open spec fn moved(field: Seq<char>, before: JsonModel, after: JsonModel) -> Direction {
    match knob_of(field) {
        None => Direction::Unclassified,
        Some(knob) => match knob {
            Knob::Neutral => Direction::Neutral,
            Knob::RelaxesWhenFalse => bool_direction(bool_of(before), bool_of(after), false),
            Knob::RelaxesWhenTrue => bool_direction(bool_of(before), bool_of(after), true),
            Knob::Ceiling => rise_direction(number_of(before), number_of(after)),
            Knob::Floor => rise_direction(number_of(after), number_of(before)),
            Knob::SeverityScale => rise_direction(severity_step(before), severity_step(after)),
            Knob::BinaryScale => rise_direction(binary_step(before), binary_step(after)),
            Knob::GrowRelaxes => set_moved(before, after, true),
            Knob::ShrinkRelaxes => set_moved(before, after, false),
        },
    }
}

fn bool_moved(before: Option<bool>, after: Option<bool>, relaxed: bool) -> (r: Direction)
    ensures
        r == bool_direction(before, after, relaxed),
{
    match (before, after) {
        (Some(b), Some(a)) => {
            if b != a {
                if a == relaxed {
                    Direction::Loosening
                } else {
                    Direction::Tightening
                }
            } else {
                Direction::Unclassified
            }
        },
        _ => Direction::Unclassified,
    }
}

/// The mathematical value of an optional number.
pub open spec fn widened(n: Option<i128>) -> Option<int> {
    match n {
        Some(x) => Some(x as int),
        None => None,
    }
}

fn rise_moved(before: Option<i128>, after: Option<i128>) -> (r: Direction)
    ensures
        r == rise_direction(widened(before), widened(after)),
{
    match (before, after) {
        (Some(b), Some(a)) => {
            if a > b {
                Direction::Loosening
            } else if a < b {
                Direction::Tightening
            } else {
                Direction::Unclassified
            }
        },
        _ => Direction::Unclassified,
    }
}

fn number_moved(before: Option<(i128, u16)>, after: Option<(i128, u16)>) -> (r: Direction)
    requires
        narrow(before),
        narrow(after),
    ensures
        r == rise_direction(given(before), given(after)),
{
    let up = at_least(after, before);
    let down = at_least(before, after);
    if up && !down {
        Direction::Loosening
    } else if down && !up {
        Direction::Tightening
    } else {
        Direction::Unclassified
    }
}

fn holds_value(list: &Vec<Json>, wanted: &Json) -> (r: bool)
    ensures
        r == canonical::models(list@).contains(wanted@),
{
    let mut i: usize = 0;
    while i < list.len()
        invariant
            i <= list.len(),
            forall|k: int| 0 <= k < i ==> (#[trigger] list@[k])@ != wanted@,
        decreases list.len() - i,
    {
        if same_value(&list[i], wanted) {
            proof {
                assert(canonical::models(list@)[i as int] == wanted@);
            }
            return true;
        }
        i = i + 1;
    }
    false
}

fn any_other(a: &Vec<Json>, b: &Vec<Json>) -> (r: bool)
    ensures
        r == has_other(canonical::models(a@), canonical::models(b@)),
{
    let mut i: usize = 0;
    while i < a.len()
        invariant
            i <= a.len(),
            forall|k: int|
                0 <= k < i ==> canonical::models(b@).contains(
                    #[trigger] canonical::models(a@)[k],
                ),
        decreases a.len() - i,
    {
        if !holds_value(b, &a[i]) {
            proof {
                assert(!canonical::models(b@).contains(canonical::models(a@)[i as int]));
            }
            return true;
        }
        i = i + 1;
    }
    false
}

/// Direction for a set-valued field.
fn set_direction(before: &Json, after: &Json, growing_relaxes: bool) -> (r: Direction)
    ensures
        r == set_moved(before@, after@, growing_relaxes),
{
    match (before, after) {
        (Json::List(b), Json::List(a)) => {
            proof {
                canonical::lemma_list_model(*b);
                canonical::lemma_list_model(*a);
            }
            let added = any_other(a, b);
            let gone = any_other(b, a);
            let relaxed = if growing_relaxes {
                added
            } else {
                gone
            };
            let tightened = if growing_relaxes {
                gone
            } else {
                added
            };
            if relaxed {
                Direction::Loosening
            } else if tightened {
                Direction::Tightening
            } else {
                Direction::Neutral
            }
        },
        _ => Direction::Unclassified,
    }
}

/// Which way one field moved.
pub fn direction_of(field: &str, before: &Json, after: &Json) -> (r: Direction)
    ensures
        r == moved(field@, before@, after@),
{
    match knob(field) {
        None => Direction::Unclassified,
        Some(knob) => match knob {
            Knob::Neutral => Direction::Neutral,
            Knob::RelaxesWhenFalse => bool_moved(truth(before), truth(after), false),
            Knob::RelaxesWhenTrue => bool_moved(truth(before), truth(after), true),
            Knob::Ceiling => number_moved(number(before), number(after)),
            Knob::Floor => number_moved(number(after), number(before)),
            Knob::SeverityScale => rise_moved(severity_position(before), severity_position(after)),
            Knob::BinaryScale => rise_moved(binary_position(before), binary_position(after)),
            Knob::GrowRelaxes => set_direction(before, after, true),
            Knob::ShrinkRelaxes => set_direction(before, after, false),
        },
    }
}

// --- the walk -------------------------------------------------------------

/// Where a key stands among members, looking from `i` on.
pub open spec fn member_index(
    rows: Seq<(Seq<char>, JsonModel)>,
    key: Seq<char>,
    i: int,
) -> int
    decreases rows.len() - i,
{
    if i >= rows.len() || i < 0 || rows[i].0 == key {
        i
    } else {
        member_index(rows, key, i + 1)
    }
}

/// The keys of members, gathered into a set of keys.
pub open spec fn keys_with(
    keys: Seq<(Seq<char>, ())>,
    rows: Seq<(Seq<char>, JsonModel)>,
    n: int,
) -> Seq<(Seq<char>, ())>
    decreases n,
{
    if n <= 0 {
        keys
    } else {
        strmap::inserted(keys_with(keys, rows, n - 1), rows[n - 1].0, ())
    }
}

/// Every key of either side, once, in order.
pub open spec fn all_keys(
    b: Seq<(Seq<char>, JsonModel)>,
    a: Seq<(Seq<char>, JsonModel)>,
) -> Seq<(Seq<char>, ())> {
    keys_with(keys_with(Seq::empty(), b, b.len() as int), a, a.len() as int)
}

/// The path of a member.
pub open spec fn path_to(prefix: Seq<char>, key: Seq<char>) -> Seq<char> {
    if prefix.len() == 0 {
        key
    } else {
        prefix + "."@ + key
    }
}

/// The delta of a leaf that differs.
pub open spec fn leaf_delta(path: Seq<char>, before: JsonModel, after: JsonModel) -> DeltaModel {
    DeltaModel {
        field: path,
        before: rendered(before),
        after: rendered(after),
        direction: moved(path, before, after),
    }
}

/// One delta per leaf that differs. Arrays are leaves.
pub open spec fn walked(prefix: Seq<char>, before: JsonModel, after: JsonModel) -> Seq<DeltaModel>
    decreases before, 0int,
{
    if before == after {
        Seq::empty()
    } else {
        match (before, after) {
            (JsonModel::Members(b), JsonModel::Members(a)) => walked_keys(
                prefix,
                b,
                a,
                all_keys(b, a),
                all_keys(b, a).len() as int,
            ),
            _ => seq![leaf_delta(prefix, before, after)],
        }
    }
}

/// The deltas under the first `n` keys.
pub open spec fn walked_keys(
    prefix: Seq<char>,
    b: Seq<(Seq<char>, JsonModel)>,
    a: Seq<(Seq<char>, JsonModel)>,
    keys: Seq<(Seq<char>, ())>,
    n: int,
) -> Seq<DeltaModel>
    decreases b, n,
{
    if n <= 0 {
        Seq::empty()
    } else {
        let key = keys[n - 1].0;
        let i = member_index(b, key, 0);
        let j = member_index(a, key, 0);
        let path = path_to(prefix, key);
        let here = if 0 <= i < b.len() {
            if 0 <= j < a.len() {
                walked(path, b[i].1, a[j].1)
            } else if b[i].1 == JsonModel::Null {
                Seq::empty()
            } else {
                seq![leaf_delta(path, b[i].1, JsonModel::Null)]
            }
        } else if 0 <= j < a.len() && a[j].1 != JsonModel::Null {
            seq![leaf_delta(path, JsonModel::Null, a[j].1)]
        } else {
            Seq::empty()
        };
        walked_keys(prefix, b, a, keys, n - 1) + here
    }
}

fn find_member(v: &Vec<(String, Json)>, key: &str) -> (i: usize)
    ensures
        i == member_index(canonical::member_models(v@), key@, 0),
        i <= v.len(),
{
    let ghost rows = canonical::member_models(v@);
    let mut i: usize = 0;
    while i < v.len() && !same_text(v[i].0.as_str(), key)
        invariant
            i <= v.len(),
            rows == canonical::member_models(v@),
            member_index(rows, key@, 0) == member_index(rows, key@, i as int),
        decreases v.len() - i,
    {
        i = i + 1;
    }
    i
}

fn add_keys(keys: &mut StrSet, v: &Vec<(String, Json)>)
    ensures
        final(keys)@ == keys_with(old(keys)@, canonical::member_models(v@), v@.len() as int),
{
    let ghost rows = canonical::member_models(v@);
    let mut i: usize = 0;
    while i < v.len()
        invariant
            i <= v.len(),
            rows == canonical::member_models(v@),
            keys@ == keys_with(old(keys)@, rows, i as int),
        decreases v.len() - i,
    {
        keys.insert(v[i].0.clone(), ());
        i = i + 1;
    }
}

fn push_leaf(path: &str, before: &Json, after: &Json, out: &mut Vec<PolicyDelta>)
    ensures
        deltas_of(final(out)@) == deltas_of(old(out)@) + seq![
            leaf_delta(path@, before@, after@),
        ],
{
    out.push(
        PolicyDelta {
            field: path.to_owned(),
            before: render(before),
            after: render(after),
            direction: direction_of(path, before, after),
        },
    );
    proof {
        assert(deltas_of(out@) =~= deltas_of(old(out)@) + seq![leaf_delta(path@, before@, after@)]);
    }
}

fn join_path(prefix: &str, key: &str) -> (r: String)
    ensures
        r@ == path_to(prefix@, key@),
{
    if prefix.is_empty() {
        key.to_owned()
    } else {
        let mut out = prefix.to_owned();
        out.append(".");
        out.append(key);
        out
    }
}

/// Walk two values, adding one delta per leaf that differs.
fn walk(prefix: &str, before: &Json, after: &Json, out: &mut Vec<PolicyDelta>)
    ensures
        deltas_of(final(out)@) == deltas_of(old(out)@) + walked(prefix@, before@, after@),
    decreases before,
{
    let ghost start = deltas_of(out@);
    if same_value(before, after) {
        proof {
            assert(start + Seq::<DeltaModel>::empty() =~= start);
        }
        return ;
    }
    match (before, after) {
        (Json::Members(b), Json::Members(a)) => {
            let ghost rb = canonical::member_models(b@);
            let ghost ra = canonical::member_models(a@);
            proof {
                canonical::lemma_members_model(*b);
                canonical::lemma_members_model(*a);
            }
            let mut keys = StrSet::new();
            proof {
                assert(keys@ =~= Seq::empty());
            }
            add_keys(&mut keys, b);
            add_keys(&mut keys, a);
            let n = keys.len();
            let mut k: usize = 0;
            proof {
                assert(start + Seq::<DeltaModel>::empty() =~= start);
            }
            while k < n
                invariant
                    k <= n,
                    n == keys@.len(),
                    keys@ == all_keys(rb, ra),
                    *before == Json::Members(*b),
                    rb == canonical::member_models(b@),
                    ra == canonical::member_models(a@),
                    deltas_of(out@) == start + walked_keys(prefix@, rb, ra, keys@, k as int),
                decreases n - k,
            {
                let key = keys.key_at(k);
                let path = join_path(prefix, key.as_str());
                let i = find_member(b, key.as_str());
                let j = find_member(a, key.as_str());
                let ghost so_far = deltas_of(out@);
                let ghost done = walked_keys(prefix@, rb, ra, keys@, k as int);
                if i < b.len() {
                    if j < a.len() {
                        proof {
                            assert(decreases_to!(before => before->Members_0));
                            assert(decreases_to!(b => b@));
                            assert(decreases_to!(b@ => b@[i as int]));
                            assert(decreases_to!(b@[i as int] => b@[i as int].1));
                        }
                        walk(path.as_str(), &b[i].1, &a[j].1, out);
                    } else if !matches!(b[i].1, Json::Null) {
                        push_leaf(path.as_str(), &b[i].1, &Json::Null, out);
                    }
                } else if j < a.len() {
                    if !matches!(a[j].1, Json::Null) {
                        push_leaf(path.as_str(), &Json::Null, &a[j].1, out);
                    }
                }
                proof {
                    let full = walked_keys(prefix@, rb, ra, keys@, k + 1);
                    assert(deltas_of(out@) =~= start + full);
                }
                k = k + 1;
            }
        },
        _ => {
            push_leaf(prefix, before, after, out);
        },
    }
}

/// The order of deltas: by path.
pub open spec fn delta_order() -> spec_fn(DeltaModel, DeltaModel) -> bool {
    |x: DeltaModel, y: DeltaModel| text::text_less(x.field, y.field)
}

/// Every field two policies differ in, in path order.
pub open spec fn policy_deltas(base: Policy, head: Policy) -> Seq<DeltaModel> {
    sorting::sorted(
        walked(Seq::empty(), base.json_model(), head.json_model()),
        delta_order(),
    )
}

/// Compare two policies field by field.
pub fn evaluate(
    base: &Policy,
    head: &Policy,
    justification: Option<Justification>,
) -> (r: PolicyChange)
    ensures
        deltas_of(r.deltas@) == policy_deltas(*base, *head),
        r.justification == justification,
{
    let before = base.to_json();
    let after = head.to_json();
    let mut deltas: Vec<PolicyDelta> = Vec::new();
    proof {
        assert(deltas_of(deltas@) =~= Seq::empty());
        reveal_strlit("");
        assert(""@ =~= Seq::<char>::empty());
    }
    walk("", &before, &after, &mut deltas);
    let ghost found = deltas@;
    let ghost f = |d: PolicyDelta| d@;
    let ghost lt = |x: PolicyDelta, y: PolicyDelta| text::text_less(x.field@, y.field@);
    let less = |x: &PolicyDelta, y: &PolicyDelta| -> (r: bool)
        ensures
            r == text::text_less(x.field@, y.field@),
        { text::text_before(x.field.as_str(), y.field.as_str()) };
    let ordered = sorting::stable_sort(deltas, less, Ghost(lt));
    proof {
        sorting::lemma_sorted_map(found, f, lt, delta_order());
        assert(deltas_of(found) =~= walked(
            Seq::empty(),
            base.json_model(),
            head.json_model(),
        ));
    }
    PolicyChange { deltas: ordered, justification }
}

// --- laws -----------------------------------------------------------------

/// Only a loosening without a verified justification stops the line: whatever
/// else moved, an edit that loosens nothing does not, and neither does one that
/// is verifiably justified.
pub proof fn lemma_only_unjustified_loosening_stops(change: PolicyChange)
    ensures
        change.stops() <==> (change.loosens() && !change.justified()),
        (forall|i: int|
            0 <= i < change.deltas@.len() ==> (#[trigger] change.deltas@[i]).direction
                != Direction::Loosening) ==> !change.stops(),
{
}

/// Undoing an edit that tightened loosens: a bar cannot be raised and quietly
/// put back.
pub proof fn lemma_undoing_a_tightening_loosens(
    field: Seq<char>,
    before: JsonModel,
    after: JsonModel,
)
    requires
        moved(field, before, after) == Direction::Tightening,
    ensures
        moved(field, after, before) == Direction::Loosening,
{
}

/// The deltas that loosen are those among the deltas whose direction says so, in the
/// order they stand.
pub proof fn lemma_what_loosened(s: Seq<DeltaModel>)
    ensures
        loosening(s) == s.filter(|d: DeltaModel| d.direction == Direction::Loosening),
    decreases s.len(),
{
    reveal(Seq::filter);
    if s.len() > 0 {
        lemma_what_loosened(s.drop_last());
    }
}

/// Where no direction can be told, none is: of a field that has none recorded, and of
/// values of a kind that the field does not hold.
pub proof fn lemma_what_cannot_be_told(field: Seq<char>, before: JsonModel, after: JsonModel)
    ensures
        knob_of(field) is None ==> moved(field, before, after) == Direction::Unclassified,
        knob_of(field) matches Some(knob) ==> {
            let way = moved(field, before, after);
            let told = way != Direction::Unclassified;
            &&& knob == Knob::RelaxesWhenFalse || knob == Knob::RelaxesWhenTrue ==> (told ==> before
                is Bool && after is Bool && before != after)
            &&& knob == Knob::Ceiling || knob == Knob::Floor ==> (told ==> (before is Whole || before
                is Millionths) && (after is Whole || after is Millionths))
            &&& knob == Knob::SeverityScale || knob == Knob::BinaryScale ==> (told ==> before is Text
                && after is Text)
            &&& knob == Knob::GrowRelaxes || knob == Knob::ShrinkRelaxes ==> (told <==> before is List
                && after is List)
            &&& knob == Knob::Neutral ==> way == Direction::Neutral
        },
{
}

} // verus!
