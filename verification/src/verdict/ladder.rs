//! Severity before policy: the declared ladder each engine maps its own numbers
//! onto.
//!
//! An engine declares one ladder per metric, and the engine boundary assigns
//! severity from that declaration. A ladder reads the result's own value and
//! nothing else. A value with no number in it ranks at `Info` under every
//! ladder: inventing a rank for an absent measurement would be fabricating one.
use vstd::prelude::*;

use crate::schema::enums::Severity;
use crate::schema::payload::{MetricValue, Ratio};

verus! {

/// A value at which a metric reaches the next rung.
///
/// Typed to the kind of value it compares against, so a ladder declared in the
/// wrong units is a refusal instead of a comparison that always answers `Info`.
#[derive(Debug, Clone, Copy, PartialEq, Eq, Structural)]
pub enum Threshold {
    /// Compares against [`MetricValue::Count`].
    Count(u64),
    /// Compares against [`MetricValue::Integer`].
    Integer(i64),
    /// Compares against [`MetricValue::Ratio`]. In millionths as the value is, so
    /// a threshold and a value that render alike compare alike.
    Ratio(Ratio),
    /// Compares against [`MetricValue::Duration`], in milliseconds.
    Millis(u64),
}

impl Threshold {
    /// Whether a value has reached a rung; `None` where the value is of a kind
    /// the threshold cannot compare against.
    pub open spec fn reached(self, value: MetricValue) -> Option<bool> {
        match (self, value) {
            (Threshold::Count(at), MetricValue::Count(v)) => Some(v >= at),
            (Threshold::Integer(at), MetricValue::Integer(v)) => Some(v >= at),
            (Threshold::Ratio(at), MetricValue::Ratio(v)) => Some(v.reaches(at)),
            (Threshold::Millis(at), MetricValue::Duration { millis }) => Some(millis >= at),
            _ => None,
        }
    }

    /// Whether `value` has reached this rung.
    fn reached_by(self, value: &MetricValue) -> (r: Option<bool>)
        ensures
            r == self.reached(*value),
    {
        match (self, value) {
            (Threshold::Count(at), MetricValue::Count(v)) => Some(*v >= at),
            (Threshold::Integer(at), MetricValue::Integer(v)) => Some(*v >= at),
            (Threshold::Ratio(at), MetricValue::Ratio(v)) => Some(v.has_reached(at)),
            (Threshold::Millis(at), MetricValue::Duration { millis }) => Some(*millis >= at),
            _ => None,
        }
    }

    /// The kind of value a threshold compares against.
    pub open spec fn kind_name(self) -> Seq<char> {
        match self {
            Threshold::Count(_) => "count"@,
            Threshold::Integer(_) => "integer"@,
            Threshold::Ratio(_) => "ratio"@,
            Threshold::Millis(_) => "duration"@,
        }
    }

    /// The kind name, for a refusal a reader can act on.
    fn kind(self) -> (r: &'static str)
        ensures
            r@ == self.kind_name(),
    {
        match self {
            Threshold::Count(_) => "count",
            Threshold::Integer(_) => "integer",
            Threshold::Ratio(_) => "ratio",
            Threshold::Millis(_) => "duration",
        }
    }
}

/// One rung of a ladder: at or above `at`, the metric reaches `severity`.
#[derive(Debug, Clone, Copy, PartialEq, Eq, Structural)]
pub struct Rung {
    /// The value at which this rung is reached.
    pub at: Threshold,
    /// The severity reached there.
    pub severity: Severity,
}

/// How one metric turns its own number into a severity before policy.
#[derive(Debug, Clone, Copy, PartialEq, Eq)]
pub enum SeverityLadder {
    /// This metric has no severity opinion. Every result stays at `Info`.
    NoOpinion,
    /// Ascending rungs over the metric's own value. The highest rung the value
    /// reaches wins; a value below every rung is `Info`.
    Thresholds(&'static [Rung]),
    /// A boolean detector: this severity when the flag is true, `Info` when it
    /// is false.
    Flag(Severity),
    /// The engine assigns per result, from a rule a threshold table cannot
    /// express.
    PerResult,
}

impl View for SeverityLadder {
    type V = Self;

    open spec fn view(&self) -> Self {
        *self
    }
}

/// A ladder that cannot be applied to the value it met.
#[derive(Debug, Clone, Copy, PartialEq, Eq)]
pub enum LadderError {
    /// A rung compares against a different kind of value than the metric emits.
    KindMismatch {
        /// What the rung declared.
        threshold_kind: &'static str,
        /// What the result carried.
        value_kind: &'static str,
    },
    /// A flag ladder was declared for a metric that is not a flag.
    NotAFlag {
        /// What the result carried.
        value_kind: &'static str,
    },
    /// Thresholds were declared for a boolean.
    ThresholdsOverAFlag,
    /// The rungs are not in ascending severity order.
    UnorderedRungs,
}

/// What a ladder error says.
pub enum LadderErrorModel {
    KindMismatch { threshold_kind: Seq<char>, value_kind: Seq<char> },
    NotAFlag { value_kind: Seq<char> },
    ThresholdsOverAFlag,
    UnorderedRungs,
}

impl View for LadderError {
    type V = LadderErrorModel;

    open spec fn view(&self) -> LadderErrorModel {
        match *self {
            LadderError::KindMismatch { threshold_kind, value_kind } =>
            LadderErrorModel::KindMismatch {
                threshold_kind: threshold_kind@,
                value_kind: value_kind@,
            },
            LadderError::NotAFlag { value_kind } => LadderErrorModel::NotAFlag {
                value_kind: value_kind@,
            },
            LadderError::ThresholdsOverAFlag => LadderErrorModel::ThresholdsOverAFlag,
            LadderError::UnorderedRungs => LadderErrorModel::UnorderedRungs,
        }
    }
}

impl LadderError {
    /// The error as a reader sees it.
    pub fn describe(&self) -> (r: String)
        ensures
            r@ == self@.message(),
    {
        match self {
            LadderError::KindMismatch { threshold_kind, value_kind } => {
                let mut out = "the declared ladder compares a ".to_owned();
                out.append(threshold_kind);
                out.append(" threshold against a ");
                out.append(value_kind);
                out.append(" value");
                out
            },
            LadderError::NotAFlag { value_kind } => {
                let mut out = "the declared ladder is a flag ladder but the value is a ".to_owned();
                out.append(value_kind);
                out
            },
            LadderError::ThresholdsOverAFlag => {
                "the declared ladder has thresholds but the value is a flag".to_owned()
            },
            LadderError::UnorderedRungs => {
                "the declared rungs are not in ascending severity order".to_owned()
            },
        }
    }
}

impl LadderErrorModel {
    /// The error as a reader sees it.
    pub open spec fn message(self) -> Seq<char> {
        match self {
            LadderErrorModel::KindMismatch { threshold_kind, value_kind } =>
            "the declared ladder compares a "@ + threshold_kind + " threshold against a "@
                + value_kind + " value"@,
            LadderErrorModel::NotAFlag { value_kind } =>
            "the declared ladder is a flag ladder but the value is a "@ + value_kind,
            LadderErrorModel::ThresholdsOverAFlag =>
            "the declared ladder has thresholds but the value is a flag"@,
            LadderErrorModel::UnorderedRungs =>
            "the declared rungs are not in ascending severity order"@,
        }
    }
}

/// Whether rungs ascend in severity, each above the one before.
pub open spec fn rungs_ascend(rungs: Seq<Rung>) -> bool {
    forall|i: int, j: int|
        0 <= i && j == i + 1 && j < rungs.len() ==> (#[trigger] rungs[i]).severity.rank() < (
        #[trigger] rungs[j]).severity.rank()
}

/// The first rung from `i` on that cannot compare against a value.
pub open spec fn mismatch_from(rungs: Seq<Rung>, value: MetricValue, i: int) -> Option<Rung>
    decreases rungs.len() - i,
{
    if i < 0 || i >= rungs.len() {
        None
    } else if rungs[i].at.reached(value) is None {
        Some(rungs[i])
    } else {
        mismatch_from(rungs, value, i + 1)
    }
}

/// The strongest severity among the first `n` rungs a value reaches.
pub open spec fn strongest_reached(rungs: Seq<Rung>, value: MetricValue, n: int) -> Severity
    decreases n,
{
    if n <= 0 {
        Severity::Info
    } else if rungs[n - 1].at.reached(value) == Some(true) {
        strongest_reached(rungs, value, n - 1).stronger(rungs[n - 1].severity)
    } else {
        strongest_reached(rungs, value, n - 1)
    }
}

/// The strongest severity among the first `n` rungs.
pub open spec fn strongest_rung(rungs: Seq<Rung>, n: int) -> Severity
    decreases n,
{
    if n <= 0 {
        Severity::Info
    } else {
        strongest_rung(rungs, n - 1).stronger(rungs[n - 1].severity)
    }
}

/// Whether rungs ascend in severity.
fn ascending(rungs: &[Rung]) -> (r: bool)
    ensures
        r == rungs_ascend(rungs@),
{
    let mut i: usize = 1;
    while i < rungs.len()
        invariant
            1 <= i,
            forall|j: int, k: int|
                0 <= j && k == j + 1 && k < i && k < rungs@.len() ==> (
                #[trigger] rungs@[j]).severity.rank() < (#[trigger] rungs@[k]).severity.rank(),
        decreases rungs.len() - i,
    {
        if rungs[i - 1].severity.level() >= rungs[i].severity.level() {
            proof {
                assert(!(rungs@[i - 1].severity.rank() < rungs@[i as int].severity.rank()));
            }
            return false;
        }
        i = i + 1;
    }
    true
}

/// The strongest severity a value climbs to, or the rung it cannot compare
/// against.
fn climb(rungs: &[Rung], value: &MetricValue) -> (r: Result<Option<Severity>, LadderError>)
    ensures
        match mismatch_from(rungs@, *value, 0) {
            Some(rung) => r matches Err(x) && x@ == (LadderErrorModel::KindMismatch {
                threshold_kind: rung.at.kind_name(),
                value_kind: value.kind_name(),
            }),
            None => r == Ok::<Option<Severity>, LadderError>(
                Some(strongest_reached(rungs@, *value, rungs@.len() as int)),
            ),
        },
{
    let mut reached = Severity::Info;
    let mut i: usize = 0;
    while i < rungs.len()
        invariant
            i <= rungs.len(),
            reached == strongest_reached(rungs@, *value, i as int),
            mismatch_from(rungs@, *value, 0) == mismatch_from(rungs@, *value, i as int),
        decreases rungs.len() - i,
    {
        match rungs[i].at.reached_by(value) {
            Some(true) => {
                reached = reached.raised_to(rungs[i].severity);
            },
            Some(false) => {},
            None => {
                return Err(
                    LadderError::KindMismatch {
                        threshold_kind: rungs[i].at.kind(),
                        value_kind: value.kind(),
                    },
                );
            },
        }
        i = i + 1;
    }
    Ok(Some(reached))
}

impl SeverityLadder {
    /// The severity a ladder gives a value, or why it cannot.
    pub open spec fn assigns(self, value: MetricValue) -> Result<Option<Severity>, LadderErrorModel> {
        match self {
            SeverityLadder::PerResult => Ok(None),
            SeverityLadder::NoOpinion => Ok(Some(Severity::Info)),
            SeverityLadder::Flag(fired) => match value {
                MetricValue::Flag(b) => Ok(
                    Some(
                        if b {
                            fired
                        } else {
                            Severity::Info
                        },
                    ),
                ),
                MetricValue::Text(_) => Ok(Some(Severity::Info)),
                _ => Err(LadderErrorModel::NotAFlag { value_kind: value.kind_name() }),
            },
            SeverityLadder::Thresholds(rungs) => if !rungs_ascend(rungs@) {
                Err(LadderErrorModel::UnorderedRungs)
            } else if value is Text {
                Ok(Some(Severity::Info))
            } else if value is Flag {
                Err(LadderErrorModel::ThresholdsOverAFlag)
            } else {
                match mismatch_from(rungs@, value, 0) {
                    Some(rung) => Err(
                        LadderErrorModel::KindMismatch {
                            threshold_kind: rung.at.kind_name(),
                            value_kind: value.kind_name(),
                        },
                    ),
                    None => Ok(Some(strongest_reached(rungs@, value, rungs@.len() as int))),
                }
            },
        }
    }

    /// The severity before policy that this ladder gives that value.
    ///
    /// [`SeverityLadder::PerResult`] answers `None`: the engine has already
    /// written the severity.
    pub fn severity_for(self, value: &MetricValue) -> (r: Result<Option<Severity>, LadderError>)
        ensures
            match self.assigns(*value) {
                Ok(s) => r == Ok::<Option<Severity>, LadderError>(s),
                Err(e) => r matches Err(x) && x@ == e,
            },
    {
        match self {
            SeverityLadder::PerResult => Ok(None),
            SeverityLadder::NoOpinion => Ok(Some(Severity::Info)),
            SeverityLadder::Flag(fired) => match value {
                MetricValue::Flag(true) => Ok(Some(fired)),
                MetricValue::Flag(false) => Ok(Some(Severity::Info)),
                // An absent measurement is not a firing and not a non-firing.
                MetricValue::Text(_) => Ok(Some(Severity::Info)),
                other => Err(LadderError::NotAFlag { value_kind: other.kind() }),
            },
            SeverityLadder::Thresholds(rungs) => {
                if !ascending(rungs) {
                    return Err(LadderError::UnorderedRungs);
                }
                match value {
                    // No number, nothing to rank.
                    MetricValue::Text(_) => {
                        return Ok(Some(Severity::Info));
                    },
                    MetricValue::Flag(_) => {
                        return Err(LadderError::ThresholdsOverAFlag);
                    },
                    _ => {},
                }
                climb(rungs, value)
            },
        }
    }

    /// The strongest severity a ladder can ever produce.
    pub open spec fn best(self) -> Severity {
        match self {
            SeverityLadder::NoOpinion => Severity::Info,
            SeverityLadder::Flag(fired) => fired,
            SeverityLadder::Thresholds(rungs) => strongest_rung(rungs@, rungs@.len() as int),
            SeverityLadder::PerResult => Severity::Critical,
        }
    }

    /// The strongest severity this ladder can ever produce.
    pub fn strongest(self) -> (r: Severity)
        ensures
            r == self.best(),
    {
        match self {
            SeverityLadder::NoOpinion => Severity::Info,
            SeverityLadder::Flag(fired) => fired,
            SeverityLadder::Thresholds(rungs) => {
                let mut found = Severity::Info;
                let mut i: usize = 0;
                while i < rungs.len()
                    invariant
                        i <= rungs.len(),
                        found == strongest_rung(rungs@, i as int),
                    decreases rungs.len() - i,
                {
                    found = found.raised_to(rungs[i].severity);
                    i = i + 1;
                }
                found
            },
            SeverityLadder::PerResult => Severity::Critical,
        }
    }
}

proof fn lemma_reached_within(rungs: Seq<Rung>, value: MetricValue, n: int)
    ensures
        strongest_reached(rungs, value, n).rank() <= strongest_rung(rungs, n).rank(),
    decreases n,
{
    if n > 0 {
        lemma_reached_within(rungs, value, n - 1);
    }
}

/// No value gets more from a ladder than the strongest severity the ladder
/// declares.
pub proof fn lemma_ladder_stays_within_its_strongest(ladder: SeverityLadder, value: MetricValue)
    ensures
        ladder.assigns(value) matches Ok(Some(s)) ==> s.rank() <= ladder.best().rank(),
{
    if let SeverityLadder::Thresholds(rungs) = ladder {
        lemma_reached_within(rungs@, value, rungs@.len() as int);
    }
}

/// A value with no number in it ranks at `Info` under every ladder that ranks
/// it at all and is in order.
pub proof fn lemma_absent_value_is_info(ladder: SeverityLadder, words: String)
    requires
        !(ladder is PerResult),
        ladder matches SeverityLadder::Thresholds(rungs) ==> rungs_ascend(rungs@),
    ensures
        ladder.assigns(MetricValue::Text(words)) == Ok::<Option<Severity>, LadderErrorModel>(
            Some(Severity::Info),
        ),
{
}

/// Whether a value is of the same kind as another and no smaller. A ratio that is
/// not a number stands in no order with any.
pub open spec fn no_smaller(b: MetricValue, a: MetricValue) -> bool {
    match (b, a) {
        (MetricValue::Count(x), MetricValue::Count(y)) => x >= y,
        (MetricValue::Integer(x), MetricValue::Integer(y)) => x >= y,
        (MetricValue::Ratio(x), MetricValue::Ratio(y)) => x.reaches(y),
        (MetricValue::Duration { millis: x }, MetricValue::Duration { millis: y }) => x >= y,
        (MetricValue::Flag(x), MetricValue::Flag(y)) => x || !y,
        (MetricValue::Text(_), MetricValue::Text(_)) => true,
        _ => false,
    }
}

/// What a value reaches, a value that is no smaller reaches too, and neither
/// compares against anything that the other does not.
proof fn lemma_threshold_monotone(at: Threshold, a: MetricValue, b: MetricValue)
    requires
        no_smaller(b, a),
    ensures
        at.reached(a) is None <==> at.reached(b) is None,
        at.reached(a) == Some(true) ==> at.reached(b) == Some(true),
{
}

proof fn lemma_mismatch_alike(rungs: Seq<Rung>, a: MetricValue, b: MetricValue, i: int)
    requires
        no_smaller(b, a),
    ensures
        mismatch_from(rungs, a, i) == mismatch_from(rungs, b, i),
    decreases rungs.len() - i,
{
    if 0 <= i < rungs.len() {
        lemma_threshold_monotone(rungs[i].at, a, b);
        lemma_mismatch_alike(rungs, a, b, i + 1);
    }
}

proof fn lemma_climb_monotone(rungs: Seq<Rung>, a: MetricValue, b: MetricValue, n: int)
    requires
        no_smaller(b, a),
    ensures
        strongest_reached(rungs, b, n).rank() >= strongest_reached(rungs, a, n).rank(),
    decreases n,
{
    if n > 0 {
        lemma_threshold_monotone(rungs[n - 1].at, a, b);
        lemma_climb_monotone(rungs, a, b, n - 1);
    }
}

/// A larger value never gets a smaller severity: of two values of one kind, a
/// ladder gives the one that is no smaller a severity that is no smaller, and
/// refuses both or neither, for the same reason.
pub proof fn lemma_larger_value_never_ranks_lower(
    ladder: SeverityLadder,
    a: MetricValue,
    b: MetricValue,
)
    requires
        no_smaller(b, a),
    ensures
        match ladder.assigns(a) {
            Ok(Some(low)) => ladder.assigns(b) matches Ok(Some(high)) && high.rank() >= low.rank(),
            Ok(None) => ladder.assigns(b) == Ok::<Option<Severity>, LadderErrorModel>(None),
            Err(e) => ladder.assigns(b) == Err::<Option<Severity>, LadderErrorModel>(e),
        },
{
    if let SeverityLadder::Thresholds(rungs) = ladder {
        lemma_mismatch_alike(rungs@, a, b, 0);
        lemma_climb_monotone(rungs@, a, b, rungs@.len() as int);
    }
}

/// Whether a value is a number of the kind a threshold is about.
pub open spec fn same_kind(at: Threshold, value: MetricValue) -> bool {
    match value {
        MetricValue::Count(_) => at is Count,
        MetricValue::Integer(_) => at is Integer,
        MetricValue::Ratio(_) => at is Ratio,
        MetricValue::Duration { .. } => at is Millis,
        MetricValue::Flag(_) => false,
        MetricValue::Text(_) => false,
    }
}

/// Whether a value is at a threshold or above it.
pub open spec fn at_or_above(value: MetricValue, at: Threshold) -> bool {
    match at {
        Threshold::Count(n) => value matches MetricValue::Count(v) && v >= n,
        Threshold::Integer(n) => value matches MetricValue::Integer(v) && v >= n,
        Threshold::Ratio(n) => value matches MetricValue::Ratio(v) && v.reaches(n),
        Threshold::Millis(n) => value matches MetricValue::Duration { millis } && millis >= n,
    }
}

proof fn lemma_climbed(rungs: Seq<Rung>, value: MetricValue, n: int)
    requires
        0 <= n <= rungs.len(),
    ensures
        ({
            let s = strongest_reached(rungs, value, n);
            &&& s == Severity::Info || exists|i: int|
                0 <= i < n && at_or_above(value, (#[trigger] rungs[i]).at) && rungs[i].severity == s
            &&& forall|i: int|
                0 <= i < n && at_or_above(value, (#[trigger] rungs[i]).at)
                    ==> rungs[i].severity.rank() <= s.rank()
        }),
    decreases n,
{
    if n > 0 {
        lemma_climbed(rungs, value, n - 1);
        let before = strongest_reached(rungs, value, n - 1);
        let s = strongest_reached(rungs, value, n);
        let last = rungs[n - 1];
        assert(at_or_above(value, last.at) <==> last.at.reached(value) == Some(true));
        if s == before && before != Severity::Info {
            let i = choose|i: int|
                0 <= i < n - 1 && at_or_above(value, (#[trigger] rungs[i]).at) && rungs[i].severity
                    == before;
            assert(at_or_above(value, rungs[i].at) && rungs[i].severity == s);
        }
        assert forall|i: int| 0 <= i < n && at_or_above(value, (#[trigger] rungs[i]).at) implies rungs[
        i].severity.rank() <= s.rank() by {
            if i < n - 1 {
                assert(rungs[i].severity.rank() <= before.rank());
            }
        }
    }
}

proof fn lemma_mismatched(rungs: Seq<Rung>, value: MetricValue, from: int)
    requires
        0 <= from <= rungs.len(),
    ensures
        mismatch_from(rungs, value, from) is None <==> forall|i: int|
            from <= i < rungs.len() ==> same_kind((#[trigger] rungs[i]).at, value),
        mismatch_from(rungs, value, from) matches Some(rung) ==> !same_kind(rung.at, value)
            && exists|i: int| from <= i < rungs.len() && #[trigger] rungs[i] == rung,
    decreases rungs.len() - from,
{
    if from < rungs.len() {
        lemma_mismatched(rungs, value, from + 1);
        assert(same_kind(rungs[from].at, value) <==> rungs[from].at.reached(value) is Some);
        if let Some(rung) = mismatch_from(rungs, value, from) {
            if same_kind(rungs[from].at, value) {
                let i = choose|i: int| from + 1 <= i < rungs.len() && #[trigger] rungs[i] == rung;
                assert(rungs[i] == rung);
            }
        }
    }
}

/// A ladder of thresholds gives a value the severity of the highest rung that the
/// value is at or above, and `Info` where it is below every rung.
pub proof fn lemma_the_highest_rung_reached_wins(rungs: &'static [Rung], value: MetricValue)
    ensures
        SeverityLadder::Thresholds(rungs).assigns(value) matches Ok(given) ==> {
            &&& given matches Some(s)
            &&& s == Severity::Info || exists|i: int|
                0 <= i < rungs@.len() && at_or_above(value, (#[trigger] rungs@[i]).at)
                    && rungs@[i].severity == s
            &&& forall|i: int|
                0 <= i < rungs@.len() && at_or_above(value, (#[trigger] rungs@[i]).at)
                    ==> rungs@[i].severity.rank() <= s.rank()
        },
{
    lemma_climbed(rungs@, value, rungs@.len() as int);
}

/// What the ladders without thresholds give. A detector's severity is given when
/// its flag is up, and `Info` when it is down; a metric without an opinion gets
/// `Info`; and what the engine assigns is left to the engine.
pub proof fn lemma_what_the_other_ladders_give(severity: Severity, value: MetricValue)
    ensures
        SeverityLadder::Flag(severity).assigns(MetricValue::Flag(true)) == Ok::<
            Option<Severity>,
            LadderErrorModel,
        >(Some(severity)),
        SeverityLadder::Flag(severity).assigns(MetricValue::Flag(false)) == Ok::<
            Option<Severity>,
            LadderErrorModel,
        >(Some(Severity::Info)),
        SeverityLadder::NoOpinion.assigns(value) == Ok::<Option<Severity>, LadderErrorModel>(
            Some(Severity::Info),
        ),
        SeverityLadder::PerResult.assigns(value) == Ok::<Option<Severity>, LadderErrorModel>(None),
{
}

/// When a ladder cannot be applied to a value. Thresholds apply to a value with a
/// number of their own kind, and to a value that was not measured, where they
/// ascend. A detector's ladder applies to a flag, and to a value that was not
/// measured. The other ladders apply to everything.
pub proof fn lemma_when_a_ladder_applies(ladder: SeverityLadder, value: MetricValue)
    ensures
        ladder.assigns(value) is Ok <==> match ladder {
            SeverityLadder::NoOpinion => true,
            SeverityLadder::PerResult => true,
            SeverityLadder::Flag(_) => value is Flag || value is Text,
            SeverityLadder::Thresholds(rungs) => {
                &&& forall|i: int, j: int|
                    0 <= i && j == i + 1 && j < rungs@.len() ==> (
                    #[trigger] rungs@[i]).severity.rank() < (#[trigger] rungs@[j]).severity.rank()
                &&& value is Text || !(value is Flag) && forall|i: int|
                    0 <= i < rungs@.len() ==> same_kind((#[trigger] rungs@[i]).at, value)
            },
        },
        ladder.assigns(value) matches Err(LadderErrorModel::KindMismatch {
            threshold_kind,
            value_kind,
        }) ==> threshold_kind != value_kind && value_kind == value.kind_name(),
{
    reveal_strlit("count");
    reveal_strlit("integer");
    reveal_strlit("ratio");
    reveal_strlit("duration");
    assert("count"@.len() == 5 && "integer"@.len() == 7 && "ratio"@.len() == 5);
    assert("duration"@.len() == 8);
    assert("count"@[0] != "ratio"@[0]);
    if let SeverityLadder::Thresholds(rungs) = ladder {
        lemma_mismatched(rungs@, value, 0);
    }
}

proof fn lemma_best_rung(rungs: Seq<Rung>, n: int)
    requires
        0 <= n <= rungs.len(),
    ensures
        ({
            let s = strongest_rung(rungs, n);
            &&& s == Severity::Info || exists|i: int|
                0 <= i < n && (#[trigger] rungs[i]).severity == s
            &&& forall|i: int| 0 <= i < n ==> (#[trigger] rungs[i]).severity.rank() <= s.rank()
        }),
    decreases n,
{
    if n > 0 {
        lemma_best_rung(rungs, n - 1);
        let before = strongest_rung(rungs, n - 1);
        let s = strongest_rung(rungs, n);
        if s == before && s != Severity::Info {
            let i = choose|i: int| 0 <= i < n - 1 && (#[trigger] rungs[i]).severity == before;
            assert(rungs[i].severity == s);
        } else if s != Severity::Info {
            assert(rungs[n - 1].severity == s);
        }
    }
}

/// The strongest a ladder of thresholds gives is that of its strongest rung.
pub proof fn lemma_the_strongest_rung(rungs: &'static [Rung])
    ensures
        ({
            let s = SeverityLadder::Thresholds(rungs).best();
            &&& s == Severity::Info || exists|i: int|
                0 <= i < rungs@.len() && (#[trigger] rungs@[i]).severity == s
            &&& forall|i: int|
                0 <= i < rungs@.len() ==> (#[trigger] rungs@[i]).severity.rank() <= s.rank()
        }),
{
    lemma_best_rung(rungs@, rungs@.len() as int);
}

} // verus!
