//! The per-branch iteration counter.
//!
//! An agent handed a finding it cannot resolve will keep trying. The cap is the
//! point at which the tool stops asking and says `escalate_to_human`. The
//! number is a policy field and never a constant here.
//!
//! Per branch, because the loop being counted is attempts at one change. What
//! makes an attempt is a change to what is being measured, not a call to the
//! tool, so the change is stored beside the count and re-reading one unchanged
//! snapshot counts once however many times it is read.
//!
//! A store is what one read of the counter's state gave. Reading and writing
//! that state, under a lock, is the caller's; every decision is here.
use vstd::prelude::*;

use crate::schema::payload::IterationState;
use crate::strmap;
use crate::strmap::StrMap;
use crate::text::same_text;

verus! {

/// Layout version of the stored state. A mismatch is treated as no state at
/// all, visibly.
pub const ITERATION_STATE_VERSION: u32 = 2;

/// File name of the stored state.
pub const ITERATION_STATE_FILE: &'static str = "iteration-state.json";

/// The stored shape.
#[derive(Debug, Clone, PartialEq, Eq)]
pub struct StateFile {
    /// Layout version the state was written in.
    pub layout_version: u32,
    /// What each branch's counter knows.
    pub branches: StrMap<BranchState>,
}

/// What one branch's counter knows.
#[derive(Debug, Clone, PartialEq, Eq)]
pub struct BranchState {
    /// Passes counted at [`Self::change`].
    pub count: u32,
    /// The change the count is about.
    pub change: Option<String>,
}

/// What a branch's counter says.
pub struct BranchModel {
    pub count: u32,
    pub change: Option<Seq<char>>,
}

impl View for BranchState {
    type V = BranchModel;

    open spec fn view(&self) -> BranchModel {
        BranchModel {
            count: self.count,
            change: match self.change {
                Some(c) => Some(c@),
                None => None,
            },
        }
    }
}

/// What a measurement said about the loop it is part of.
///
/// Three answers, not two: a measurement that found nothing because it could
/// not see is not evidence that the loop ended.
#[derive(Debug, Clone, Copy, PartialEq, Eq, Structural)]
pub enum LoopOutcome {
    /// Something the agent can act on. The count advances.
    Countable,
    /// Nothing to act on, over a measurement that saw everything it set out to.
    /// The loop is over and the count resets.
    Finished,
    /// Nothing to act on, over a measurement that did not see everything. The
    /// count holds.
    Inconclusive,
}

/// The outcome of advancing the counter.
#[derive(Debug, Clone, Copy, PartialEq, Eq, Structural)]
pub struct Advance {
    /// Where this run sits against the cap, ready for the payload.
    pub state: IterationState,
    /// True when prior state existed but could not be used, so the count
    /// restarted from zero.
    pub recovered: bool,
    /// True when the counter was read and not advanced.
    pub contended: bool,
}

/// Where a count sits against a cap. Escalation is past the cap, not at it.
pub open spec fn against(count: u32, cap: u32) -> IterationState {
    IterationState { count, cap, escalated: count > cap }
}

/// Assemble the payload's view of the counter.
fn state(count: u32, cap: u32) -> (r: IterationState)
    ensures
        r == against(count, cap),
{
    IterationState { count, cap, escalated: count > cap }
}

/// The count of a branch, zero when it has none.
pub open spec fn count_of(rows: Seq<(Seq<char>, BranchModel)>, branch: Seq<char>) -> u32 {
    match strmap::lookup(rows, branch) {
        Some(b) => b.count,
        None => 0,
    }
}

/// Whether a branch last counted this change.
pub open spec fn counted(
    rows: Seq<(Seq<char>, BranchModel)>,
    branch: Seq<char>,
    change: Seq<char>,
) -> bool {
    strmap::lookup(rows, branch) matches Some(b) && b.change == Some(change)
}

/// One more pass, without ever wrapping to zero.
pub open spec fn one_more(count: u32) -> u32 {
    if count < u32::MAX {
        (count + 1) as u32
    } else {
        u32::MAX
    }
}

/// The counters once a pass on `branch` at `change` has been recorded.
pub open spec fn stepped(
    rows: Seq<(Seq<char>, BranchModel)>,
    branch: Seq<char>,
    outcome: LoopOutcome,
    change: Seq<char>,
) -> Seq<(Seq<char>, BranchModel)> {
    match outcome {
        LoopOutcome::Countable => if counted(rows, branch, change) {
            rows
        } else {
            strmap::inserted(
                rows,
                branch,
                BranchModel { count: one_more(count_of(rows, branch)), change: Some(change) },
            )
        },
        LoopOutcome::Finished => strmap::removed(rows, branch),
        LoopOutcome::Inconclusive => rows,
    }
}

impl StateFile {
    /// The count for `branch`, zero when it has none.
    pub fn count(&self, branch: &str) -> (r: u32)
        ensures
            r == count_of(self.branches@, branch@),
    {
        match self.branches.get(branch) {
            Some(b) => b.count,
            None => 0,
        }
    }
}

/// What reading the stored state gave.
#[derive(Debug, Clone, PartialEq, Eq)]
pub enum StoredState {
    /// There is no stored state: the ordinary first run.
    Absent,
    /// There is stored state, and it cannot be read or does not parse.
    Unreadable,
    /// There is stored state, and it parses.
    Read(StateFile),
}

/// The counters that stored state gives, and whether they started over.
pub open spec fn taken_up(stored: StoredState) -> (Seq<(Seq<char>, BranchModel)>, bool) {
    match stored {
        StoredState::Read(file) => if file.layout_version == ITERATION_STATE_VERSION {
            (file.branches@, false)
        } else {
            (Seq::empty(), true)
        },
        StoredState::Unreadable => (Seq::empty(), true),
        StoredState::Absent => (Seq::empty(), false),
    }
}

/// The iteration counters, as one read of them gave.
#[derive(Debug, Clone, PartialEq, Eq)]
pub struct IterationStore {
    file: StateFile,
    recovered: bool,
}

impl IterationStore {
    /// The counters, by branch.
    pub closed spec fn rows(self) -> Seq<(Seq<char>, BranchModel)> {
        self.file.branches@
    }

    /// Whether prior state existed but could not be used.
    pub closed spec fn restarted(self) -> bool {
        self.recovered
    }

    /// The layout the counters are stored in.
    pub closed spec fn layout(self) -> u32 {
        self.file.layout_version
    }

    /// The state to store.
    pub fn file(&self) -> (r: &StateFile)
        ensures
            r.branches@ == self.rows(),
            r.layout_version == self.layout(),
    {
        &self.file
    }

    /// Take up stored state, treating anything unusable as empty.
    ///
    /// Never an error: a corrupt counter must not stop a measurement. What is
    /// not swallowed is that it restarted.
    pub fn open(stored: StoredState) -> (r: Self)
        ensures
            r.layout() == ITERATION_STATE_VERSION,
            match stored {
                StoredState::Read(file) => if file.layout_version == ITERATION_STATE_VERSION {
                    r.rows() == file.branches@ && !r.restarted()
                } else {
                    r.rows().len() == 0 && r.restarted()
                },
                StoredState::Unreadable => r.rows().len() == 0 && r.restarted(),
                StoredState::Absent => r.rows().len() == 0 && !r.restarted(),
            },
            r.rows() == taken_up(stored).0,
            r.restarted() == taken_up(stored).1,
    {
        match stored {
            StoredState::Read(file) => {
                if file.layout_version == ITERATION_STATE_VERSION {
                    IterationStore { file, recovered: false }
                } else {
                    IterationStore { file: fresh(), recovered: true }
                }
            },
            StoredState::Unreadable => IterationStore { file: fresh(), recovered: true },
            StoredState::Absent => IterationStore { file: fresh(), recovered: false },
        }
    }

    /// Record a pass on `branch` at `change`, and return where it now sits
    /// against `cap`.
    pub fn advance(&mut self, branch: &str, cap: u32, outcome: LoopOutcome, change: &str) -> (r:
        Advance)
        ensures
            final(self).rows() == stepped(old(self).rows(), branch@, outcome, change@),
            !final(self).restarted(),
            final(self).layout() == old(self).layout(),
            r.state == against(count_of(final(self).rows(), branch@), cap),
            r.recovered == old(self).restarted(),
            !r.contended,
            strmap::keys_ascend(old(self).rows()),
            strmap::keys_ascend(final(self).rows()),
    {
        let recovered = self.recovered;
        self.recovered = false;
        let ghost rows = self.file.branches@;
        let _ = self.file.branches.len();
        match outcome {
            LoopOutcome::Countable => {
                let mut count: u32 = 0;
                let mut seen = false;
                if let Some(b) = self.file.branches.get(branch) {
                    count = b.count;
                    if let Some(c) = &b.change {
                        seen = same_text(c.as_str(), change);
                    }
                }
                // Another reading of the same change is not an attempt.
                if !seen {
                    let next = BranchState {
                        count: count.saturating_add(1),
                        change: Some(change.to_owned()),
                    };
                    self.file.branches.insert(branch.to_owned(), next);
                    proof {
                        strmap::lemma_inserted(rows, branch@, next@);
                    }
                }
            },
            LoopOutcome::Finished => {
                self.file.branches.remove(branch);
                proof {
                    strmap::lemma_removed(rows, branch@);
                }
            },
            // Held, not advanced and not cleared: this run says nothing about
            // whether the loop ended.
            LoopOutcome::Inconclusive => {},
        }
        Advance { state: state(self.file.count(branch), cap), recovered, contended: false }
    }

    /// Where `branch` sits when the counters could be read and not advanced.
    pub fn contended(&self, branch: &str, cap: u32) -> (r: Advance)
        ensures
            r.state == against(count_of(self.rows(), branch@), cap),
            r.recovered == self.restarted(),
            r.contended,
    {
        Advance {
            state: state(self.file.count(branch), cap),
            recovered: self.recovered,
            contended: true,
        }
    }

    /// Where `branch` sits, without advancing it.
    pub fn peek(&self, branch: &str, cap: u32) -> (r: IterationState)
        ensures
            r == against(count_of(self.rows(), branch@), cap),
    {
        state(self.file.count(branch), cap)
    }

    /// Clear the counter for one branch: the exit from `escalate_to_human`.
    pub fn reset(&mut self, branch: &str)
        ensures
            final(self).rows() == strmap::removed(old(self).rows(), branch@),
            !final(self).restarted(),
            final(self).layout() == old(self).layout(),
            strmap::keys_ascend(old(self).rows()),
            strmap::keys_ascend(final(self).rows()),
    {
        let _ = self.file.branches.len();
        self.recovered = false;
        self.file.branches.remove(branch);
    }
}

fn fresh() -> (r: StateFile)
    ensures
        r.layout_version == ITERATION_STATE_VERSION,
        r.branches@.len() == 0,
{
    StateFile { layout_version: ITERATION_STATE_VERSION, branches: StrMap::new() }
}

// --- the lock -------------------------------------------------------------

/// How long to wait for another writer before giving up on advancing, in
/// nanoseconds. Generous against a critical section that is one small read and
/// one small write.
pub const LOCK_WAIT_NANOS: u128 = 5_000_000_000;

/// How long a lock file must sit untouched before it is treated as abandoned,
/// in nanoseconds. A modification time and not a process id: an id from a
/// crashed process can belong to a live one by the time anybody looks.
pub const LOCK_STALE_NANOS: u128 = 60_000_000_000;

/// How long to pause between two tries, in milliseconds.
pub const LOCK_PAUSE_MILLIS: u64 = 2;

/// What trying to create the lock file came to.
#[derive(Debug, Clone, Copy, PartialEq, Eq, Structural)]
pub enum LockAttempt {
    /// The file is ours.
    Created,
    /// The file is there, or access to the name was denied. Some systems answer
    /// the second while a delete is pending on the name, so both are contention
    /// until the wait runs out.
    Busy,
    /// Anything else.
    Failed,
}

/// What to do about the lock next.
#[derive(Debug, Clone, Copy, PartialEq, Eq, Structural)]
pub enum LockAction {
    /// The lock is held: go on.
    Hold,
    /// Report what the last try came to.
    Report,
    /// The holder is gone: remove the lock file and try again.
    Steal,
    /// Somebody holds it and the wait ran out: read without advancing.
    GiveUp,
    /// Pause, then try again.
    Wait,
}

/// What to do after a try, given how long the lock file has been untouched where
/// that is known, how long this writer has waited, and whether the lock file is
/// there.
pub open spec fn action_after(
    attempt: LockAttempt,
    untouched: Option<u128>,
    waited: u128,
    present: bool,
) -> LockAction {
    match attempt {
        LockAttempt::Created => LockAction::Hold,
        LockAttempt::Failed => LockAction::Report,
        LockAttempt::Busy => if untouched matches Some(age) && age > LOCK_STALE_NANOS {
            LockAction::Steal
        } else if waited < LOCK_WAIT_NANOS {
            LockAction::Wait
        } else if present {
            LockAction::GiveUp
        } else {
            LockAction::Report
        },
    }
}

/// What to do after a try at the lock.
///
/// Where the wait ran out and no lock file is there, every try failed for a
/// reason that is not contention, and reporting that as a busy counter would
/// hide it for ever.
pub fn after_attempt(
    attempt: LockAttempt,
    untouched: Option<u128>,
    waited: u128,
    present: bool,
) -> (r: LockAction)
    ensures
        r == action_after(attempt, untouched, waited, present),
{
    match attempt {
        LockAttempt::Created => LockAction::Hold,
        LockAttempt::Failed => LockAction::Report,
        LockAttempt::Busy => {
            let abandoned = match untouched {
                Some(age) => age > LOCK_STALE_NANOS,
                None => false,
            };
            if abandoned {
                LockAction::Steal
            } else if waited < LOCK_WAIT_NANOS {
                LockAction::Wait
            } else if present {
                LockAction::GiveUp
            } else {
                LockAction::Report
            }
        },
    }
}

// --- laws -----------------------------------------------------------------

/// A writer goes on only with the lock in hand, takes it from nobody who touched
/// it lately, and does not wait past its bound.
pub proof fn lemma_the_lock_is_exclusive_and_bounded(
    attempt: LockAttempt,
    untouched: Option<u128>,
    waited: u128,
    present: bool,
)
    ensures
        ({
            let action = action_after(attempt, untouched, waited, present);
            &&& action == LockAction::Hold <==> attempt == LockAttempt::Created
            &&& action == LockAction::Steal ==> (untouched matches Some(age) && age
                > LOCK_STALE_NANOS)
            &&& action == LockAction::Wait ==> waited < LOCK_WAIT_NANOS
            &&& action == LockAction::GiveUp ==> present
        }),
{
}

/// Reading one change again counts nothing: a second pass at the change just
/// counted leaves every counter as it is.
pub proof fn lemma_rereading_counts_once(
    rows: Seq<(Seq<char>, BranchModel)>,
    branch: Seq<char>,
    change: Seq<char>,
)
    requires
        strmap::keys_ascend(rows),
    ensures
        ({
            let once = stepped(rows, branch, LoopOutcome::Countable, change);
            stepped(once, branch, LoopOutcome::Countable, change) == once
        }),
{
    if !counted(rows, branch, change) {
        strmap::lemma_inserted(
            rows,
            branch,
            BranchModel { count: one_more(count_of(rows, branch)), change: Some(change) },
        );
    }
}

/// A new change to act on is one more pass, and never fewer than before: the
/// count saturates.
pub proof fn lemma_new_change_is_one_more_pass(
    rows: Seq<(Seq<char>, BranchModel)>,
    branch: Seq<char>,
    change: Seq<char>,
)
    requires
        strmap::keys_ascend(rows),
        !counted(rows, branch, change),
    ensures
        count_of(stepped(rows, branch, LoopOutcome::Countable, change), branch) == one_more(
            count_of(rows, branch),
        ),
        one_more(count_of(rows, branch)) >= count_of(rows, branch),
{
    strmap::lemma_inserted(
        rows,
        branch,
        BranchModel { count: one_more(count_of(rows, branch)), change: Some(change) },
    );
}

/// Branches do not share a counter: a pass on one, or clearing one, leaves what
/// every other counted, and the change it counted it at, as it was.
pub proof fn lemma_branches_are_independent(
    rows: Seq<(Seq<char>, BranchModel)>,
    branch: Seq<char>,
    outcome: LoopOutcome,
    change: Seq<char>,
    other: Seq<char>,
)
    requires
        strmap::keys_ascend(rows),
        other != branch,
    ensures
        strmap::lookup(stepped(rows, branch, outcome, change), other) == strmap::lookup(rows, other),
        strmap::lookup(strmap::removed(rows, branch), other) == strmap::lookup(rows, other),
        count_of(stepped(rows, branch, outcome, change), other) == count_of(rows, other),
        count_of(strmap::removed(rows, branch), other) == count_of(rows, other),
        forall|c: Seq<char>|
            #![trigger counted(rows, other, c)]
            counted(stepped(rows, branch, outcome, change), other, c) == counted(rows, other, c)
                && counted(strmap::removed(rows, branch), other, c) == counted(rows, other, c),
{
    strmap::lemma_inserted(
        rows,
        branch,
        BranchModel { count: one_more(count_of(rows, branch)), change: Some(change) },
    );
    strmap::lemma_removed(rows, branch);
}

/// A finished loop starts again from zero, and an inconclusive run neither
/// advances the count nor clears it.
pub proof fn lemma_finished_clears_and_inconclusive_holds(
    rows: Seq<(Seq<char>, BranchModel)>,
    branch: Seq<char>,
    change: Seq<char>,
)
    requires
        strmap::keys_ascend(rows),
    ensures
        strmap::lookup(stepped(rows, branch, LoopOutcome::Finished, change), branch) is None,
        count_of(stepped(rows, branch, LoopOutcome::Finished, change), branch) == 0,
        stepped(rows, branch, LoopOutcome::Inconclusive, change) == rows,
{
    strmap::lemma_removed(rows, branch);
}

/// An acknowledged branch counts from zero: it no longer escalates under any
/// cap.
pub proof fn lemma_reset_ends_escalation(
    rows: Seq<(Seq<char>, BranchModel)>,
    branch: Seq<char>,
    cap: u32,
)
    requires
        strmap::keys_ascend(rows),
    ensures
        !against(count_of(strmap::removed(rows, branch), branch), cap).escalated,
{
    strmap::lemma_removed(rows, branch);
}

/// What a writer does about the lock, case by case. It takes the lock from a holder
/// exactly when the file has gone untouched for longer than the bound. It waits
/// exactly as long as its own bound allows. Past that it gives up where the file is
/// there, and reports where it is not.
pub proof fn lemma_what_a_busy_lock_calls_for(untouched: Option<u128>, waited: u128, present: bool)
    ensures
        ({
            let action = action_after(LockAttempt::Busy, untouched, waited, present);
            let abandoned = untouched is Some && untouched->Some_0 > 60_000_000_000;
            &&& action == LockAction::Steal <==> abandoned
            &&& action == LockAction::Wait <==> !abandoned && waited < 5_000_000_000
            &&& action == LockAction::GiveUp <==> !abandoned && waited >= 5_000_000_000 && present
            &&& action == LockAction::Report <==> !abandoned && waited >= 5_000_000_000 && !present
        }),
        action_after(LockAttempt::Created, untouched, waited, present) == LockAction::Hold,
        action_after(LockAttempt::Failed, untouched, waited, present) == LockAction::Report,
{
}

/// The counters once every change of a list was found to need work, in turn.
pub open spec fn passes(
    rows: Seq<(Seq<char>, BranchModel)>,
    branch: Seq<char>,
    changes: Seq<Seq<char>>,
) -> Seq<(Seq<char>, BranchModel)>
    decreases changes.len(),
{
    if changes.len() == 0 {
        rows
    } else {
        stepped(
            passes(rows, branch, changes.drop_last()),
            branch,
            LoopOutcome::Countable,
            changes.last(),
        )
    }
}

proof fn lemma_passes(rows: Seq<(Seq<char>, BranchModel)>, branch: Seq<char>, changes: Seq<Seq<char>>)
    requires
        strmap::keys_ascend(rows),
        strmap::lookup(rows, branch) is None,
        changes.len() <= u32::MAX,
        forall|i: int| 0 < i < changes.len() ==> changes[i - 1] != #[trigger] changes[i],
    ensures
        strmap::keys_ascend(passes(rows, branch, changes)),
        count_of(passes(rows, branch, changes), branch) == changes.len(),
        changes.len() == 0 ==> strmap::lookup(passes(rows, branch, changes), branch) is None,
        changes.len() > 0 ==> (strmap::lookup(passes(rows, branch, changes), branch) matches Some(b)
            && b.change == Some(changes.last())),
    decreases changes.len(),
{
    if changes.len() > 0 {
        let before = passes(rows, branch, changes.drop_last());
        lemma_passes(rows, branch, changes.drop_last());
        if changes.len() > 1 {
            assert(changes.drop_last().last() == changes[changes.len() - 2]);
            assert(changes[changes.len() - 2] != changes[changes.len() - 1]);
        }
        assert(!counted(before, branch, changes.last()));
        strmap::lemma_inserted(
            before,
            branch,
            BranchModel { count: one_more(count_of(before, branch)), change: Some(changes.last()) },
        );
    }
}

/// A human is called in past the cap, and not at it: a branch that starts afresh
/// and is given one change after another to act on escalates exactly when it was
/// given more of them than the cap allows.
pub proof fn lemma_escalation_is_past_the_cap(
    rows: Seq<(Seq<char>, BranchModel)>,
    branch: Seq<char>,
    changes: Seq<Seq<char>>,
    cap: u32,
)
    requires
        strmap::keys_ascend(rows),
        strmap::lookup(rows, branch) is None,
        changes.len() <= u32::MAX,
        forall|i: int| 0 < i < changes.len() ==> changes[i - 1] != #[trigger] changes[i],
    ensures
        ({
            let state = against(count_of(passes(rows, branch, changes), branch), cap);
            &&& state.escalated <==> changes.len() > cap
            &&& state.count == changes.len()
            &&& state.cap == cap
        }),
{
    lemma_passes(rows, branch, changes);
}

/// What stored state is good for. Counters come from a file of the layout in use and
/// from nothing else, and come whole. Starting over is told exactly where there was
/// state and it was not used, so a first run is no recovery.
pub proof fn lemma_what_is_taken_up(stored: StoredState)
    ensures
        stored matches StoredState::Read(file) ==> (file.layout_version == 2 ==> taken_up(stored).0
            == file.branches@),
        taken_up(stored).0.len() > 0 ==> (stored matches StoredState::Read(file)
            && file.layout_version == 2),
        taken_up(stored).1 <==> stored is Unreadable || (stored is Read
            && stored->Read_0.layout_version != 2),
        forall|branch: Seq<char>| #[trigger]
            count_of(taken_up(stored).0, branch) > 0 ==> stored is Read && !taken_up(stored).1,
{
}

} // verus!
