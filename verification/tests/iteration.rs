//! The per-branch iteration counter.

use std::sync::atomic::{AtomicU64, Ordering};

use andon_core::policy::DEFAULT_ITERATION_CAP;
use andon_core::strmap::StrMap;
use andon_core::verdict::iteration::{
    after_attempt, BranchState, IterationStore, LockAction, LockAttempt, LoopOutcome, StateFile,
    StoredState, ITERATION_STATE_VERSION, LOCK_STALE_NANOS, LOCK_WAIT_NANOS,
};

fn unique_change() -> String {
    static NEXT: AtomicU64 = AtomicU64::new(0);
    format!("base..head{}", NEXT.fetch_add(1, Ordering::Relaxed))
}

fn store() -> IterationStore {
    IterationStore::open(StoredState::Absent)
}

fn one_branch(count: u32) -> StrMap<BranchState> {
    let mut branches = StrMap::new();
    branches.insert(
        "feat/a".to_string(),
        BranchState {
            count,
            change: Some("base..old".to_string()),
        },
    );
    branches
}

#[test]
fn re_reading_one_change_is_one_attempt_however_many_readers() {
    let mut store = store();
    let change = "base..one-unchanged-snapshot";
    for _ in 0..24 {
        let advance = store.advance("feat/a", 3, LoopOutcome::Countable, change);
        assert_eq!(
            advance.state.count, 1,
            "a reading of an already-counted change was counted as another attempt"
        );
        assert!(!advance.state.escalated);
        assert!(!advance.contended);
    }
    assert_eq!(store.peek("feat/a", 3).count, 1);

    let edited = store.advance("feat/a", 3, LoopOutcome::Countable, "base..an-actual-edit");
    assert_eq!(edited.state.count, 2);
}

#[test]
fn a_contended_reading_reports_the_count_and_moves_nothing() {
    let mut store = store();
    store.advance("feat/a", 3, LoopOutcome::Countable, &unique_change());
    let contended = store.contended("feat/a", 3);
    assert!(contended.contended);
    assert_eq!(contended.state.count, 1);
    assert_eq!(store.peek("feat/a", 3).count, 1);
    assert_eq!(store.file().layout_version, ITERATION_STATE_VERSION);
}

#[test]
fn a_branch_counts_its_own_passes() {
    let mut store = store();
    for expected in 1..=3 {
        let advance = store
            .advance("feat/a", 3, LoopOutcome::Countable, &unique_change());
        assert_eq!(advance.state.count, expected);
        assert!(!advance.state.escalated);
        assert!(!advance.recovered);
    }
}

#[test]
fn branches_do_not_share_a_counter() {
    let mut store = store();
    store
        .advance("feat/a", 3, LoopOutcome::Countable, &unique_change());
    store
        .advance("feat/a", 3, LoopOutcome::Countable, &unique_change());
    let other = store
        .advance("fix/b", 3, LoopOutcome::Countable, &unique_change());
    assert_eq!(other.state.count, 1, "a fresh branch starts fresh");
    assert_eq!(store.peek("feat/a", 3).count, 2);
}

#[test]
fn the_pass_after_the_cap_escalates() {
    let mut store = store();
    let cap = DEFAULT_ITERATION_CAP;
    for _ in 0..cap {
        assert!(
            !store
                .advance("feat/a", cap, LoopOutcome::Countable, &unique_change())
                .state
                .escalated
        );
    }
    let over = store
        .advance("feat/a", cap, LoopOutcome::Countable, &unique_change());
    assert_eq!(over.state.count, cap + 1);
    assert!(over.state.escalated);
}

#[test]
fn a_run_with_nothing_to_act_on_ends_the_loop() {
    let mut store = store();
    store
        .advance("feat/a", 3, LoopOutcome::Countable, &unique_change());
    store
        .advance("feat/a", 3, LoopOutcome::Countable, &unique_change());
    let clean = store
        .advance("feat/a", 3, LoopOutcome::Finished, &unique_change());
    assert_eq!(clean.state.count, 0);
    assert!(!clean.state.escalated);
    assert_eq!(
        store
            .advance("feat/a", 3, LoopOutcome::Countable, &unique_change())
            .state
            .count,
        1,
        "the next finding starts a new loop, not the old one"
    );
}

#[test]
fn the_count_survives_a_restart() {
    let mut first = IterationStore::open(StoredState::Absent);
    first.advance("feat/a", 3, LoopOutcome::Countable, &unique_change());
    let stored = first.file().clone();
    let mut reopened = IterationStore::open(StoredState::Read(stored));
    assert_eq!(
        reopened
            .advance("feat/a", 3, LoopOutcome::Countable, &unique_change())
            .state
            .count,
        2
    );
}

#[test]
fn reset_is_the_way_out_of_escalation() {
    let mut store = store();
    for _ in 0..5 {
        store
            .advance("feat/a", 3, LoopOutcome::Countable, &unique_change());
    }
    assert!(store.peek("feat/a", 3).escalated);
    store.reset("feat/a");
    assert_eq!(store.peek("feat/a", 3).count, 0);
    assert!(
        !store
            .advance("feat/a", 3, LoopOutcome::Countable, &unique_change())
            .state
            .escalated
    );
}

#[test]
fn a_corrupt_state_file_restarts_the_count_and_says_so() {
    let mut store = IterationStore::open(StoredState::Unreadable);
    let advance = store.advance("feat/a", 3, LoopOutcome::Countable, &unique_change());
    assert_eq!(advance.state.count, 1);
    assert!(
        advance.recovered,
        "a silent restart is a cap that silently stopped applying"
    );
    assert!(
        !store
            .advance("feat/a", 3, LoopOutcome::Countable, &unique_change())
            .recovered
    );
}

#[test]
fn a_state_file_from_another_layout_is_not_reinterpreted() {
    let mut store = IterationStore::open(StoredState::Read(StateFile {
        layout_version: 99,
        branches: one_branch(40),
    }));
    let advance = store.advance("feat/a", 3, LoopOutcome::Countable, &unique_change());
    assert_eq!(advance.state.count, 1, "not 41");
    assert!(advance.recovered);
}

#[test]
fn a_first_run_is_not_a_recovery() {
    let mut store = store();
    assert!(
        !store
            .advance("feat/a", 3, LoopOutcome::Countable, &unique_change())
            .recovered
    );
}

#[test]
fn a_branch_name_with_slashes_is_stored_as_written() {
    let mut store = store();
    store
        .advance("feat/a/b/c", 3, LoopOutcome::Countable, &unique_change());
    assert_eq!(store.peek("feat/a/b/c", 3).count, 1);
    assert_eq!(store.peek("feat/a", 3).count, 0);
}

#[test]
fn the_counter_saturates_rather_than_wrapping() {
    let mut store = IterationStore::open(StoredState::Read(StateFile {
        layout_version: ITERATION_STATE_VERSION,
        branches: one_branch(u32::MAX),
    }));
    let advance = store.advance("feat/a", 3, LoopOutcome::Countable, &unique_change());
    assert_eq!(advance.state.count, u32::MAX);
    assert!(
        advance.state.escalated,
        "still escalated, never wrapped to 0"
    );
}

#[test]
fn the_lock_is_held_only_by_who_created_it() {
    assert_eq!(
        after_attempt(LockAttempt::Created, None, 0, true),
        LockAction::Hold
    );
    for present in [true, false] {
        for waited in [0, LOCK_WAIT_NANOS] {
            assert_eq!(
                after_attempt(LockAttempt::Failed, Some(u128::MAX), waited, present),
                LockAction::Report
            );
            assert_ne!(
                after_attempt(LockAttempt::Busy, None, waited, present),
                LockAction::Hold
            );
        }
    }
}

#[test]
fn a_lock_is_stolen_only_once_it_is_older_than_the_staleness_bound() {
    assert_eq!(LOCK_STALE_NANOS, 60 * 1_000_000_000);
    assert_eq!(
        after_attempt(LockAttempt::Busy, Some(LOCK_STALE_NANOS), 0, true),
        LockAction::Wait
    );
    assert_eq!(
        after_attempt(LockAttempt::Busy, Some(LOCK_STALE_NANOS + 1), 0, true),
        LockAction::Steal
    );
    assert_eq!(
        after_attempt(LockAttempt::Busy, Some(LOCK_STALE_NANOS + 1), LOCK_WAIT_NANOS, true),
        LockAction::Steal
    );
}

#[test]
fn the_wait_ends_and_says_whether_anybody_held_the_lock() {
    assert_eq!(LOCK_WAIT_NANOS, 5 * 1_000_000_000);
    assert_eq!(
        after_attempt(LockAttempt::Busy, Some(1), LOCK_WAIT_NANOS - 1, true),
        LockAction::Wait
    );
    assert_eq!(
        after_attempt(LockAttempt::Busy, Some(1), LOCK_WAIT_NANOS, true),
        LockAction::GiveUp
    );
    assert_eq!(
        after_attempt(LockAttempt::Busy, None, LOCK_WAIT_NANOS, false),
        LockAction::Report
    );
}

#[test]
fn clearing_one_branch_leaves_what_another_counted_and_where() {
    let mut store = store();
    store.advance("feat/a", 3, LoopOutcome::Countable, "base..a");
    store.advance("feat/b", 3, LoopOutcome::Countable, "base..b");
    let before = store.file().branches.get("feat/b").cloned();
    assert_eq!(
        before,
        Some(BranchState {
            count: 1,
            change: Some("base..b".to_string()),
        })
    );

    store.reset("feat/a");
    assert_eq!(store.file().branches.get("feat/a"), None);
    assert_eq!(store.file().branches.get("feat/b").cloned(), before);
    store.advance("feat/a", 3, LoopOutcome::Countable, "base..c");
    store.advance("feat/a", 3, LoopOutcome::Finished, "base..c");
    assert_eq!(store.file().branches.get("feat/b").cloned(), before);
    assert_eq!(
        store.advance("feat/b", 3, LoopOutcome::Countable, "base..b").state.count,
        1
    );
}
