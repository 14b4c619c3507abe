//! The states of one build run and the transitions between them.
//!
//! Whoever runs a build performs the action that [`next`] names and reports
//! what came of it as the next event; the order of the steps, and above all
//! that the cache is committed only after a successful assembly, is decided here.
use vstd::prelude::*;

verus! {

/// Where a build run stands.
#[derive(Debug, Clone, Copy, PartialEq, Eq, Structural)]
pub enum RunState {
    /// Nothing has been done yet.
    Initialized,
    /// Every item has been checked against the cache.
    StalenessChecked,
    /// The stale items are being prepared.
    Preparing,
    /// The outcomes have been collected into one map.
    Aggregated,
    /// The producer is assembling the output.
    Assembling,
    /// The cache takes the digests of the items that succeeded.
    CacheCommitting,
    /// The run has completed.
    Done,
    /// The run stopped early; the producer was asked to keep its progress.
    Stopped,
    /// The run failed; the cache was left as it was.
    Failed,
}

/// What happened since the last step.
#[derive(Debug, Clone, Copy, PartialEq, Eq, Structural)]
pub enum RunEvent {
    /// The last action completed.
    Proceed,
    /// The outcomes were collected; `empty` tells whether there are none.
    Collected { empty: bool },
    /// The producer's assembly finished, successfully or not.
    Built { ok: bool },
    /// The run is asked to stop early.
    Cancel,
}

/// What is to be done next.
#[derive(Debug, Clone, Copy, PartialEq, Eq, Structural)]
pub enum RunAction {
    /// Check every item against the cache.
    CheckStaleness,
    /// Prepare the items that must be prepared (possibly in parallel).
    Prepare,
    /// Collect the outcomes into one map.
    Collect,
    /// Have the producer assemble the output from the outcome map, and store
    /// the digests of the items that succeeded if it did.
    Assemble,
    /// Write the cache, which now holds the digests of the items that succeeded.
    CommitCache,
    /// Hand the outcomes collected so far to the producer's `finish`.
    Finish,
    /// Nothing more is to be done.
    Halt,
}

/// Whether a run in this state has come to an end.
pub open spec fn is_final(s: RunState) -> bool {
    s == RunState::Done || s == RunState::Stopped || s == RunState::Failed
}

/// Whether a cancellation is still possible: the output is not being assembled yet.
pub open spec fn cancellable(s: RunState) -> bool {
    s == RunState::Initialized || s == RunState::StalenessChecked || s == RunState::Preparing
        || s == RunState::Aggregated
}

/// The transition table of a build run.
pub open spec fn transition(s: RunState, e: RunEvent) -> (RunState, RunAction) {
    if is_final(s) {
        (s, RunAction::Halt)
    } else if e == RunEvent::Cancel {
        if cancellable(s) { (RunState::Stopped, RunAction::Finish) } else { (s, RunAction::Halt) }
    } else {
        match (s, e) {
            (RunState::Initialized, RunEvent::Proceed) => (RunState::StalenessChecked, RunAction::CheckStaleness),
            (RunState::StalenessChecked, RunEvent::Proceed) => (RunState::Preparing, RunAction::Prepare),
            (RunState::Preparing, RunEvent::Proceed) => (RunState::Aggregated, RunAction::Collect),
            (RunState::Aggregated, RunEvent::Collected { empty }) =>
                if empty { (RunState::Failed, RunAction::Halt) } else { (RunState::Assembling, RunAction::Assemble) },
            (RunState::Assembling, RunEvent::Built { ok }) =>
                if ok { (RunState::CacheCommitting, RunAction::CommitCache) } else { (RunState::Failed, RunAction::Halt) },
            (RunState::CacheCommitting, RunEvent::Proceed) => (RunState::Done, RunAction::Halt),
            _ => (s, RunAction::Halt),
        }
    }
}

/// The next state and action of a build run, given what happened.
pub fn next(s: RunState, e: RunEvent) -> (r: (RunState, RunAction))
    ensures
        r == transition(s, e),
{
    if s == RunState::Done || s == RunState::Stopped || s == RunState::Failed {
        return (s, RunAction::Halt);
    }
    if e == RunEvent::Cancel {
        if s == RunState::Initialized || s == RunState::StalenessChecked || s == RunState::Preparing
            || s == RunState::Aggregated {
            return (RunState::Stopped, RunAction::Finish);
        }
        return (s, RunAction::Halt);
    }
    match (s, e) {
        (RunState::Initialized, RunEvent::Proceed) => (RunState::StalenessChecked, RunAction::CheckStaleness),
        (RunState::StalenessChecked, RunEvent::Proceed) => (RunState::Preparing, RunAction::Prepare),
        (RunState::Preparing, RunEvent::Proceed) => (RunState::Aggregated, RunAction::Collect),
        (RunState::Aggregated, RunEvent::Collected { empty }) =>
            if empty { (RunState::Failed, RunAction::Halt) } else { (RunState::Assembling, RunAction::Assemble) },
        (RunState::Assembling, RunEvent::Built { ok }) =>
            if ok { (RunState::CacheCommitting, RunAction::CommitCache) } else { (RunState::Failed, RunAction::Halt) },
        (RunState::CacheCommitting, RunEvent::Proceed) => (RunState::Done, RunAction::Halt),
        _ => (s, RunAction::Halt),
    }
}

/// The state after a sequence of events, from `s` on.
pub open spec fn run_from(s: RunState, events: Seq<RunEvent>) -> RunState
    decreases events.len(),
{
    if events.len() == 0 {
        s
    } else {
        run_from(transition(s, events[0]).0, events.skip(1))
    }
}

/// The cache is committed only in the step right after a successful
/// assembly, and the producer is asked to assemble only a non-empty outcome
/// map, after preparation and collection.
pub proof fn lemma_commit_only_after_successful_build(s: RunState, e: RunEvent)
    ensures
        transition(s, e).1 == RunAction::CommitCache ==> s == RunState::Assembling && e == (RunEvent::Built { ok: true }),
        transition(s, e).1 == RunAction::Assemble ==> s == RunState::Aggregated && e == (RunEvent::Collected { empty: false }),
        transition(s, e).0 == RunState::CacheCommitting ==> s == RunState::CacheCommitting || s == RunState::Assembling,
{
}

/// A run that has ended stays where it ended, whatever happens next.
pub proof fn lemma_final_states_stay(s: RunState, events: Seq<RunEvent>)
    requires
        is_final(s),
    ensures
        run_from(s, events) == s,
    decreases events.len(),
{
    if events.len() > 0 {
        lemma_final_states_stay(s, events.skip(1));
    }
}

/// A failed assembly ends the run without a commit of the cache: no later
/// event leads to a commit.
pub proof fn lemma_failed_build_never_commits(events: Seq<RunEvent>, i: int)
    requires
        0 <= i < events.len(),
    ensures
        transition(run_from(transition(RunState::Assembling, RunEvent::Built { ok: false }).0, events.take(i)), events[i]).1
            != RunAction::CommitCache,
{
    lemma_final_states_stay(RunState::Failed, events.take(i));
}

} // verus!
