use emoji_builder::run::{next, RunAction, RunEvent, RunState};

#[test]
fn a_successful_run_commits_after_assembly() {
    let mut state = RunState::Initialized;
    let events = [
        RunEvent::Proceed,
        RunEvent::Proceed,
        RunEvent::Proceed,
        RunEvent::Collected { empty: false },
        RunEvent::Built { ok: true },
        RunEvent::Proceed,
    ];
    let mut actions = Vec::new();
    for event in events {
        let (s, a) = next(state, event);
        state = s;
        actions.push(a);
    }
    assert_eq!(
        actions,
        vec![
            RunAction::CheckStaleness,
            RunAction::Prepare,
            RunAction::Collect,
            RunAction::Assemble,
            RunAction::CommitCache,
            RunAction::Halt
        ]
    );
    assert_eq!(state, RunState::Done);
}

#[test]
fn a_failed_assembly_never_commits() {
    let (state, action) = next(RunState::Assembling, RunEvent::Built { ok: false });
    assert_eq!((state, action), (RunState::Failed, RunAction::Halt));
    assert_eq!(next(state, RunEvent::Proceed), (RunState::Failed, RunAction::Halt));
    assert_eq!(next(state, RunEvent::Built { ok: true }), (RunState::Failed, RunAction::Halt));
}

#[test]
fn an_empty_batch_is_not_assembled() {
    assert_eq!(next(RunState::Aggregated, RunEvent::Collected { empty: true }), (RunState::Failed, RunAction::Halt));
}

#[test]
fn cancellation_before_assembly_finishes() {
    assert_eq!(next(RunState::Preparing, RunEvent::Cancel), (RunState::Stopped, RunAction::Finish));
    assert_eq!(next(RunState::Aggregated, RunEvent::Cancel), (RunState::Stopped, RunAction::Finish));
    assert_eq!(next(RunState::Stopped, RunEvent::Proceed), (RunState::Stopped, RunAction::Halt));
    assert_eq!(next(RunState::Assembling, RunEvent::Cancel), (RunState::Assembling, RunAction::Halt));
}
