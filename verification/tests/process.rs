//! Supervision of a subprocess.

use nono_proxy::process::{poll, PollAction, PollEvent, PollState, WaitStatus, NO_EXIT_CODE};

/// Runs one round of looks at a subprocess.
fn round(cancelled: bool, child: WaitStatus, deadline_passed: bool) -> PollAction {
    let mut state = PollState::CheckCancel;
    loop {
        let event = match state {
            PollState::CheckCancel => PollEvent::Cancelled(cancelled),
            PollState::CheckChild => PollEvent::Child(child),
            PollState::CheckDeadline => PollEvent::DeadlinePassed(deadline_passed),
        };
        match poll(state, event) {
            PollAction::Check(next) => state = next,
            action => return action,
        }
    }
}

#[test]
fn running_subprocess_is_waited_for() {
    assert_eq!(round(false, WaitStatus::Running, false), PollAction::Sleep);
    assert_eq!(nono_proxy::process::POLL_INTERVAL_MS, 100);
}

#[test]
fn ended_subprocess_returns_its_code() {
    assert_eq!(round(false, WaitStatus::Exited(Some(3)), false), PollAction::Return(3));
    assert_eq!(round(false, WaitStatus::Exited(None), false), PollAction::Return(-1));
    assert_eq!(NO_EXIT_CODE, -1);
    // One that ended in time is not overdue.
    assert_eq!(round(false, WaitStatus::Exited(Some(0)), true), PollAction::Return(0));
}

#[test]
fn overdue_subprocess_is_ended() {
    assert_eq!(round(false, WaitStatus::Running, true), PollAction::KillAndTimeOut);
}

#[test]
fn cancelled_subprocess_is_ended_first() {
    assert_eq!(round(true, WaitStatus::Running, true), PollAction::KillAndReturn);
    assert_eq!(round(true, WaitStatus::Exited(Some(3)), false), PollAction::KillAndReturn);
}

#[test]
fn subprocess_that_cannot_be_waited_for_fails() {
    assert_eq!(round(false, WaitStatus::Failed, true), PollAction::Fail);
}

#[test]
fn unasked_event_repeats_the_question() {
    assert_eq!(
        poll(PollState::CheckChild, PollEvent::Cancelled(true)),
        PollAction::Check(PollState::CheckChild)
    );
}
