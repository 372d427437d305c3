//! Supervision of a subprocess: when to go on waiting, when to end it, and what
//! it amounts to.

use vstd::prelude::*;

verus! {

/// Exit code of a subprocess that ended without one.
pub const NO_EXIT_CODE: i32 = -1;

/// Milliseconds between two looks at a subprocess.
pub const POLL_INTERVAL_MS: u64 = 100;

/// What a look at a subprocess shows.
#[derive(Debug, Clone, Copy, PartialEq, Eq, Structural)]
pub enum WaitStatus {
    /// It ended, with an exit code where it has one.
    Exited(Option<i32>),
    /// It is running.
    Running,
    /// It cannot be looked at.
    Failed,
}

/// What to find out next.
#[derive(Debug, Clone, Copy, PartialEq, Eq, Structural)]
pub enum PollState {
    /// Whether somebody cancelled.
    CheckCancel,
    /// Whether the subprocess is running.
    CheckChild,
    /// Whether the time is up.
    CheckDeadline,
}

/// What was found out.
#[derive(Debug, Clone, Copy, PartialEq, Eq, Structural)]
pub enum PollEvent {
    /// Whether somebody cancelled; where nobody can, nobody did.
    Cancelled(bool),
    /// What a look at the subprocess shows.
    Child(WaitStatus),
    /// Whether the time is up.
    DeadlinePassed(bool),
}

/// What to do about the subprocess.
#[derive(Debug, Clone, Copy, PartialEq, Eq, Structural)]
pub enum PollAction {
    /// Find out the next thing.
    Check(PollState),
    /// Wait a moment, then start over.
    Sleep,
    /// End it, and return what it printed under exit code 0.
    KillAndReturn,
    /// Return what it printed under an exit code.
    Return(i32),
    /// End it, and report that the time is up.
    KillAndTimeOut,
    /// Report that it cannot be waited for.
    Fail,
}

/// What to do after an event. Cancelling comes before a look at the subprocess,
/// and that before the deadline, so that a subprocess that ended in time counts
/// as such. An event that was not asked for has its question asked again.
pub open spec fn poll_action(state: PollState, event: PollEvent) -> PollAction {
    match (state, event) {
        (PollState::CheckCancel, PollEvent::Cancelled(true)) => PollAction::KillAndReturn,
        (PollState::CheckCancel, PollEvent::Cancelled(false)) => PollAction::Check(
            PollState::CheckChild,
        ),
        (PollState::CheckChild, PollEvent::Child(WaitStatus::Exited(Some(code)))) =>
            PollAction::Return(code),
        (PollState::CheckChild, PollEvent::Child(WaitStatus::Exited(None))) => PollAction::Return(
            NO_EXIT_CODE,
        ),
        (PollState::CheckChild, PollEvent::Child(WaitStatus::Running)) => PollAction::Check(
            PollState::CheckDeadline,
        ),
        (PollState::CheckChild, PollEvent::Child(WaitStatus::Failed)) => PollAction::Fail,
        (PollState::CheckDeadline, PollEvent::DeadlinePassed(true)) => PollAction::KillAndTimeOut,
        (PollState::CheckDeadline, PollEvent::DeadlinePassed(false)) => PollAction::Sleep,
        _ => PollAction::Check(state),
    }
}

/// What to do after an event.
#[must_use]
pub fn poll(state: PollState, event: PollEvent) -> (r: PollAction)
    ensures
        r == poll_action(state, event),
{
    match state {
        PollState::CheckCancel => match event {
            PollEvent::Cancelled(cancelled) => {
                if cancelled {
                    PollAction::KillAndReturn
                } else {
                    PollAction::Check(PollState::CheckChild)
                }
            },
            _ => PollAction::Check(state),
        },
        PollState::CheckChild => match event {
            PollEvent::Child(WaitStatus::Exited(code)) => match code {
                Some(code) => PollAction::Return(code),
                None => PollAction::Return(NO_EXIT_CODE),
            },
            PollEvent::Child(WaitStatus::Running) => PollAction::Check(PollState::CheckDeadline),
            PollEvent::Child(WaitStatus::Failed) => PollAction::Fail,
            _ => PollAction::Check(state),
        },
        PollState::CheckDeadline => match event {
            PollEvent::DeadlinePassed(passed) => {
                if passed {
                    PollAction::KillAndTimeOut
                } else {
                    PollAction::Sleep
                }
            },
            _ => PollAction::Check(state),
        },
    }
}

/// What one round of looks at a subprocess comes to.
pub open spec fn round(cancelled: bool, child: WaitStatus, deadline_passed: bool) -> PollAction {
    match poll_action(PollState::CheckCancel, PollEvent::Cancelled(cancelled)) {
        PollAction::Check(PollState::CheckChild) => match poll_action(
            PollState::CheckChild,
            PollEvent::Child(child),
        ) {
            PollAction::Check(PollState::CheckDeadline) => poll_action(
                PollState::CheckDeadline,
                PollEvent::DeadlinePassed(deadline_passed),
            ),
            action => action,
        },
        action => action,
    }
}

/// A round ends the wait exactly where somebody cancelled, the subprocess is no
/// longer running, or the time is up. A subprocess is ended only where it is
/// cancelled or overdue, and one that ended by itself is never reported overdue.
pub proof fn law_round_of_polling(cancelled: bool, child: WaitStatus, deadline_passed: bool)
    ensures
        round(cancelled, child, deadline_passed) == PollAction::Sleep <==> !cancelled && child
            == WaitStatus::Running && !deadline_passed,
        round(cancelled, child, deadline_passed) == PollAction::KillAndReturn <==> cancelled,
        round(cancelled, child, deadline_passed) == PollAction::KillAndTimeOut <==> !cancelled && child
            == WaitStatus::Running && deadline_passed,
        round(cancelled, child, deadline_passed) == PollAction::Fail <==> !cancelled && child
            == WaitStatus::Failed,
        round(cancelled, child, deadline_passed) is Return <==> !cancelled && child is Exited,
{
}

/// A subprocess that ended by itself is reported with its exit code, or -1 where
/// it has none. An event that answers another question than the one asked has
/// that question asked again.
pub proof fn law_exit_codes(
    code: i32,
    deadline_passed: bool,
    state: PollState,
    event: PollEvent,
)
    ensures
        round(false, WaitStatus::Exited(Some(code)), deadline_passed) == PollAction::Return(code),
        round(false, WaitStatus::Exited(None), deadline_passed) == PollAction::Return(-1i32),
        (state is CheckCancel && !(event is Cancelled)) || (state is CheckChild && !(event is Child))
            || (state is CheckDeadline && !(event is DeadlinePassed)) ==> poll_action(state, event)
            == PollAction::Check(state),
{
}

/// What is done about the answer to each question: cancelled ends the subprocess,
/// else it is looked at; one that runs is held against its deadline, one that
/// cannot be looked at fails; and one past its deadline is ended as overdue.
pub proof fn law_steps_of_polling(status: WaitStatus)
    ensures
        poll_action(PollState::CheckCancel, PollEvent::Cancelled(true)) == PollAction::KillAndReturn,
        poll_action(PollState::CheckCancel, PollEvent::Cancelled(false)) == PollAction::Check(
            PollState::CheckChild,
        ),
        status == WaitStatus::Running ==> poll_action(PollState::CheckChild, PollEvent::Child(status))
            == PollAction::Check(PollState::CheckDeadline),
        status == WaitStatus::Failed ==> poll_action(PollState::CheckChild, PollEvent::Child(status))
            == PollAction::Fail,
        status matches WaitStatus::Exited(code) ==> poll_action(
            PollState::CheckChild,
            PollEvent::Child(status),
        ) == PollAction::Return(
            if code is Some {
                code->0
            } else {
                -1i32
            },
        ),
        poll_action(PollState::CheckDeadline, PollEvent::DeadlinePassed(true))
            == PollAction::KillAndTimeOut,
        poll_action(PollState::CheckDeadline, PollEvent::DeadlinePassed(false)) == PollAction::Sleep,
{
}

} // verus!
