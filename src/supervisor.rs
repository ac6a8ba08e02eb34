//! The decisions of the loop that waits for a sandboxed application to listen
//! on its port. The loop itself (spawning, sleeping, killing) runs outside the
//! library and hands each observation to `next_step`.
use vstd::prelude::*;

verus! {

/// How long to wait for the port, in milliseconds.
pub const READY_TIMEOUT_MS: u64 = 30000;

/// The pause between two polls, in milliseconds.
pub const POLL_INTERVAL_MS: u64 = 100;

/// What a non-blocking wait on the child showed.
#[derive(PartialEq, Eq, Structural, Clone, Copy, Debug)]
pub enum ChildStatus {
    /// The child has not exited.
    Running,
    /// The child has exited, with this code, or with none where a signal ended it.
    Exited(Option<i32>),
    /// Its status could not be read.
    Unknown,
}

/// What the supervisor does next.
#[derive(PartialEq, Eq, Structural, Clone, Copy, Debug)]
pub enum PollStep {
    /// Exit with this status, the child having gone.
    Exit(i32),
    /// Kill the child and exit with this status.
    KillAndExit(i32),
    /// The port listens: report readiness and wait for the child.
    Ready,
    /// Sleep for the poll interval and poll again.
    Wait,
}

/// The status with which the shim exits after its child ended with `code`:
/// the child's own code, or 1 where a signal ended it.
pub open spec fn exit_status(code: Option<i32>) -> i32 {
    match code {
        Some(c) => c,
        None => 1,
    }
}

/// The step after one poll: an exited child ends the wait at once, then a
/// listening port, then the timeout.
pub open spec fn poll_step(child: ChildStatus, listening: bool, elapsed_ms: u64) -> PollStep {
    match child {
        ChildStatus::Exited(code) => PollStep::Exit(exit_status(code)),
        ChildStatus::Unknown => PollStep::KillAndExit(1),
        ChildStatus::Running => if listening {
            PollStep::Ready
        } else if elapsed_ms > READY_TIMEOUT_MS {
            PollStep::KillAndExit(1)
        } else {
            PollStep::Wait
        },
    }
}

/// Computes `exit_status(code)`.
pub fn exit_code(code: Option<i32>) -> (r: i32)
    ensures
        r == exit_status(code),
{
    match code {
        Some(c) => c,
        None => 1,
    }
}

/// Decides the step after one poll, from the child's status, whether the
/// port was seen listening, and the time since the child was spawned.
pub fn next_step(child: ChildStatus, listening: bool, elapsed_ms: u64) -> (r: PollStep)
    ensures
        r == poll_step(child, listening, elapsed_ms),
{
    match child {
        ChildStatus::Exited(code) => PollStep::Exit(exit_code(code)),
        ChildStatus::Unknown => PollStep::KillAndExit(1),
        ChildStatus::Running => {
            if listening {
                PollStep::Ready
            } else if elapsed_ms > READY_TIMEOUT_MS {
                PollStep::KillAndExit(1)
            } else {
                PollStep::Wait
            }
        },
    }
}

/// Readiness is never reported for a port that was not seen listening, nor
/// for a child that has gone.
pub proof fn lemma_ready_only_when_listening(child: ChildStatus, listening: bool, elapsed_ms: u64)
    ensures
        poll_step(child, listening, elapsed_ms) == PollStep::Ready ==> listening && child
            == ChildStatus::Running,
{
}

} // verus!
