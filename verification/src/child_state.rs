//! The wait-state machine of a shared child.
//!
//! A spawned child may be waited on and killed from any number of threads.
//! The protocol funnels the one blocking, non-reaping OS wait through a
//! single thread: the state moves from `NotWaiting` to `Waiting` when a
//! thread takes on the blocking wait, to `Exited` once the child is reaped,
//! and back to `NotWaiting` only when a wait failed. `Exited` is terminal.
//!
//! The embedding program keeps this state behind its lock and condition
//! variable; every decision — return, block, or perform the wait — is
//! taken here.

use vstd::prelude::*;

verus! {

/// Where a shared child stands: nobody waits yet, one thread performs the
/// blocking wait, or the child is reaped with this status code.
#[derive(Clone, Copy, Debug, PartialEq, Eq, Structural)]
pub enum WaitState {
    NotWaiting,
    Waiting,
    Exited(i32),
}

/// What a thread entering `wait` does next.
#[derive(Clone, Copy, Debug, PartialEq, Eq, Structural)]
pub enum WaitStep {
    /// The child is reaped: return this status.
    Return(i32),
    /// Another thread performs the blocking wait: block on the condition
    /// variable and look again.
    Block,
    /// Nobody waits: this thread now owns the blocking, non-reaping wait.
    Reap,
}

/// Decide a waiting thread's next step, and take the `Waiting` state when
/// the blocking wait falls to it. `Exited` is never left.
pub fn begin_wait(s: &mut WaitState) -> (r: WaitStep)
    ensures
        match *old(s) {
            WaitState::Exited(c) => r == WaitStep::Return(c) && *final(s) == *old(s),
            WaitState::Waiting => r == WaitStep::Block && *final(s) == *old(s),
            WaitState::NotWaiting => r == WaitStep::Reap && *final(s) == WaitState::Waiting,
        },
{
    match *s {
        WaitState::Exited(c) => WaitStep::Return(c),
        WaitState::Waiting => WaitStep::Block,
        WaitState::NotWaiting => {
            *s = WaitState::Waiting;
            WaitStep::Reap
        },
    }
}

/// Record how the blocking wait ended: the status on success — the state
/// is then `Exited` for good — or back to `NotWaiting` on a wait error, so
/// that another thread may retry.
pub fn finish_reap(s: &mut WaitState, result: Option<i32>)
    requires
        *old(s) == WaitState::Waiting,
    ensures
        match result {
            Some(c) => *final(s) == WaitState::Exited(c),
            None => *final(s) == WaitState::NotWaiting,
        },
{
    match result {
        Some(c) => {
            *s = WaitState::Exited(c);
        },
        None => {
            *s = WaitState::NotWaiting;
        },
    }
}

/// Whether a kill request sends the OS signal: a reaped child is never
/// signalled — its identity may already be reused — and the request is a
/// successful no-op.
pub fn kill_sends_signal(s: &WaitState) -> (r: bool)
    ensures
        r == !(*s matches WaitState::Exited(_)),
{
    match s {
        WaitState::Exited(_) => false,
        _ => true,
    }
}

} // verus!
