use clevert::child_state::begin_wait;
use clevert::child_state::finish_reap;
use clevert::child_state::kill_sends_signal;
use clevert::child_state::WaitState;
use clevert::child_state::WaitStep;

#[test]
fn first_waiter_takes_the_blocking_wait() {
    let mut s = WaitState::NotWaiting;
    assert_eq!(begin_wait(&mut s), WaitStep::Reap);
    assert_eq!(s, WaitState::Waiting);
}

#[test]
fn later_waiters_block() {
    let mut s = WaitState::Waiting;
    assert_eq!(begin_wait(&mut s), WaitStep::Block);
    assert_eq!(s, WaitState::Waiting);
}

#[test]
fn exited_is_terminal_and_returns_at_once() {
    let mut s = WaitState::Exited(3);
    assert_eq!(begin_wait(&mut s), WaitStep::Return(3));
    assert_eq!(s, WaitState::Exited(3));
}

#[test]
fn reap_outcome_decides_the_next_state() {
    let mut s = WaitState::Waiting;
    finish_reap(&mut s, Some(0));
    assert_eq!(s, WaitState::Exited(0));

    // A failed wait hands the blocking wait back.
    let mut s = WaitState::Waiting;
    finish_reap(&mut s, None);
    assert_eq!(s, WaitState::NotWaiting);
}

#[test]
fn kill_skips_reaped_children() {
    assert!(kill_sends_signal(&WaitState::NotWaiting));
    assert!(kill_sends_signal(&WaitState::Waiting));
    assert!(!kill_sends_signal(&WaitState::Exited(0)));
}
