//! The connection state machine of one session.
use vstd::prelude::*;

verus! {

/// Where a session stands, as shown to the user.
#[derive(Debug, Clone, Copy, PartialEq, Eq, Structural)]
pub enum SessionState {
    Connecting,
    Connected,
    Retrying,
    Exited,
    Closed,
}

/// What happened to a session.
#[derive(Debug, Clone, Copy, PartialEq, Eq, Structural)]
pub enum SessionEvent {
    Connected,
    Disconnected,
    RetryScheduled,
    GiveUp,
    AgentExited,
    UserClose,
}

/// The state after `event` in state `state`.
///
/// `Closed` is final. A user close ends every other state. `Exited` (the agent
/// quit, or a failure that is not retried) stays until the user closes it.
/// Otherwise a connection makes the session `Connected`, a drop or a scheduled
/// retry makes it `Retrying`, and giving up makes it `Exited`.
pub open spec fn next_state(state: SessionState, event: SessionEvent) -> SessionState {
    if state == SessionState::Closed {
        SessionState::Closed
    } else if event == SessionEvent::UserClose {
        SessionState::Closed
    } else if state == SessionState::Exited {
        SessionState::Exited
    } else {
        match event {
            SessionEvent::Connected => SessionState::Connected,
            SessionEvent::Disconnected => SessionState::Retrying,
            SessionEvent::RetryScheduled => SessionState::Retrying,
            SessionEvent::GiveUp => SessionState::Exited,
            SessionEvent::AgentExited => SessionState::Exited,
            SessionEvent::UserClose => SessionState::Closed,
        }
    }
}

/// The state after `event` in state `state` (see `next_state`).
pub fn transition(state: SessionState, event: SessionEvent) -> (r: SessionState)
    ensures
        r == next_state(state, event),
{
    match state {
        SessionState::Closed => SessionState::Closed,
        _ => {
            if event == SessionEvent::UserClose {
                SessionState::Closed
            } else {
                match state {
                    SessionState::Exited => SessionState::Exited,
                    _ => match event {
                        SessionEvent::Connected => SessionState::Connected,
                        SessionEvent::Disconnected => SessionState::Retrying,
                        SessionEvent::RetryScheduled => SessionState::Retrying,
                        SessionEvent::GiveUp => SessionState::Exited,
                        SessionEvent::AgentExited => SessionState::Exited,
                        SessionEvent::UserClose => SessionState::Closed,
                    },
                }
            }
        },
    }
}

/// A closed session stays closed whatever happens next.
pub proof fn closed_is_final(event: SessionEvent)
    ensures
        next_state(SessionState::Closed, event) == SessionState::Closed,
{
}

/// Closing by the user ends a session from any state.
pub proof fn user_close_always_closes(state: SessionState)
    ensures
        next_state(state, SessionEvent::UserClose) == SessionState::Closed,
{
}

/// An exited session is left only by a user close, and then it is closed.
pub proof fn exited_waits_for_close(event: SessionEvent)
    ensures
        next_state(SessionState::Exited, event) == if event == SessionEvent::UserClose {
            SessionState::Closed
        } else {
            SessionState::Exited
        },
{
}

/// A dropped connection is retried and a new connection restores it: from any
/// live state, a drop leads to `Retrying`, and a connection from there back to
/// `Connected`.
pub proof fn drop_then_reconnect(state: SessionState)
    requires
        state == SessionState::Connecting || state == SessionState::Connected || state
            == SessionState::Retrying,
    ensures
        next_state(state, SessionEvent::Disconnected) == SessionState::Retrying,
        next_state(next_state(state, SessionEvent::Disconnected), SessionEvent::Connected)
            == SessionState::Connected,
{
}

/// Giving up or the agent quitting ends a live session in `Exited`.
pub proof fn give_up_or_agent_exit_ends_in_exited(state: SessionState, event: SessionEvent)
    requires
        state != SessionState::Closed,
        event == SessionEvent::GiveUp || event == SessionEvent::AgentExited,
    ensures
        next_state(state, event) == SessionState::Exited,
{
}

} // verus!
