//! The per-session lifecycle state machine.
//!
//! One `ForwardingSession` stands for the relay of one (client, protocol)
//! pair: it owns the identity of one dedicated backend socket, tracks the
//! time of its last activity, and decides — for each event its relay task
//! races on — what to do next. The events are the three the relay waits on
//! (an outbound client datagram, a backend reply, the idle timer) plus a
//! socket error; the actions tell the embedding task what single I/O step to
//! perform. Termination is the sole terminal transition: once `Terminated`,
//! every further event is ignored.

use vstd::prelude::*;
use crate::endpoint::{ClientEndpoint, SessionKey};

verus! {

/// Lifecycle state of a forwarding session.
#[derive(PartialEq, Eq, Structural, Clone, Copy, Debug)]
pub enum SessionState {
    Active,
    Terminated,
}

/// One event a session's relay task can observe.
pub enum SessionEvent {
    /// The listener handed over a client datagram to forward to the backend.
    Outbound { now: u64, data: Vec<u8> },
    /// The backend socket delivered a reply to relay to the client.
    BackendReply { now: u64, data: Vec<u8> },
    /// The idle timer fired.
    IdleTick { now: u64 },
    /// The backend socket failed on send or receive.
    SocketError,
}

/// The single I/O step the relay task must perform after an event.
pub enum SessionAction {
    /// Send these bytes on the session's backend socket.
    ForwardToBackend { data: Vec<u8> },
    /// Send these bytes, unmodified, to this client on the listener socket.
    RelayToClient { dest: ClientEndpoint, data: Vec<u8> },
    /// Stop the relay loop and deregister (key, socket identity) from the
    /// registry; the session is terminated.
    Shutdown,
    /// Nothing to do; keep waiting.
    Rearm,
}

/// Ticks elapsed between a last-activity stamp and now; a clock that moved
/// backwards counts as no time elapsed.
pub open spec fn spec_elapsed(last_activity: u64, now: u64) -> int {
    if now >= last_activity {
        now - last_activity
    } else {
        0
    }
}

/// Whether a session whose last activity was at `last_activity` has idled
/// past `timeout` by time `now` (strictly more than `timeout` ticks).
pub open spec fn spec_is_idle(last_activity: u64, now: u64, timeout: u64) -> bool {
    spec_elapsed(last_activity, now) > timeout
}

/// Executable form of `spec_is_idle`.
pub fn is_idle(last_activity: u64, now: u64, timeout: u64) -> (r: bool)
    ensures
        r == spec_is_idle(last_activity, now, timeout),
{
    now >= last_activity && now - last_activity > timeout
}

/// A forwarding session: the key it serves, the identity of its exclusively
/// owned backend socket, its idle timeout, its last-activity stamp and its
/// lifecycle state.
#[derive(PartialEq, Eq, Structural, Clone, Copy, Debug)]
pub struct ForwardingSession {
    pub key: SessionKey,
    pub socket_id: u64,
    pub idle_timeout: u64,
    pub last_activity: u64,
    pub state: SessionState,
}

/// What one event does to a session: the successor state and the action the
/// relay task must perform. This is the whole lifecycle rule:
/// - a terminated session ignores every event;
/// - traffic in either direction stamps the activity time and is forwarded
///   verbatim (a backend reply goes to the session's own client, never to
///   another);
/// - the idle timer terminates the session only if no activity intervened
///   within the timeout, and otherwise merely rearms;
/// - a socket error terminates the session.
pub open spec fn spec_step(s: ForwardingSession, event: SessionEvent) -> (ForwardingSession,
    SessionAction) {
    if s.state == SessionState::Terminated {
        (s, SessionAction::Rearm)
    } else {
        match event {
            SessionEvent::Outbound { now, data } => (
                ForwardingSession { last_activity: now, ..s },
                SessionAction::ForwardToBackend { data },
            ),
            SessionEvent::BackendReply { now, data } => (
                ForwardingSession { last_activity: now, ..s },
                SessionAction::RelayToClient { dest: s.key.client, data },
            ),
            SessionEvent::IdleTick { now } => {
                if spec_is_idle(s.last_activity, now, s.idle_timeout) {
                    (ForwardingSession { state: SessionState::Terminated, ..s },
                    SessionAction::Shutdown)
                } else {
                    (s, SessionAction::Rearm)
                }
            },
            SessionEvent::SocketError => (
                ForwardingSession { state: SessionState::Terminated, ..s },
                SessionAction::Shutdown,
            ),
        }
    }
}

impl ForwardingSession {
    /// A freshly created session: active, stamped with the creation time,
    /// bound to its backend socket identity.
    pub fn new(key: SessionKey, socket_id: u64, idle_timeout: u64, now: u64) -> (s:
        ForwardingSession)
        ensures
            s == (ForwardingSession {
                key,
                socket_id,
                idle_timeout,
                last_activity: now,
                state: SessionState::Active,
            }),
    {
        ForwardingSession { key, socket_id, idle_timeout, last_activity: now, state: SessionState::Active }
    }

    /// Feeds one event to the session and returns the action to perform;
    /// state and action are exactly those of `spec_step`.
    pub fn step(&mut self, event: SessionEvent) -> (action: SessionAction)
        ensures
            (*final(self), action) == spec_step(*old(self), event),
    {
        if matches!(self.state, SessionState::Terminated) {
            SessionAction::Rearm
        } else {
            match event {
                SessionEvent::Outbound { now, data } => {
                    self.last_activity = now;
                    SessionAction::ForwardToBackend { data }
                },
                SessionEvent::BackendReply { now, data } => {
                    self.last_activity = now;
                    SessionAction::RelayToClient { dest: self.key.client, data }
                },
                SessionEvent::IdleTick { now } => {
                    if is_idle(self.last_activity, now, self.idle_timeout) {
                        self.state = SessionState::Terminated;
                        SessionAction::Shutdown
                    } else {
                        SessionAction::Rearm
                    }
                },
                SessionEvent::SocketError => {
                    self.state = SessionState::Terminated;
                    SessionAction::Shutdown
                },
            }
        }
    }
}

/// An idle timer firing after more than `idle_timeout` ticks with no
/// intervening activity terminates an active session, and the demanded
/// action is its deregistration.
pub proof fn lemma_idle_tick_terminates(s: ForwardingSession, now: u64)
    requires
        s.state == SessionState::Active,
        spec_is_idle(s.last_activity, now, s.idle_timeout),
    ensures
        spec_step(s, SessionEvent::IdleTick { now }).0.state == SessionState::Terminated,
        spec_step(s, SessionEvent::IdleTick { now }).1 == SessionAction::Shutdown,
{
}

/// Activity in either direction stamps the activity time, keeps the session
/// active, and changes nothing else, so an idle timer armed for the timeout
/// is effectively reset by every datagram.
pub proof fn lemma_activity_resets_timer(s: ForwardingSession, now: u64, data: Vec<u8>)
    requires
        s.state == SessionState::Active,
    ensures
        spec_step(s, SessionEvent::Outbound { now, data }).0 == (ForwardingSession {
            last_activity: now,
            ..s
        }),
        spec_step(s, SessionEvent::BackendReply { now, data }).0 == (ForwardingSession {
            last_activity: now,
            ..s
        }),
{
}

/// A backend reply is relayed verbatim, and only ever to the session's own
/// client: traffic of one session never reaches another client.
pub proof fn lemma_reply_relayed_to_own_client(s: ForwardingSession, now: u64, data: Vec<u8>)
    requires
        s.state == SessionState::Active,
    ensures
        spec_step(s, SessionEvent::BackendReply { now, data }).1 == (SessionAction::RelayToClient {
            dest: s.key.client,
            data,
        }),
{
}

/// `Terminated` is terminal: a terminated session ignores every further
/// event and never acts again.
pub proof fn lemma_terminated_is_terminal(s: ForwardingSession, event: SessionEvent)
    requires
        s.state == SessionState::Terminated,
    ensures
        spec_step(s, event).0 == s,
        spec_step(s, event).1 == SessionAction::Rearm,
{
}

} // verus!
