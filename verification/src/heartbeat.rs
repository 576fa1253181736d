//! The heartbeat session's state machine.
//!
//! The session keeps the upstream block engine routing traffic here: it
//! authenticates, then sends a heartbeat every cadence tick carrying the
//! advertised address and region list. Transport work (connecting, the RPC
//! itself, backoff sleeps) happens outside; this module decides, from the
//! session state and the outcome of the last piece of outside work, what the
//! session does next, and is verified for every outcome.

use vstd::prelude::*;

verus! {

/// Where the session stands.
#[derive(Clone, Copy, Debug, PartialEq, Eq, Structural)]
pub enum SessionState {
    /// Not connected; the next step is a (re)connection attempt.
    Connecting,
    /// Authenticated; heartbeats flow on the cadence.
    Authenticated,
    /// Shut down; nothing follows.
    Stopped,
}

/// The outcome of the last piece of outside work, or the shutdown event.
#[derive(Clone, Copy, Debug, PartialEq, Eq, Structural)]
pub enum SessionEvent {
    /// Connection and authentication succeeded.
    ConnectOk,
    /// Connection or authentication failed; credentials may rotate, so this
    /// is always retried.
    ConnectFailed,
    /// A heartbeat was sent and acknowledged.
    SendOk,
    /// A heartbeat send failed.
    SendFailed,
    /// The shutdown coordinator fired.
    Shutdown,
}

/// What the session asks the surrounding loop to do next.
#[derive(Clone, Copy, Debug, PartialEq, Eq, Structural)]
pub enum SessionAction {
    /// Attempt a connection (after the loop's bounded backoff).
    Reconnect,
    /// Send the next heartbeat at the cadence tick.
    SendHeartbeat,
    /// Leave the loop.
    Exit,
}

/// A heartbeat session: its state, its monotonic success counter, and the
/// consecutive-failure counter that drives reconnection.
#[derive(Clone, Copy, Debug, PartialEq, Eq, Structural)]
pub struct Session {
    pub state: SessionState,
    pub successes: u64,
    pub failures: u64,
    /// Consecutive send failures at which the session reconnects.
    pub failure_threshold: u64,
}

/// The state machine: one step of the session on one event.
pub open spec fn spec_step(s: Session, e: SessionEvent) -> (Session, SessionAction) {
    if e is Shutdown || s.state is Stopped {
        (Session { state: SessionState::Stopped, ..s }, SessionAction::Exit)
    } else {
        match s.state {
            SessionState::Connecting => match e {
                SessionEvent::ConnectOk => (
                    Session { state: SessionState::Authenticated, failures: 0, ..s },
                    SessionAction::SendHeartbeat,
                ),
                _ => (s, SessionAction::Reconnect),
            },
            SessionState::Authenticated => match e {
                SessionEvent::SendOk => (
                    Session {
                        successes: if s.successes < u64::MAX {
                            (s.successes + 1) as u64
                        } else {
                            u64::MAX
                        },
                        failures: 0,
                        ..s
                    },
                    SessionAction::SendHeartbeat,
                ),
                SessionEvent::SendFailed => {
                    let f = if s.failures < u64::MAX {
                        (s.failures + 1) as u64
                    } else {
                        u64::MAX
                    };
                    if f >= s.failure_threshold {
                        (
                            Session { state: SessionState::Connecting, failures: f, ..s },
                            SessionAction::Reconnect,
                        )
                    } else {
                        (Session { failures: f, ..s }, SessionAction::SendHeartbeat)
                    }
                },
                _ => (s, SessionAction::SendHeartbeat),
            },
            SessionState::Stopped => (s, SessionAction::Exit),
        }
    }
}

impl Session {
    /// A fresh session about to make its first connection attempt.
    pub fn new(failure_threshold: u64) -> (r: Session)
        ensures
            r == (Session {
                state: SessionState::Connecting,
                successes: 0,
                failures: 0,
                failure_threshold,
            }),
    {
        Session { state: SessionState::Connecting, successes: 0, failures: 0, failure_threshold }
    }

    /// Advances the session by one event and says what to do next; the exact
    /// transition is `spec_step`. The success counter never decreases, and
    /// shutdown always stops the session at once.
    pub fn step(&mut self, e: SessionEvent) -> (action: SessionAction)
        ensures
            (*final(self), action) == spec_step(*old(self), e),
            final(self).successes >= old(self).successes,
            final(self).failure_threshold == old(self).failure_threshold,
            e is Shutdown ==> final(self).state is Stopped && action is Exit,
    {
        if matches!(e, SessionEvent::Shutdown) || matches!(self.state, SessionState::Stopped) {
            self.state = SessionState::Stopped;
            return SessionAction::Exit;
        }
        match self.state {
            SessionState::Connecting => match e {
                SessionEvent::ConnectOk => {
                    self.state = SessionState::Authenticated;
                    self.failures = 0;
                    SessionAction::SendHeartbeat
                },
                _ => SessionAction::Reconnect,
            },
            SessionState::Authenticated => match e {
                SessionEvent::SendOk => {
                    if self.successes < u64::MAX {
                        self.successes = self.successes + 1;
                    }
                    self.failures = 0;
                    SessionAction::SendHeartbeat
                },
                SessionEvent::SendFailed => {
                    if self.failures < u64::MAX {
                        self.failures = self.failures + 1;
                    }
                    if self.failures >= self.failure_threshold {
                        self.state = SessionState::Connecting;
                        SessionAction::Reconnect
                    } else {
                        SessionAction::SendHeartbeat
                    }
                },
                _ => SessionAction::SendHeartbeat,
            },
            SessionState::Stopped => SessionAction::Exit,
        }
    }
}

/// Heartbeat liveness, per step: while the session is healthy — it is
/// authenticated and the send succeeds — the step emits the next heartbeat
/// and the success counter grows, so heartbeats follow one another at the
/// loop's cadence without a gap.
pub proof fn lemma_heartbeat_liveness(s: Session)
    requires
        s.state is Authenticated,
        s.successes < u64::MAX,
    ensures
        spec_step(s, SessionEvent::SendOk).0.state is Authenticated,
        spec_step(s, SessionEvent::SendOk).0.successes == s.successes + 1,
        spec_step(s, SessionEvent::SendOk).0.failures == 0,
        spec_step(s, SessionEvent::SendOk).1 is SendHeartbeat,
{
}

/// Graceful shutdown, per step: whatever the state, the shutdown event stops
/// the session and asks the loop to exit, and a stopped session never acts
/// again.
pub proof fn lemma_shutdown_absorbing(s: Session, e: SessionEvent)
    ensures
        spec_step(s, SessionEvent::Shutdown).0.state is Stopped,
        spec_step(s, SessionEvent::Shutdown).1 is Exit,
        s.state is Stopped ==> spec_step(s, e).0.state is Stopped && spec_step(s, e).1 is Exit,
{
}

} // verus!
