use vstd::prelude::*;
use crate::throttle::{deadline_after, later};

verus! {

/// The state of the transport as the connection manager sees it.
#[derive(Clone, Copy, Debug, PartialEq, Eq, Structural)]
pub enum ConnectionState {
    /// Not connected; the next attempt is due at `retry_at` (at startup: at once).
    Disconnected { retry_at: u64 },
    Connecting,
    Connected,
    /// An operation failed; a new attempt is due at `retry_at`.
    Faulted { retry_at: u64 },
}

/// What the transport reports, or the passing of time.
#[derive(Clone, Copy, Debug, PartialEq, Eq, Structural)]
pub enum LinkEvent {
    /// The clock advanced; nothing else happened.
    Tick,
    /// Association and handshake succeeded.
    Associated,
    /// The transport reported an explicit disconnect.
    LinkLost,
    /// An operation failed (association failure, credentials rejected).
    Failed,
}

/// What the loop around the manager is to do next.
#[derive(Clone, Copy, Debug, PartialEq, Eq, Structural)]
pub enum LinkAction {
    /// Nothing to do until the next event.
    Idle,
    /// Start an association attempt.
    Connect,
    /// Sleep until the given instant, then tick.
    WaitUntil(u64),
}

/// One transition of the connection manager with fixed backoff `backoff`,
/// taken at instant `now`.
pub open spec fn conn_step(s: ConnectionState, backoff: u64, ev: LinkEvent, now: u64) -> (ConnectionState, LinkAction) {
    match ev {
        LinkEvent::Failed => {
            let at = deadline_after(now, backoff);
            (ConnectionState::Faulted { retry_at: at }, LinkAction::WaitUntil(at))
        },
        LinkEvent::Tick => match s {
            ConnectionState::Disconnected { retry_at } => if now >= retry_at {
                (ConnectionState::Connecting, LinkAction::Connect)
            } else {
                (s, LinkAction::WaitUntil(retry_at))
            },
            ConnectionState::Faulted { retry_at } => if now >= retry_at {
                (ConnectionState::Connecting, LinkAction::Connect)
            } else {
                (s, LinkAction::WaitUntil(retry_at))
            },
            _ => (s, LinkAction::Idle),
        },
        LinkEvent::Associated => match s {
            ConnectionState::Connecting => (ConnectionState::Connected, LinkAction::Idle),
            _ => (s, LinkAction::Idle),
        },
        LinkEvent::LinkLost => match s {
            ConnectionState::Connected => {
                let at = deadline_after(now, backoff);
                (ConnectionState::Disconnected { retry_at: at }, LinkAction::WaitUntil(at))
            },
            _ => (s, LinkAction::Idle),
        },
    }
}

/// Keeps the transport available: the sole owner of the connection state.
pub struct ConnectionManager {
    pub state: ConnectionState,
    pub backoff: u64,
}

impl ConnectionManager {
    /// A manager at startup: disconnected, with its first attempt due at once,
    /// and every later attempt `backoff` ticks after a fault or a disconnect.
    pub fn new(backoff: u64) -> (r: Self)
        ensures
            r.state == (ConnectionState::Disconnected { retry_at: 0 }),
            r.backoff == backoff,
    {
        ConnectionManager { state: ConnectionState::Disconnected { retry_at: 0 }, backoff }
    }

    /// Takes one event that happened at `now` and says what to do next.
    pub fn step(&mut self, ev: LinkEvent, now: u64) -> (a: LinkAction)
        ensures
            final(self).backoff == old(self).backoff,
            (final(self).state, a) == conn_step(old(self).state, old(self).backoff, ev, now),
    {
        match ev {
            LinkEvent::Failed => {
                let at = later(now, self.backoff);
                self.state = ConnectionState::Faulted { retry_at: at };
                LinkAction::WaitUntil(at)
            },
            LinkEvent::Tick => match self.state {
                ConnectionState::Disconnected { retry_at } => {
                    if now >= retry_at {
                        self.state = ConnectionState::Connecting;
                        LinkAction::Connect
                    } else {
                        LinkAction::WaitUntil(retry_at)
                    }
                },
                ConnectionState::Faulted { retry_at } => {
                    if now >= retry_at {
                        self.state = ConnectionState::Connecting;
                        LinkAction::Connect
                    } else {
                        LinkAction::WaitUntil(retry_at)
                    }
                },
                _ => LinkAction::Idle,
            },
            LinkEvent::Associated => {
                if self.state == ConnectionState::Connecting {
                    self.state = ConnectionState::Connected;
                }
                LinkAction::Idle
            },
            LinkEvent::LinkLost => {
                if self.state == ConnectionState::Connected {
                    let at = later(now, self.backoff);
                    self.state = ConnectionState::Disconnected { retry_at: at };
                    LinkAction::WaitUntil(at)
                } else {
                    LinkAction::Idle
                }
            },
        }
    }

    /// Whether the transport may be used to send.
    pub fn is_connected(&self) -> (r: bool)
        ensures
            r == (self.state == ConnectionState::Connected),
    {
        self.state == ConnectionState::Connected
    }
}

/// After a fault at `fault_at`, in whatever state, the manager does not try
/// again before the backoff has elapsed, however often the clock ticks; at or
/// after that instant the next tick starts a new attempt.
pub proof fn lemma_backoff(s: ConnectionState, backoff: u64, fault_at: u64, early: u64, late: u64)
    requires
        fault_at + backoff <= u64::MAX,
        early < fault_at + backoff,
        late >= fault_at + backoff,
    ensures
        conn_step(s, backoff, LinkEvent::Failed, fault_at).1 == LinkAction::WaitUntil(
            (fault_at + backoff) as u64,
        ),
        conn_step(conn_step(s, backoff, LinkEvent::Failed, fault_at).0, backoff, LinkEvent::Tick, early)
            == conn_step(s, backoff, LinkEvent::Failed, fault_at),
        conn_step(conn_step(s, backoff, LinkEvent::Failed, fault_at).0, backoff, LinkEvent::Tick, late)
            == (ConnectionState::Connecting, LinkAction::Connect),
{
}

/// After an explicit disconnect at `lost_at`, the manager does not try to
/// reconnect before the backoff has elapsed, however often the clock ticks;
/// at or after that instant the next tick starts a new attempt.
pub proof fn lemma_reconnect_wait(backoff: u64, lost_at: u64, early: u64, late: u64)
    requires
        lost_at + backoff <= u64::MAX,
        early < lost_at + backoff,
        late >= lost_at + backoff,
    ensures
        conn_step(ConnectionState::Connected, backoff, LinkEvent::LinkLost, lost_at) == (
        ConnectionState::Disconnected { retry_at: (lost_at + backoff) as u64 },
        LinkAction::WaitUntil((lost_at + backoff) as u64),
        ),
        conn_step(
            conn_step(ConnectionState::Connected, backoff, LinkEvent::LinkLost, lost_at).0,
            backoff,
            LinkEvent::Tick,
            early,
        ) == conn_step(ConnectionState::Connected, backoff, LinkEvent::LinkLost, lost_at),
        conn_step(
            conn_step(ConnectionState::Connected, backoff, LinkEvent::LinkLost, lost_at).0,
            backoff,
            LinkEvent::Tick,
            late,
        ) == (ConnectionState::Connecting, LinkAction::Connect),
{
}

} // verus!
