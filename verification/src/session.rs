//! Decision core of a forwarding session's relay loop. The loop itself
//! races a timer against backend-socket readiness; what it does with each
//! outcome is decided here, so that every exit path is pinned down: only a
//! timeout or a read error ends a session, and a received datagram is
//! forwarded verbatim.

use vstd::prelude::*;

verus! {

/// Largest datagram the relay reads in one step, in bytes.
pub const MAX_DATAGRAM_SIZE: usize = 1500;

/// Seconds of backend silence after which a session's relay loop exits;
/// the window resets at every readiness check.
pub const SESSION_TIMEOUT_SECS: u64 = 20;

/// What one iteration of the relay race observed on a session's backend
/// socket.
pub enum BackendEvent {
    /// The idle timer fired before the socket became readable.
    TimerElapsed,
    /// One datagram was read from the backend.
    Datagram(Vec<u8>),
    /// The socket signalled readiness but had no data: spurious, not an
    /// error.
    WouldBlock,
    /// The read failed with a real error.
    ReadError,
}

/// Why a session terminated. Termination is the only path that removes a
/// session from the table.
#[derive(Debug, Clone, Copy, PartialEq, Eq, Structural)]
pub enum TerminateReason {
    TimedOut,
    IoError,
}

/// What the relay loop does next after one backend event.
pub enum RelayStep {
    /// Exit the loop; the caller removes this session from the table and
    /// releases its socket.
    Terminate(TerminateReason),
    /// Send these bytes, unchanged, to the last known client address via
    /// the shared public socket, then race again.
    ForwardToClient(Vec<u8>),
    /// Nothing to do; race the timer against readiness again.
    AwaitAgain,
}

/// The decision for one relay-loop iteration: a timeout or a read error
/// terminates the session, a datagram is forwarded byte for byte, and a
/// spurious wakeup just restarts the race.
pub fn relay_step(event: BackendEvent) -> (step: RelayStep)
    ensures
        match event {
            BackendEvent::TimerElapsed => step == RelayStep::Terminate(TerminateReason::TimedOut),
            BackendEvent::Datagram(d) => step == RelayStep::ForwardToClient(d),
            BackendEvent::WouldBlock => step == RelayStep::AwaitAgain,
            BackendEvent::ReadError => step == RelayStep::Terminate(TerminateReason::IoError),
        },
{
    match event {
        BackendEvent::TimerElapsed => RelayStep::Terminate(TerminateReason::TimedOut),
        BackendEvent::Datagram(d) => RelayStep::ForwardToClient(d),
        BackendEvent::WouldBlock => RelayStep::AwaitAgain,
        BackendEvent::ReadError => RelayStep::Terminate(TerminateReason::IoError),
    }
}

} // verus!
