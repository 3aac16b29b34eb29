//! Failure conditions of the agent core.
//!
//! Per-tick sensor and numeric failures are recoverable: the caller skips
//! the affected computation and carries on. Protocol and persistence
//! failures terminate the current session only.

use vstd::prelude::*;

verus! {

/// A reported, catchable failure condition.
#[derive(Clone, Copy, Debug, PartialEq, Eq, Structural)]
pub enum AgentError {
    /// A series that a mean was asked of holds no samples yet.
    NoData,
    /// The recording window was not finalized: `stop_recording` was never
    /// called, or the recorded end lies before the recorded start.
    NotFinalized,
    /// A power query names a guest that was never observed.
    UnknownGuest,
    /// A divisor (host time delta, or recording duration) is zero; the
    /// computation is skipped rather than producing garbage.
    ArithmeticUndefined,
    /// A counter or thermal source could not be read at all.
    SensorUnavailable,
    /// The control channel received an unexpected token; the session is
    /// aborted.
    ProtocolViolation,
    /// A metric file could not be written.
    PersistenceFailure,
}

} // verus!
