use vstd::prelude::*;

verus! {

/// Why a stored round could not be read back.
#[derive(Debug, Clone, Copy, PartialEq, Eq, Structural)]
pub enum Error {
    /// Nothing has been stored under the identifier.
    NotFound,
    /// The stored bytes do not decode to a round.
    Deserialize,
}

/// Why a lifecycle request was refused.
#[derive(Debug, Clone, Copy, PartialEq, Eq, Structural)]
pub enum LifecycleError {
    /// `start` was called on a controller that had already started.
    AlreadyStarted,
    /// `stop` was called on a controller that is not running.
    NotRunning,
    /// A stop was confirmed on a controller that was not stopping.
    NotStopping,
    /// The loop went away without acknowledging cancellation.
    Unacknowledged,
}

} // verus!
