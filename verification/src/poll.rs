//! The values a poll hands back, and the ways a task can end badly.

use vstd::prelude::*;

verus! {

/// The outcome of one attempt to advance a task unit.
#[derive(Debug, PartialEq, Eq)]
pub enum Poll<T> {
    /// No result yet; the unit has arranged to be woken.
    Pending,
    /// The unit is done and this is its result.
    Ready(T),
}

/// What a task body reports when it faults.
#[derive(Clone, Copy, Debug, PartialEq, Eq, Structural)]
pub struct Fault {
    /// A code chosen by the faulting body.
    pub code: u64,
}

/// The ways in which a task yields no value.
#[derive(Clone, Copy, Debug, PartialEq, Eq, Structural)]
pub enum TaskError {
    /// The body of a polled task faulted.
    TaskFailure(Fault),
    /// Nothing is ready, nothing is armed, and the awaited task is incomplete.
    DeadlockDetected,
    /// A unit was polled again after it had produced its result.
    DoublePollAfterReady,
    /// The task was cancelled, or was never owned by the executor asked for it.
    CancelledBeforeCompletion,
}

/// What a task hands to whoever awaits it.
pub type Outcome<T> = Result<T, TaskError>;

impl<T> Poll<T> {
    /// Whether this is `Ready`.
    pub fn is_ready(&self) -> (b: bool)
        ensures
            b == (*self is Ready),
    {
        match self {
            Poll::Ready(_) => true,
            Poll::Pending => false,
        }
    }

    /// Whether this is `Pending`.
    pub fn is_pending(&self) -> (b: bool)
        ensures
            b == (*self is Pending),
    {
        match self {
            Poll::Ready(_) => false,
            Poll::Pending => true,
        }
    }
}

} // verus!
