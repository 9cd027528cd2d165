//! The errors that bus operations report.

use vstd::prelude::*;

verus! {

/// Errors returned by [`MessageBus`](crate::MessageBus) operations.
///
/// `Send` is what a bus answers when it cannot take another message: a bounded bus
/// that already holds as many pending messages as its capacity. `HandlerLockPoisoned`
/// is reported by callers that share a bus behind a lock, when that lock was poisoned
/// by a panic in another thread.
#[derive(Debug, Clone, Copy, PartialEq, Eq, Structural)]
pub enum BarkerError {
    /// The message could not be enqueued.
    Send,
    /// The lock that guards a shared bus was poisoned by a previous panic.
    HandlerLockPoisoned,
}

/// Convenience alias for [`core::result::Result`] specialised to [`BarkerError`].
pub type Result<T> = core::result::Result<T, BarkerError>;

impl BarkerError {
    /// The human-readable description of the error.
    pub fn message(&self) -> (text: &'static str)
        ensures
            *self == BarkerError::Send ==> text@ == "failed to enqueue message: bus channel disconnected"@,
            *self == BarkerError::HandlerLockPoisoned ==> text@ == "handler registry lock poisoned"@,
    {
        match self {
            BarkerError::Send => "failed to enqueue message: bus channel disconnected",
            BarkerError::HandlerLockPoisoned => "handler registry lock poisoned",
        }
    }
}

} // verus!
