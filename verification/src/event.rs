//! The lifecycle events that the host hands to an extension.

use vstd::prelude::*;

verus! {

/// A new invocation of the function is about to be processed.
#[derive(Debug, Clone, PartialEq, Eq)]
pub struct InvokeEvent {
    /// The time by which the invocation must complete, in milliseconds since the epoch.
    pub deadline_ms: u64,
    /// The identifier that the host assigned to the request.
    pub request_id: String,
    /// The Amazon Resource Name of the invoked function.
    pub invoked_function_arn: String,
}

/// The execution environment is about to terminate.
#[derive(Debug, Clone, PartialEq, Eq)]
pub struct ShutdownEvent {
    /// Why the environment terminates.
    pub shutdown_reason: String,
    /// The time by which the extension must have stopped, in milliseconds since the epoch.
    pub deadline_ms: u64,
}

/// The event that the host delivers next: one of exactly two kinds.
#[derive(Debug, Clone, PartialEq, Eq)]
pub enum NextEvent {
    /// The function is invoked.
    Invoke(InvokeEvent),
    /// The environment shuts down.
    Shutdown(ShutdownEvent),
}

impl NextEvent {
    /// Whether the event announces an invocation.
    pub fn is_invoke(&self) -> (invoke: bool)
        ensures
            invoke == (self is Invoke),
    {
        match self {
            NextEvent::Invoke(_) => true,
            NextEvent::Shutdown(_) => false,
        }
    }
}

} // verus!
