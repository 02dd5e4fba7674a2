//! Errors of the real-time event receiver.

use vstd::prelude::*;

verus! {

/// Registering a real-time subscription failed.
#[derive(PartialEq, Eq, Structural, Clone, Copy, Debug)]
pub struct SubscribeError;

/// Removing a real-time subscription failed.
#[derive(PartialEq, Eq, Structural, Clone, Copy, Debug)]
pub struct UnsubscribeError;

/// No event was waiting in the queue.
#[derive(PartialEq, Eq, Structural, Clone, Copy, Debug)]
pub enum TryRecvError {
    /// Nothing queued right now.
    Empty,
    /// The sending side is gone; nothing will arrive any more.
    Disconnected,
}

/// The sending side is gone; nothing will arrive any more.
#[derive(PartialEq, Eq, Structural, Clone, Copy, Debug)]
pub struct RecvError;

/// No event arrived within the given time.
#[derive(PartialEq, Eq, Structural, Clone, Copy, Debug)]
pub enum RecvTimeoutError {
    /// The wait ran out.
    Timeout,
    /// The sending side is gone; nothing will arrive any more.
    Disconnected,
}

impl TryRecvError {
    /// A closed channel, seen from a non-blocking receive.
    pub fn from_recv(_e: RecvError) -> (r: TryRecvError)
        ensures
            r == TryRecvError::Disconnected,
    {
        TryRecvError::Disconnected
    }
}

impl RecvTimeoutError {
    /// A closed channel, seen from a timed receive.
    pub fn from_recv(_e: RecvError) -> (r: RecvTimeoutError)
        ensures
            r == RecvTimeoutError::Disconnected,
    {
        RecvTimeoutError::Disconnected
    }
}

} // verus!
