//! What the platform loop and the reactor exchange.

use vstd::prelude::*;

verus! {

/// Used to indicate that we need to wake up the event loop.
///
/// This is what travels through the platform loop's proxy when the reactor
/// asks for the loop to be woken. It carries nothing: its arrival is the
/// message.
#[derive(Debug, Clone, Copy, PartialEq, Eq, Hash)]
pub struct Wakeup {
    _private: (),
}

impl Wakeup {
    /// The wake-up signal.
    pub fn new() -> Wakeup {
        Wakeup { _private: () }
    }
}

} // verus!
