//! One-off channel, which handles completions of ongoing events.
//!
//! An operation that runs inside the platform callback reports its result
//! through the sending half; the computation that asked for the operation
//! waits on the receiving half.

use crate::sync::{channel_bounded, ChannelReceiver, ChannelSender, Receiver, Sender};
use vstd::prelude::*;

verus! {

/// A oneoff channel that can be used to receive a single event.
#[verifier::reject_recursive_types(T)]
pub struct Oneoff<T> {
    /// The channel used to receive the event.
    rx: ChannelReceiver<T>,
}

impl<T> Oneoff<T> {
    /// The receiving half of the channel that the event comes through.
    pub closed spec fn receiver(&self) -> ChannelReceiver<T> {
        self.rx
    }

    /// The event, if it has been sent and not taken yet.
    pub fn try_recv(&self) -> Option<T> {
        self.rx.try_recv()
    }

    /// The receiving half of the channel, for awaiting the event.
    pub fn into_receiver(self) -> (receiver: ChannelReceiver<T>)
        ensures
            receiver == self.receiver(),
    {
        self.rx
    }
}

/// The sender end of the oneoff channel.
#[verifier::reject_recursive_types(T)]
pub struct Complete<T> {
    /// The channel used to send the event.
    tx: ChannelSender<T>,
}

impl<T> Complete<T> {
    /// Send the event. An event that the channel does not take is dropped.
    pub fn send(self, event: T) {
        let _ = self.tx.try_send(event);
    }
}

/// Create a pair of oneoff channels.
pub fn oneoff<T>() -> (Complete<T>, Oneoff<T>) {
    let (tx, rx) = channel_bounded(1);
    (Complete { tx }, Oneoff { rx })
}

} // verus!
