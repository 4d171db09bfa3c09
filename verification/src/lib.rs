//! The event reactor behind an asynchronous front end to a callback-driven
//! windowing event loop.
//!
//! The platform loop delivers one event at a time to a callback and accepts
//! one wait policy per invocation. This crate holds the state machines that
//! turn those deliveries into resumptions of suspended computations: the
//! waiter list and event hub, the timer wheel, the reactor that ties them
//! together, and the driver that computes the next wait policy. Everything
//! here is sequential state with `&mut` access; the caller owns the platform
//! loop, performs the wake-ups that the functions hand back, and serialises
//! access when several threads share a reactor.
//!
//! Suspended computations are named by [`Handle`]s, and points on the
//! monotonic clock by [`Nanos`].

pub mod broadcast;
pub mod event_loop;
pub mod filter;
pub mod handler;
pub mod oneoff;
pub mod reactor;
pub mod registration;
pub mod sync;
pub mod timer;
pub mod waiters;
pub mod wheel;

use vstd::prelude::*;

verus! {

/// An opaque resumption handle. It names one suspended computation; waking a
/// handle marks that computation as ready to be polled again. Two handles are
/// equal exactly when waking one would wake the other.
pub type Handle = u64;

/// A point on the monotonic clock, or a span of it, in nanoseconds.
pub type Nanos = u64;

} // verus!
