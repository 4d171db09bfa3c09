//! The driver: what runs inside the platform's callback, once per event.
//!
//! The platform loop hands the callback one event at a time and takes one
//! wait policy back. A tick of the driver goes through these steps, in this
//! order, and the caller does the outside work between them:
//!
//! 1. [`Filter::begin`] looks at the kind of event. At the start of a batch
//!    it marks the loop awake and brings the timers up to date.
//! 2. The caller dispatches the event to the hubs. While a hold barrier
//!    keeps the dispatch from finishing, the caller calls
//!    [`Filter::blocked`] once and then, round by round, drains the queue
//!    of operations, calls [`Filter::park_step`], wakes the handles it got
//!    and parks until it is woken or the deadline passes.
//! 3. While [`Filter::should_poll`] says so, the caller polls the top-level
//!    computation once, reports with [`Filter::polled`] and runs the
//!    operations that it gets.
//! 4. [`Filter::finish`] hands out the operations to run and the timer
//!    handles to wake when the batch is over.
//! 5. [`Filter::control_flow`] computes the wait policy.

use crate::reactor::{with_awake, with_notified, AlreadyStarted, Reactor, ReactorWaker};
use crate::sync::ThreadSafety;
use crate::wheel::{due_count, wakers_of};
use crate::{Handle, Nanos};
use vstd::prelude::*;

verus! {

/// Either a function returned, or an associated future returned first.
#[derive(Debug, Clone, Copy, PartialEq, Eq, Hash)]
pub enum ReturnOrFinish<O, T> {
    /// The function returned.
    Output(O),
    /// The associated future returned first.
    FutureReturned(T),
}

/// What the driver has to know of a platform event.
#[derive(Debug, Clone, Copy, PartialEq, Eq, Structural)]
pub enum Tick {
    /// A new batch of events starts.
    NewEvents,
    /// The batch of events is over; the loop is about to wait.
    RedrawEventsCleared,
    /// Any other event.
    Other,
}

/// The wait policy that the platform loop is given after an event.
#[derive(Debug, Clone, Copy, PartialEq, Eq, Structural)]
pub enum ControlFlow {
    /// Come back at once.
    Poll,
    /// Wait until an event arrives.
    Wait,
    /// Wait until an event arrives or the deadline passes.
    WaitUntil(Nanos),
    /// Leave the loop with this code.
    ExitWithCode(i32),
}

/// The earlier of two deadlines, where `None` is no deadline at all.
pub open spec fn earliest(a: Option<Nanos>, b: Option<Nanos>) -> Option<Nanos> {
    match (a, b) {
        (None, None) => None,
        (Some(x), None) => Some(x),
        (None, Some(x)) => Some(x),
        (Some(x), Some(y)) => if x <= y {
            Some(x)
        } else {
            Some(y)
        },
    }
}

/// The wait policy: an exit request ends the loop whatever else is pending;
/// else a computation that yielded while it was still woken is polled again
/// at once; else the loop waits for the nearest timer, or for the next
/// event if no timer is pending.
pub open spec fn next_flow(exit: Option<i32>, yielding: bool, deadline: Option<Nanos>) -> ControlFlow {
    match exit {
        Some(code) => ControlFlow::ExitWithCode(code),
        None => if yielding {
            ControlFlow::Poll
        } else {
            match deadline {
                Some(at) => ControlFlow::WaitUntil(at),
                None => ControlFlow::Wait,
            }
        },
    }
}

/// The earlier of two deadlines.
pub fn nearest(a: Option<Nanos>, b: Option<Nanos>) -> (deadline: Option<Nanos>)
    ensures
        deadline == earliest(a, b),
{
    match (a, b) {
        (None, None) => None,
        (Some(x), None) => Some(x),
        (None, Some(x)) => Some(x),
        (Some(x), Some(y)) => if x <= y {
            Some(x)
        } else {
            Some(y)
        },
    }
}

/// The filter for passing events to `async` contexts.
pub struct Filter {
    /// The deadline to wait until.
    deadline: Option<Nanos>,
    /// The handles to wake up later.
    wakers: Vec<Handle>,
    /// The future has indicated that it wants to yield.
    yielding: bool,
}

impl Filter {
    /// The deadline of the nearest timer, as of the start of the batch.
    pub closed spec fn deadline(&self) -> Option<Nanos> {
        self.deadline
    }

    /// The handles of the timers that fired and have not been woken yet.
    pub closed spec fn wakers(&self) -> Seq<Handle> {
        self.wakers@
    }

    /// The computation asked to be left alone until the next batch.
    pub closed spec fn yielding(&self) -> bool {
        self.yielding
    }

    /// Create the filter of a platform loop and start the reactor for it.
    /// The notifier starts out notified, so the first tick polls. A reactor
    /// that was started before refuses, and no filter is made.
    pub fn new<TS: ThreadSafety, Op>(reactor: &mut Reactor<TS, Op>) -> (filter: Result<
        Filter,
        AlreadyStarted,
    >)
        ensures
            filter is Ok <==> old(reactor).notifier() is None,
            filter matches Ok(made) ==> made.deadline() is None && made.wakers().len() == 0
                && !made.yielding(),
            final(reactor).notifier() == if old(reactor).notifier() is None {
                Some(ReactorWaker { notified: true, awake: false })
            } else {
                old(reactor).notifier()
            },
            final(reactor).wf() == old(reactor).wf(),
            final(reactor).exit_code() == old(reactor).exit_code(),
            final(reactor).wheel() == old(reactor).wheel(),
            final(reactor).pending() == old(reactor).pending(),
            final(reactor).operations() == old(reactor).operations(),
            final(reactor).capacity() == old(reactor).capacity(),
            final(reactor).next_id() == old(reactor).next_id(),
    {
        match reactor.start(ReactorWaker::new()) {
            Ok(()) => Ok(Filter { deadline: None, wakers: Vec::new(), yielding: false }),
            Err(refused) => Err(refused),
        }
    }

    /// Take note of the kind of event. Returns whether the loop is about to
    /// fall asleep.
    ///
    /// At the start of a batch the computation stops yielding, the loop
    /// counts as awake, the timers that are due at `now` leave the wheel
    /// and their handles are kept for the end of the batch, and the nearest
    /// remaining deadline is noted. At the end of a batch the loop counts as
    /// asleep.
    pub fn begin<TS: ThreadSafety, Op>(
        &mut self,
        reactor: &mut Reactor<TS, Op>,
        tick: Tick,
        now: Nanos,
    ) -> (about_to_sleep: bool)
        requires
            old(reactor).wf(),
        ensures
            final(reactor).wf(),
            about_to_sleep == (tick == Tick::RedrawEventsCleared),
            match tick {
                Tick::NewEvents => {
                    let due = due_count(old(reactor).timers(), now) as int;
                    &&& !final(self).yielding()
                    &&& final(reactor).notifier() == with_awake(old(reactor).notifier(), true)
                    &&& final(reactor).timers() == old(reactor).timers().skip(due)
                    &&& final(self).wakers() == old(self).wakers() + wakers_of(
                        old(reactor).timers().take(due),
                    )
                    &&& final(self).deadline() == if final(reactor).timers().len() > 0 {
                        Some(final(reactor).timers()[0].deadline)
                    } else {
                        None
                    }
                },
                Tick::RedrawEventsCleared => {
                    &&& final(self).yielding() == old(self).yielding()
                    &&& final(reactor).notifier() == with_awake(old(reactor).notifier(), false)
                    &&& final(reactor).timers() == old(reactor).timers()
                    &&& final(self).wakers() == old(self).wakers()
                    &&& final(self).deadline() == old(self).deadline()
                },
                Tick::Other => {
                    &&& final(self).yielding() == old(self).yielding()
                    &&& final(reactor).notifier() == old(reactor).notifier()
                    &&& final(reactor).timers() == old(reactor).timers()
                    &&& final(self).wakers() == old(self).wakers()
                    &&& final(self).deadline() == old(self).deadline()
                },
            },
            final(reactor).exit_code() == old(reactor).exit_code(),
            final(reactor).operations() == old(reactor).operations(),
            final(reactor).capacity() == old(reactor).capacity(),
            final(reactor).next_id() == old(reactor).next_id(),
    {
        match tick {
            Tick::NewEvents => {
                // Stop yielding now.
                self.yielding = false;
                // We were previously asleep and are now awake.
                reactor.set_awake(true);
                // Figure out how long we should wait for.
                self.deadline = reactor.process_timers(now, &mut self.wakers);
                // We are not about to fall asleep.
                false
            },
            Tick::RedrawEventsCleared => {
                // We are about to fall asleep, so make sure that the future knows it.
                reactor.set_awake(false);
                true
            },
            Tick::Other => false,
        }
    }

    /// The dispatch of the event did not finish at once: a listener holds
    /// the event. The computation is interested, so it stops yielding.
    pub fn blocked(&mut self)
        ensures
            !final(self).yielding(),
            final(self).deadline() == old(self).deadline(),
            final(self).wakers() == old(self).wakers(),
    {
        self.yielding = false;
    }

    /// One round of waiting for a held event. The timers that are due at
    /// `now` leave the wheel. Their handles, and those kept from the start
    /// of the batch, go to `wake`, to be woken now. Returns until when to
    /// park: the earlier of the nearest remaining deadline and the deadline
    /// noted at the start of the batch, or `None` to park until woken.
    pub fn park_step<TS: ThreadSafety, Op>(
        &mut self,
        reactor: &mut Reactor<TS, Op>,
        now: Nanos,
        wake: &mut Vec<Handle>,
    ) -> (until: Option<Nanos>)
        requires
            old(reactor).wf(),
        ensures
            final(reactor).wf(),
            final(reactor).timers() == old(reactor).timers().skip(
                due_count(old(reactor).timers(), now) as int,
            ),
            final(wake)@ == old(wake)@ + old(self).wakers() + wakers_of(
                old(reactor).timers().take(due_count(old(reactor).timers(), now) as int),
            ),
            final(self).wakers().len() == 0,
            until == earliest(
                if final(reactor).timers().len() > 0 {
                    Some(final(reactor).timers()[0].deadline)
                } else {
                    None
                },
                old(self).deadline(),
            ),
            final(self).deadline() == old(self).deadline(),
            final(self).yielding() == old(self).yielding(),
            final(reactor).exit_code() == old(reactor).exit_code(),
            final(reactor).notifier() == old(reactor).notifier(),
            final(reactor).operations() == old(reactor).operations(),
            final(reactor).capacity() == old(reactor).capacity(),
            final(reactor).next_id() == old(reactor).next_id(),
    {
        // Handle timers.
        let current = reactor.process_timers(now, &mut self.wakers);
        let until = nearest(current, self.deadline);
        // Wake any wakers that need to be woken.
        wake.append(&mut self.wakers);
        proof {
            assert(wake@ =~= old(wake)@ + old(self).wakers() + wakers_of(
                old(reactor).timers().take(due_count(old(reactor).timers(), now) as int),
            ));
        }
        until
    }

    /// Whether the top-level computation is to be polled now: it has not
    /// yielded, and something has woken it since it was last polled. The
    /// notification is taken note of.
    pub fn should_poll<TS: ThreadSafety, Op>(&self, reactor: &mut Reactor<TS, Op>) -> (poll: bool)
        ensures
            poll == (!self.yielding() && match old(reactor).notifier() {
                Some(waker) => waker.notified,
                None => false,
            }),
            final(reactor).notifier() == if self.yielding() {
                old(reactor).notifier()
            } else {
                with_notified(old(reactor).notifier(), false)
            },
            final(reactor).wf() == old(reactor).wf(),
            final(reactor).exit_code() == old(reactor).exit_code(),
            final(reactor).wheel() == old(reactor).wheel(),
            final(reactor).pending() == old(reactor).pending(),
            final(reactor).operations() == old(reactor).operations(),
            final(reactor).capacity() == old(reactor).capacity(),
            final(reactor).next_id() == old(reactor).next_id(),
    {
        !self.yielding && reactor.take_notification()
    }

    /// The top-level computation was polled. If it is still pending and was
    /// woken again while it ran, it is yielding: it wants to stop hogging
    /// the loop, and is not polled again before the next batch. A pending
    /// computation may have asked for operations: the queue of operations
    /// is drained, and the operations are returned for the caller to run.
    pub fn polled<TS: ThreadSafety, Op>(&mut self, reactor: &mut Reactor<TS, Op>, pending: bool) -> (ops:
        Vec<Op>)
        requires
            old(reactor).wf(),
        ensures
            final(reactor).wf(),
            final(self).yielding() == (old(self).yielding() || (pending && match old(
                reactor,
            ).notifier() {
                Some(waker) => waker.notified,
                None => false,
            })),
            final(self).deadline() == old(self).deadline(),
            final(self).wakers() == old(self).wakers(),
            ops@ == if pending {
                old(reactor).operations()
            } else {
                Seq::empty()
            },
            final(reactor).operations() == if pending {
                Seq::empty()
            } else {
                old(reactor).operations()
            },
            final(reactor).notifier() == old(reactor).notifier(),
            final(reactor).exit_code() == old(reactor).exit_code(),
            final(reactor).wheel() == old(reactor).wheel(),
            final(reactor).pending() == old(reactor).pending(),
            final(reactor).capacity() == old(reactor).capacity(),
            final(reactor).next_id() == old(reactor).next_id(),
    {
        if pending {
            if reactor.is_notified() {
                self.yielding = true;
            }
            // Drain the incoming queue of requests.
            let ops = reactor.drain_loop_queue();
            proof {
                assert(reactor.operations() =~= Seq::empty());
            }
            ops
        } else {
            Vec::new()
        }
    }

    /// The end of the tick. If the loop is about to sleep, the queue of
    /// operations is drained and the operations are returned for the caller
    /// to run, and the handles of the timers that fired go to `wake`, to be
    /// woken now.
    pub fn finish<TS: ThreadSafety, Op>(
        &mut self,
        reactor: &mut Reactor<TS, Op>,
        about_to_sleep: bool,
        wake: &mut Vec<Handle>,
    ) -> (ops: Vec<Op>)
        requires
            old(reactor).wf(),
        ensures
            final(reactor).wf(),
            final(wake)@ == if about_to_sleep {
                old(wake)@ + old(self).wakers()
            } else {
                old(wake)@
            },
            final(self).wakers() == if about_to_sleep {
                Seq::empty()
            } else {
                old(self).wakers()
            },
            ops@ == if about_to_sleep {
                old(reactor).operations()
            } else {
                Seq::empty()
            },
            final(reactor).operations() == if about_to_sleep {
                Seq::empty()
            } else {
                old(reactor).operations()
            },
            final(self).deadline() == old(self).deadline(),
            final(self).yielding() == old(self).yielding(),
            final(reactor).notifier() == old(reactor).notifier(),
            final(reactor).exit_code() == old(reactor).exit_code(),
            final(reactor).wheel() == old(reactor).wheel(),
            final(reactor).pending() == old(reactor).pending(),
            final(reactor).capacity() == old(reactor).capacity(),
            final(reactor).next_id() == old(reactor).next_id(),
    {
        if about_to_sleep {
            let ops = reactor.drain_loop_queue();
            wake.append(&mut self.wakers);
            proof {
                assert(reactor.operations() =~= Seq::empty());
            }
            ops
        } else {
            Vec::new()
        }
    }

    /// The wait policy for the platform loop.
    pub fn control_flow<TS: ThreadSafety, Op>(&self, reactor: &Reactor<TS, Op>) -> (flow: ControlFlow)
        ensures
            flow == next_flow(reactor.exit_code(), self.yielding(), self.deadline()),
    {
        if let Some(code) = reactor.exit_requested() {
            // The user wants to exit.
            ControlFlow::ExitWithCode(code)
        } else if self.yielding {
            // The future wants to be polled again as soon as possible.
            ControlFlow::Poll
        } else if let Some(deadline) = self.deadline {
            // The future wants to be polled again when the deadline is reached.
            ControlFlow::WaitUntil(deadline)
        } else {
            ControlFlow::Wait
        }
    }
}

} // verus!
