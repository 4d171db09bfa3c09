//! Timers: a deadline, and a period for timers that repeat.
//!
//! A timer that its owner polls registers itself on the reactor's wheel.
//! When its deadline has passed, the poll reports the deadline and the
//! timer moves on by its period. A timer that cannot move on, because the
//! clock has no room for the next deadline, never fires again.

use crate::reactor::{with_notified, Reactor};
use crate::sync::ThreadSafety;
use crate::waiters::Poll;
use crate::wheel::{insert_into, remove_from, Scheduled};
use crate::{Handle, Nanos};
use vstd::prelude::*;

verus! {

/// The period of a timer that fires once: no deadline has room for it.
pub const NEVER_AGAIN: Nanos = 0xffff_ffff_ffff_ffff;

/// A future or stream that emits timer events.
pub struct Timer {
    /// This timer's ID and the handle that last polled it.
    id_and_waker: Option<(usize, Handle)>,
    /// The time at which this timer will fire.
    deadline: Option<Nanos>,
    /// The period.
    period: Nanos,
}

/// The deadline after `deadline` for a timer with this period, if the clock
/// has room for it.
pub open spec fn following(deadline: Nanos, period: Nanos) -> Option<Nanos> {
    if deadline + period <= Nanos::MAX {
        Some((deadline + period) as Nanos)
    } else {
        None
    }
}

/// The pending timers once this timer's registration is gone.
pub open spec fn without(
    timers: Seq<Scheduled>,
    deadline: Option<Nanos>,
    registration: Option<(usize, Handle)>,
) -> Seq<Scheduled> {
    match (deadline, registration) {
        (Some(at), Some((id, _))) => remove_from(timers, at, id),
        _ => timers,
    }
}

impl Timer {
    /// When the timer fires next, if it does.
    pub closed spec fn deadline(&self) -> Option<Nanos> {
        self.deadline
    }

    /// The period by which the timer moves on when it has fired.
    pub closed spec fn period(&self) -> Nanos {
        self.period
    }

    /// The id under which the timer is on the wheel, and the handle that it
    /// resumes, if it is registered.
    pub closed spec fn registration(&self) -> Option<(usize, Handle)> {
        self.id_and_waker
    }

    /// Create a new timer that will never fire.
    pub fn never() -> (timer: Timer)
        ensures
            timer.deadline() is None,
            timer.period() == NEVER_AGAIN,
            timer.registration() is None,
    {
        Timer { id_and_waker: None, deadline: None, period: NEVER_AGAIN }
    }

    /// Returns `true` if this timer will eventually return `Poll::Ready`.
    pub fn will_fire(&self) -> (fires: bool)
        ensures
            fires == (self.deadline() is Some),
    {
        self.deadline.is_some()
    }

    /// Create a timer that fires `duration` after `now`, or never if the
    /// clock has no room for that.
    pub fn after(now: Nanos, duration: Nanos) -> (timer: Timer)
        ensures
            timer.deadline() == following(now, duration),
            timer.period() == NEVER_AGAIN,
            timer.registration() is None,
    {
        match now.checked_add(duration) {
            Some(deadline) => Self::at(deadline),
            None => Self::never(),
        }
    }

    /// Create a timer that fires at the given time.
    pub fn at(deadline: Nanos) -> (timer: Timer)
        ensures
            timer.deadline() == Some(deadline),
            timer.period() == NEVER_AGAIN,
            timer.registration() is None,
    {
        Self::interval_at(deadline, NEVER_AGAIN)
    }

    /// Create a timer that fires on an interval, first one period after
    /// `now`; or never if the clock has no room for that.
    pub fn interval(now: Nanos, period: Nanos) -> (timer: Timer)
        ensures
            timer.deadline() == following(now, period),
            timer.period() == if following(now, period) is Some {
                period
            } else {
                NEVER_AGAIN
            },
            timer.registration() is None,
    {
        match now.checked_add(period) {
            Some(deadline) => Self::interval_at(deadline, period),
            None => Self::never(),
        }
    }

    /// Create a timer that fires on an interval starting at the given time.
    pub fn interval_at(start: Nanos, period: Nanos) -> (timer: Timer)
        ensures
            timer.deadline() == Some(start),
            timer.period() == period,
            timer.registration() is None,
    {
        Timer { id_and_waker: None, deadline: Some(start), period }
    }

    /// Take the timer off the wheel and forget its deadline and its
    /// registration.
    fn clear<TS: ThreadSafety, Op>(&mut self, reactor: &mut Reactor<TS, Op>)
        requires
            old(reactor).wf(),
        ensures
            final(reactor).wf(),
            final(reactor).timers() == without(
                old(reactor).timers(),
                old(self).deadline(),
                old(self).registration(),
            ),
            final(self).period() == old(self).period(),
            final(self).deadline() is None,
            final(self).registration() is None,
            final(reactor).exit_code() == old(reactor).exit_code(),
            final(reactor).notifier() == old(reactor).notifier(),
            final(reactor).operations() == old(reactor).operations(),
            final(reactor).capacity() == old(reactor).capacity(),
            final(reactor).next_id() == old(reactor).next_id(),
    {
        let deadline = self.deadline;
        let registration = self.id_and_waker;
        self.deadline = None;
        self.id_and_waker = None;
        match (deadline, registration) {
            (Some(deadline), Some((id, _))) => {
                reactor.remove_timer(deadline, id);
            },
            _ => {},
        }
    }

    /// Take the timer off the wheel for good. This is what has to happen to
    /// a timer that goes away.
    pub fn cancel<TS: ThreadSafety, Op>(self, reactor: &mut Reactor<TS, Op>)
        requires
            old(reactor).wf(),
        ensures
            final(reactor).wf(),
            final(reactor).timers() == without(
                old(reactor).timers(),
                self.deadline(),
                self.registration(),
            ),
            final(reactor).exit_code() == old(reactor).exit_code(),
            final(reactor).notifier() == old(reactor).notifier(),
            final(reactor).operations() == old(reactor).operations(),
            final(reactor).capacity() == old(reactor).capacity(),
            final(reactor).next_id() == old(reactor).next_id(),
    {
        let mut timer = self;
        timer.clear(reactor);
    }

    /// Set this timer to never fire.
    pub fn set_never<TS: ThreadSafety, Op>(&mut self, reactor: &mut Reactor<TS, Op>)
        requires
            old(reactor).wf(),
        ensures
            final(reactor).wf(),
            final(reactor).timers() == without(
                old(reactor).timers(),
                old(self).deadline(),
                old(self).registration(),
            ),
            final(self).deadline() is None,
            final(self).period() == old(self).period(),
            final(self).registration() is None,
            final(reactor).exit_code() == old(reactor).exit_code(),
            final(reactor).notifier() == old(reactor).notifier(),
            final(reactor).operations() == old(reactor).operations(),
            final(reactor).capacity() == old(reactor).capacity(),
            final(reactor).next_id() == old(reactor).next_id(),
    {
        self.clear(reactor);
        self.deadline = None;
    }

    /// Set this timer to run on an interval starting at the given time.
    /// The timer leaves the wheel; its next poll puts it back.
    pub fn set_interval_at<TS: ThreadSafety, Op>(
        &mut self,
        reactor: &mut Reactor<TS, Op>,
        start: Nanos,
        period: Nanos,
    )
        requires
            old(reactor).wf(),
        ensures
            final(reactor).wf(),
            final(self).deadline() == Some(start),
            final(self).period() == period,
            final(self).registration() is None,
            final(reactor).timers() == without(
                old(reactor).timers(),
                old(self).deadline(),
                old(self).registration(),
            ),
            final(reactor).exit_code() == old(reactor).exit_code(),
            final(reactor).notifier() == old(reactor).notifier(),
            final(reactor).operations() == old(reactor).operations(),
            final(reactor).capacity() == old(reactor).capacity(),
            final(reactor).next_id() == old(reactor).next_id(),
    {
        self.clear(reactor);
        self.deadline = Some(start);
        self.period = period;
    }

    /// Set this timer to fire at the given deadline.
    pub fn set_at<TS: ThreadSafety, Op>(&mut self, reactor: &mut Reactor<TS, Op>, deadline: Nanos)
        requires
            old(reactor).wf(),
        ensures
            final(reactor).wf(),
            final(self).deadline() == Some(deadline),
            final(self).period() == NEVER_AGAIN,
            final(self).registration() is None,
            final(reactor).timers() == without(
                old(reactor).timers(),
                old(self).deadline(),
                old(self).registration(),
            ),
            final(reactor).exit_code() == old(reactor).exit_code(),
            final(reactor).notifier() == old(reactor).notifier(),
            final(reactor).operations() == old(reactor).operations(),
            final(reactor).capacity() == old(reactor).capacity(),
            final(reactor).next_id() == old(reactor).next_id(),
    {
        self.set_interval_at(reactor, deadline, NEVER_AGAIN)
    }

    /// Set this timer to fire `duration` after `now`, or never if the clock
    /// has no room for that.
    pub fn set_after<TS: ThreadSafety, Op>(
        &mut self,
        reactor: &mut Reactor<TS, Op>,
        now: Nanos,
        duration: Nanos,
    )
        requires
            old(reactor).wf(),
        ensures
            final(reactor).wf(),
            final(self).deadline() == following(now, duration),
            final(self).period() == if following(now, duration) is Some {
                NEVER_AGAIN
            } else {
                old(self).period()
            },
            final(self).registration() is None,
            final(reactor).timers() == without(
                old(reactor).timers(),
                old(self).deadline(),
                old(self).registration(),
            ),
            final(reactor).exit_code() == old(reactor).exit_code(),
            final(reactor).notifier() == old(reactor).notifier(),
            final(reactor).operations() == old(reactor).operations(),
            final(reactor).capacity() == old(reactor).capacity(),
            final(reactor).next_id() == old(reactor).next_id(),
    {
        match now.checked_add(duration) {
            Some(deadline) => self.set_at(reactor, deadline),
            None => self.set_never(reactor),
        }
    }

    /// Set this timer to run at an interval, first one period after `now`;
    /// or never if the clock has no room for that.
    pub fn set_interval<TS: ThreadSafety, Op>(
        &mut self,
        reactor: &mut Reactor<TS, Op>,
        now: Nanos,
        period: Nanos,
    )
        requires
            old(reactor).wf(),
        ensures
            final(reactor).wf(),
            final(self).deadline() == following(now, period),
            final(self).period() == if following(now, period) is Some {
                period
            } else {
                old(self).period()
            },
            final(self).registration() is None,
            final(reactor).timers() == without(
                old(reactor).timers(),
                old(self).deadline(),
                old(self).registration(),
            ),
            final(reactor).exit_code() == old(reactor).exit_code(),
            final(reactor).notifier() == old(reactor).notifier(),
            final(reactor).operations() == old(reactor).operations(),
            final(reactor).capacity() == old(reactor).capacity(),
            final(reactor).next_id() == old(reactor).next_id(),
    {
        match now.checked_add(period) {
            Some(deadline) => self.set_interval_at(reactor, deadline, period),
            None => self.set_never(reactor),
        }
    }

    /// Poll the timer at `now`, with `task` as the handle to resume.
    ///
    /// A timer whose deadline lies before `now` fires: the poll is ready
    /// with the deadline, the timer leaves the wheel, and it goes back on
    /// it one period later, under a new id and with `task` as its handle,
    /// unless the clock has no room for that deadline; then the timer never
    /// fires again. A timer that has not fired makes sure that it is on the
    /// wheel with `task` as its handle, and the poll is pending. The flag
    /// returned says whether the caller has to wake the platform loop.
    pub fn poll_next<TS: ThreadSafety, Op>(
        &mut self,
        reactor: &mut Reactor<TS, Op>,
        now: Nanos,
        task: Handle,
    ) -> (polled: (Poll<Nanos>, bool))
        requires
            old(reactor).wf(),
        ensures
            final(reactor).wf(),
            final(self).period() == old(self).period(),
            match old(self).deadline() {
                None => {
                    &&& polled.0 is Pending
                    &&& !polled.1
                    &&& final(self).deadline() is None
                    &&& final(self).registration() == old(self).registration()
                    &&& final(reactor).timers() == old(reactor).timers()
                    &&& final(reactor).next_id() == old(reactor).next_id()
                    &&& final(reactor).notifier() == old(reactor).notifier()
                },
                Some(at) if at < now => {
                    let cleared = without(old(reactor).timers(), Some(at), old(self).registration());
                    &&& polled.0 == Poll::Ready(at)
                    &&& final(self).deadline() == following(at, old(self).period())
                    &&& match following(at, old(self).period()) {
                        Some(next) => {
                            &&& final(self).registration() == Some((old(reactor).next_id(), task))
                            &&& final(reactor).timers() == insert_into(
                                cleared,
                                Scheduled { deadline: next, id: old(reactor).next_id(), waker: task },
                            )
                            &&& polled.1 == old(reactor).wakes()
                            &&& final(reactor).notifier() == with_notified(
                                old(reactor).notifier(),
                                true,
                            )
                        },
                        None => {
                            &&& final(self).registration() is None
                            &&& final(reactor).timers() == cleared
                            &&& !polled.1
                            &&& final(reactor).notifier() == old(reactor).notifier()
                            &&& final(reactor).next_id() == old(reactor).next_id()
                        },
                    }
                },
                Some(at) => {
                    &&& polled.0 is Pending
                    &&& final(self).deadline() == Some(at)
                    &&& match old(self).registration() {
                        Some((id, waker)) if waker == task => {
                            &&& final(self).registration() == old(self).registration()
                            &&& final(reactor).timers() == old(reactor).timers()
                            &&& !polled.1
                            &&& final(reactor).notifier() == old(reactor).notifier()
                            &&& final(reactor).next_id() == old(reactor).next_id()
                        },
                        _ => {
                            &&& final(self).registration() == Some((old(reactor).next_id(), task))
                            &&& final(reactor).timers() == insert_into(
                                without(old(reactor).timers(), Some(at), old(self).registration()),
                                Scheduled { deadline: at, id: old(reactor).next_id(), waker: task },
                            )
                            &&& polled.1 == old(reactor).wakes()
                            &&& final(reactor).notifier() == with_notified(
                                old(reactor).notifier(),
                                true,
                            )
                        },
                    }
                },
            },
            final(reactor).exit_code() == old(reactor).exit_code(),
            final(reactor).operations() == old(reactor).operations(),
            final(reactor).capacity() == old(reactor).capacity(),
    {
        let deadline = match self.deadline {
            Some(deadline) => deadline,
            None => {
                return (Poll::Pending, false);
            },
        };
        // Check if the timer is ready.
        if deadline < now {
            if let Some((id, _)) = self.id_and_waker {
                self.id_and_waker = None;
                reactor.remove_timer(deadline, id);
            }
            let mut wake = false;
            match deadline.checked_add(self.period) {
                Some(next) => {
                    self.deadline = Some(next);
                    // Register the timer into the reactor.
                    let (id, woke) = reactor.insert_timer(next, task);
                    self.id_and_waker = Some((id, task));
                    wake = woke;
                },
                None => {
                    self.deadline = None;
                },
            }
            // Return the time that we fired at.
            (Poll::Ready(deadline), wake)
        } else {
            match self.id_and_waker {
                None => {
                    // This timer needs to be registered.
                    let (id, wake) = reactor.insert_timer(deadline, task);
                    self.id_and_waker = Some((id, task));
                    (Poll::Pending, wake)
                },
                Some((id, waker)) => {
                    if waker != task {
                        // Deregister timer and remove the old waker.
                        reactor.remove_timer(deadline, id);
                        // Register the timer into the reactor.
                        let (id, wake) = reactor.insert_timer(deadline, task);
                        self.id_and_waker = Some((id, task));
                        (Poll::Pending, wake)
                    } else {
                        (Poll::Pending, false)
                    }
                },
            }
        }
    }
}

} // verus!
