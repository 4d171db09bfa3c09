//! The broadcast channel behind streaming listeners.
//!
//! Every subscriber gets a copy of every event that is sent after it
//! subscribed, in the order in which the events were sent, as long as it
//! keeps up. The channel holds a bounded number of events. When it is full
//! the oldest event gives way to the new one, and a subscriber that had not
//! read it yet misses it.

use crate::waiters::Poll;
use crate::Handle;
use std::collections::VecDeque;
use vstd::prelude::*;

verus! {

/// The model of a broadcast channel.
pub struct Channel<T> {
    /// Every event that was sent, oldest first.
    pub sent: Seq<T>,
    /// How many events the channel keeps.
    pub capacity: nat,
    /// The handles of the subscribers that wait for the next event.
    pub waiting: Seq<Handle>,
}

impl<T> Channel<T> {
    /// A channel through which nothing has been sent.
    pub open spec fn empty(capacity: nat) -> Channel<T> {
        Channel { sent: Seq::empty(), capacity, waiting: Seq::empty() }
    }

    /// The number of the oldest event that the channel still keeps.
    pub open spec fn oldest(self) -> nat {
        if self.sent.len() <= self.capacity {
            0
        } else {
            (self.sent.len() - self.capacity) as nat
        }
    }

    /// The number of the event that a subscriber reads next, when it has
    /// read everything before the event `next`: the subscriber skips what
    /// the channel no longer keeps.
    pub open spec fn cursor(self, next: nat) -> nat {
        if next < self.oldest() {
            self.oldest()
        } else {
            next
        }
    }
}

/// A subscriber's place in the stream of events.
pub struct Subscriber {
    /// The number of the next event to read.
    next: u64,
}

impl Subscriber {
    /// The number of the next event that the subscriber reads, if the
    /// channel still keeps it.
    pub closed spec fn next(&self) -> nat {
        self.next as nat
    }
}

/// A broadcast channel that drops its oldest event on overflow.
pub struct Broadcast<T> {
    /// The events that the channel keeps, oldest first.
    buffer: VecDeque<T>,
    /// How many events the channel keeps.
    capacity: usize,
    /// The number of events that were sent.
    count: u64,
    /// The handles of the subscribers that wait for the next event.
    waiting: Vec<Handle>,
    /// Every event that was sent.
    sent: Ghost<Seq<T>>,
}

impl<T> View for Broadcast<T> {
    type V = Channel<T>;

    closed spec fn view(&self) -> Channel<T> {
        Channel { sent: self.sent@, capacity: self.capacity as nat, waiting: self.waiting@ }
    }
}

impl<T> Broadcast<T> {
    /// The buffer holds the newest events, as many as the capacity allows.
    pub closed spec fn wf(&self) -> bool {
        &&& self.capacity > 0
        &&& self.count == self.sent@.len()
        &&& self.buffer@ == self.sent@.skip(self@.oldest() as int)
    }

    /// The numbers of the events fit the counter.
    pub proof fn lemma_bounded(&self)
        requires
            self.wf(),
        ensures
            self@.sent.len() <= u64::MAX,
            self@.capacity > 0,
    {
    }

    /// A channel that keeps `capacity` events.
    pub fn new(capacity: usize) -> (channel: Self)
        requires
            capacity > 0,
        ensures
            channel.wf(),
            channel@.sent.len() == 0,
            channel@.capacity == capacity,
            channel@.waiting.len() == 0,
    {
        let channel = Broadcast {
            buffer: VecDeque::new(),
            capacity,
            count: 0,
            waiting: Vec::new(),
            sent: Ghost(Seq::empty()),
        };
        proof {
            assert(channel.buffer@ =~= channel.sent@.skip(0));
        }
        channel
    }

    /// A subscriber that reads the events sent from now on.
    pub fn subscribe(&self) -> (subscriber: Subscriber)
        requires
            self.wf(),
        ensures
            subscriber.next() == self@.sent.len(),
    {
        Subscriber { next: self.count }
    }

    /// Send an event to every subscriber. The subscribers that wait are to
    /// be woken: their handles move to `wake`. A full channel drops its
    /// oldest event.
    ///
    /// Returns `false`, and does nothing, if the channel has run out of
    /// numbers for its events.
    pub fn send(&mut self, event: T, wake: &mut Vec<Handle>) -> (sent: bool)
        requires
            old(self).wf(),
        ensures
            final(self).wf(),
            final(self)@.capacity == old(self)@.capacity,
            sent == (old(self)@.sent.len() < u64::MAX),
            if sent {
                &&& final(self)@.sent == old(self)@.sent.push(event)
                &&& final(self)@.waiting.len() == 0
                &&& final(wake)@ == old(wake)@ + old(self)@.waiting
            } else {
                &&& final(self)@ == old(self)@
                &&& final(wake)@ == old(wake)@
            },
    {
        if self.count == u64::MAX {
            return false;
        }
        let ghost before = *self;
        if self.buffer.len() >= self.capacity {
            let _ = self.buffer.pop_front();
        }
        self.buffer.push_back(event);
        self.count = self.count + 1;
        self.sent = Ghost(before.sent@.push(event));
        wake.append(&mut self.waiting);
        proof {
            assert(before.buffer@.len() == before.sent@.len() - before@.oldest());
            assert(self.buffer@ =~= self.sent@.skip(self@.oldest() as int));
        }
        true
    }

    /// Forget that the task behind `task` waits for the next event.
    pub fn forget(&mut self, task: Handle)
        requires
            old(self).wf(),
        ensures
            final(self).wf(),
            final(self)@.sent == old(self)@.sent,
            final(self)@.capacity == old(self)@.capacity,
            final(self)@.waiting == old(self)@.waiting.filter(|h: Handle| h != task),
    {
        let ghost keep = |h: Handle| h != task;
        let mut kept: Vec<Handle> = Vec::new();
        let total = self.waiting.len();
        let mut i: usize = 0;
        while i < total
            invariant
                i <= total,
                total == self.waiting@.len(),
                self.waiting@ == old(self).waiting@,
                keep == (|h: Handle| h != task),
                kept@ == self.waiting@.take(i as int).filter(keep),
            decreases total - i,
        {
            let handle = self.waiting[i];
            proof {
                assert(self.waiting@.take(i + 1).drop_last() =~= self.waiting@.take(i as int));
                reveal(Seq::filter);
            }
            if handle != task {
                kept.push(handle);
            }
            i = i + 1;
        }
        proof {
            assert(self.waiting@.take(total as int) =~= self.waiting@);
        }
        self.waiting = kept;
    }
}

impl<T: Clone> Broadcast<T> {
    /// Poll for the subscriber's next event, with `task` as the handle to
    /// resume.
    ///
    /// The subscriber reads the oldest event that it has not read, or, if
    /// the channel has dropped that one, the oldest event that the channel
    /// still keeps. With no event to read, `task` joins the handles that the
    /// next `send` wakes.
    pub fn poll_recv(&mut self, subscriber: &mut Subscriber, task: Handle) -> (event: Poll<T>)
        requires
            old(self).wf(),
        ensures
            final(self).wf(),
            final(self)@.sent == old(self)@.sent,
            final(self)@.capacity == old(self)@.capacity,
            ({
                let at = old(self)@.cursor(old(subscriber).next());
                if at < old(self)@.sent.len() {
                    &&& event is Ready
                    &&& cloned(old(self)@.sent[at as int], event->Ready_0)
                    &&& final(subscriber).next() == at + 1
                    &&& final(self)@.waiting == old(self)@.waiting
                } else {
                    &&& event is Pending
                    &&& final(subscriber).next() == old(subscriber).next()
                    &&& final(self)@.waiting == if old(self)@.waiting.contains(task) {
                        old(self)@.waiting
                    } else {
                        old(self)@.waiting.push(task)
                    }
                }
            }),
    {
        let held = self.buffer.len();
        assert(held == self.sent@.len() - self@.oldest());
        let oldest: u64 = self.count - (held as u64);
        let at: u64 = if subscriber.next < oldest {
            oldest
        } else {
            subscriber.next
        };
        if at < self.count {
            let index = (at - oldest) as usize;
            let event = self.buffer[index].clone();
            subscriber.next = at + 1;
            Poll::Ready(event)
        } else {
            let mut known = false;
            let mut i: usize = 0;
            while i < self.waiting.len()
                invariant
                    i <= self.waiting@.len(),
                    self.waiting@ == old(self).waiting@,
                    known == exists|j: int| 0 <= j < i && self.waiting@[j] == task,
                decreases self.waiting@.len() - i,
            {
                if self.waiting[i] == task {
                    known = true;
                }
                i = i + 1;
            }
            if !known {
                self.waiting.push(task);
            }
            Poll::Pending
        }
    }
}

/// A subscriber that keeps up misses nothing.
///
/// A subscriber that has read everything up to the event `next`, of a
/// channel that has not dropped that event, reads exactly that event next.
/// A subscriber that has fallen behind reads the oldest event that the
/// channel keeps: what it misses are the events that overflowed, oldest
/// first, and never more.
pub proof fn lemma_subscriber_misses_only_overflow<T>(channel: Channel<T>, next: nat)
    requires
        next <= channel.sent.len(),
    ensures
        channel.cursor(next) <= channel.sent.len(),
        channel.cursor(next) >= next,
        channel.sent.len() - next <= channel.capacity ==> channel.cursor(next) == next,
        channel.sent.len() - channel.cursor(next) <= channel.capacity,
{
}

} // verus!
