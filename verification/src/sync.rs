//! The primitives that hold the reactor's shared state, in a variant for a
//! single thread and a variant that other threads may feed.
//!
//! A [`ThreadSafety`] token picks the variant. The reactor is written once
//! against the [`ConcurrentQueue`] contract and works with either.

use crate::reactor::TimerOp;
use std::collections::VecDeque;
use vstd::prelude::*;

verus! {

/// The capacity up to which a bounded queue can be made.
pub const MAX_QUEUE_CAPACITY: usize = 65536;

/// A token that says whether the reactor's state is built from primitives
/// that are safe to share between threads.
pub trait ThreadSafety: Sized {
    /// The queue that absorbs timer operations.
    type ConcurrentQueue: ConcurrentQueue<TimerOp>;
}

/// Use thread-unsafe primitives.
#[derive(Debug, Copy, Clone, PartialEq, Eq, Hash)]
pub struct ThreadUnsafe {
    _private: (),
}

/// Use thread-safe primitives.
#[derive(Debug, Copy, Clone, PartialEq, Eq, Hash)]
pub struct ThreadSafe {
    _private: (),
}

impl ThreadSafety for ThreadUnsafe {
    type ConcurrentQueue = LocalQueue<TimerOp>;
}

impl ThreadSafety for ThreadSafe {
    type ConcurrentQueue = SharedQueue;
}

/// A first-in first-out queue that holds a bounded number of items and hands
/// back the item that it has no room for.
pub trait ConcurrentQueue<T>: Sized {
    /// The items in the queue, oldest first.
    spec fn contents(&self) -> Seq<T>;

    /// The number of items that the queue holds at most.
    spec fn limit(&self) -> nat;

    /// The queue never holds more than its limit.
    spec fn wf(&self) -> bool;

    /// Creates an empty queue with room for at least `capacity` items.
    fn bounded(capacity: usize) -> (queue: Self)
        requires
            0 < capacity <= MAX_QUEUE_CAPACITY,
        ensures
            queue.wf(),
            queue.contents().len() == 0,
            queue.limit() >= capacity,
    ;

    /// Appends an item, or hands it back if the queue does not take it.
    fn push(&mut self, value: T) -> (result: Result<(), T>)
        requires
            old(self).wf(),
        ensures
            final(self).wf(),
            final(self).limit() == old(self).limit(),
            match result {
                Ok(()) => final(self).contents() == old(self).contents().push(value),
                Err(back) => back == value && final(self).contents() == old(self).contents(),
            },
    ;

    /// Takes the oldest item, if there is one.
    fn pop(&mut self) -> (item: Option<T>)
        requires
            old(self).wf(),
        ensures
            final(self).wf(),
            final(self).limit() == old(self).limit(),
            match item {
                Some(first) => {
                    &&& old(self).contents().len() > 0
                    &&& first == old(self).contents()[0]
                    &&& final(self).contents() == old(self).contents().drop_first()
                },
                None => old(self).contents().len() == 0 && final(self).contents() == old(
                    self,
                ).contents(),
            },
    ;

    /// The number of items that the queue holds at most.
    fn capacity(&self) -> (capacity: usize)
        requires
            self.wf(),
        ensures
            capacity == self.limit(),
    ;

    /// A well-formed queue holds no more than its limit.
    proof fn lemma_bounded(&self)
        requires
            self.wf(),
        ensures
            self.contents().len() <= self.limit(),
    ;
}

/// The queue for a single thread. It grows as needed, so its limit is that
/// of the machine.
pub struct LocalQueue<T> {
    items: VecDeque<T>,
}

impl<T> LocalQueue<T> {
    /// An iterator that takes the items out of the queue, oldest first.
    pub fn try_iter(self) -> (iter: TryIter<T>)
        requires
            self.wf(),
        ensures
            iter.remaining() == self.contents(),
    {
        TryIter { queue: self }
    }
}

impl<T> ConcurrentQueue<T> for LocalQueue<T> {
    closed spec fn contents(&self) -> Seq<T> {
        self.items@
    }

    open spec fn limit(&self) -> nat {
        usize::MAX as nat
    }

    closed spec fn wf(&self) -> bool {
        self.items@.len() <= usize::MAX
    }

    fn bounded(capacity: usize) -> (queue: Self) {
        LocalQueue { items: VecDeque::with_capacity(capacity) }
    }

    fn push(&mut self, value: T) -> (result: Result<(), T>)
        ensures
            result is Ok <==> old(self).contents().len() < usize::MAX,
    {
        if self.items.len() == usize::MAX {
            return Err(value);
        }
        self.items.push_back(value);
        Ok(())
    }

    fn pop(&mut self) -> (item: Option<T>) {
        let item = self.items.pop_front();
        proof {
            if item is Some {
                assert(self.items@ =~= old(self).items@.drop_first());
            }
        }
        item
    }

    fn capacity(&self) -> (capacity: usize) {
        usize::MAX
    }

    proof fn lemma_bounded(&self) {
    }
}

/// Takes the items out of a [`LocalQueue`], oldest first.
pub struct TryIter<T> {
    queue: LocalQueue<T>,
}

impl<T> TryIter<T> {
    /// The items that the iterator has yet to yield.
    pub closed spec fn remaining(&self) -> Seq<T> {
        self.queue.contents()
    }

    /// The next item of the queue, or `None` when the queue is empty.
    pub fn next(&mut self) -> (item: Option<T>)
        ensures
            match item {
                Some(first) => {
                    &&& old(self).remaining().len() > 0
                    &&& first == old(self).remaining()[0]
                    &&& final(self).remaining() == old(self).remaining().drop_first()
                },
                None => old(self).remaining().len() == 0 && final(self).remaining() == old(
                    self,
                ).remaining(),
            },
    {
        let item = self.queue.items.pop_front();
        proof {
            if item is Some {
                assert(self.queue.items@ =~= old(self).queue.items@.drop_first());
            }
        }
        item
    }

    /// The queue with the items that the iterator has not taken.
    pub fn into_queue(self) -> (queue: LocalQueue<T>)
        ensures
            queue.wf(),
            queue.contents() == self.remaining(),
    {
        let queue = self.queue;
        let _ = queue.items.len();
        queue
    }
}

/// The queue that other threads may feed: a bounded lock-free queue.
#[verifier::external_body]
pub struct SharedQueue {
    inner: concurrent_queue::ConcurrentQueue<TimerOp>,
}

/// The items that a shared queue holds, oldest first.
pub uninterp spec fn queue_items(queue: SharedQueue) -> Seq<TimerOp>;

/// The capacity that a shared queue was made with.
pub uninterp spec fn queue_limit(queue: SharedQueue) -> usize;

/// `concurrent_queue::ConcurrentQueue::bounded`: an empty queue that takes
/// `capacity` items. The crate panics on a capacity of zero.
#[verifier::external_body]
fn queue_bounded(capacity: usize) -> (queue: SharedQueue)
    requires
        0 < capacity <= MAX_QUEUE_CAPACITY,
    ensures
        queue_items(queue).len() == 0,
        queue_limit(queue) == capacity,
{
    SharedQueue { inner: concurrent_queue::ConcurrentQueue::bounded(capacity) }
}

/// `concurrent_queue::ConcurrentQueue::push`: the item goes behind the
/// others unless the queue is full or closed; then the queue stays as it is
/// and the item comes back. A queue that took the item held fewer items than
/// its capacity.
#[verifier::external_body]
fn queue_push(queue: &mut SharedQueue, value: TimerOp) -> (result: Result<(), TimerOp>)
    ensures
        queue_limit(*final(queue)) == queue_limit(*old(queue)),
        match result {
            Ok(()) => {
                &&& queue_items(*final(queue)) == queue_items(*old(queue)).push(value)
                &&& queue_items(*old(queue)).len() < queue_limit(*old(queue))
            },
            Err(back) => back == value && queue_items(*final(queue)) == queue_items(*old(queue)),
        },
{
    queue.inner.push(value).map_err(|e| e.into_inner())
}

/// `concurrent_queue::ConcurrentQueue::pop`: the oldest item leaves the
/// queue; an error comes only from an empty queue.
#[verifier::external_body]
fn queue_pop(queue: &mut SharedQueue) -> (item: Option<TimerOp>)
    ensures
        queue_limit(*final(queue)) == queue_limit(*old(queue)),
        match item {
            Some(first) => {
                &&& queue_items(*old(queue)).len() > 0
                &&& first == queue_items(*old(queue))[0]
                &&& queue_items(*final(queue)) == queue_items(*old(queue)).drop_first()
            },
            None => queue_items(*old(queue)).len() == 0 && queue_items(*final(queue))
                == queue_items(*old(queue)),
        },
{
    queue.inner.pop().ok()
}

impl ConcurrentQueue<TimerOp> for SharedQueue {
    closed spec fn contents(&self) -> Seq<TimerOp> {
        queue_items(*self)
    }

    closed spec fn limit(&self) -> nat {
        queue_limit(*self) as nat
    }

    closed spec fn wf(&self) -> bool {
        &&& queue_items(*self).len() <= queue_limit(*self)
        &&& 0 < queue_limit(*self) <= MAX_QUEUE_CAPACITY
    }

    fn bounded(capacity: usize) -> (queue: Self) {
        queue_bounded(capacity)
    }

    fn push(&mut self, value: TimerOp) -> (result: Result<(), TimerOp>) {
        queue_push(self, value)
    }

    fn pop(&mut self) -> (item: Option<TimerOp>) {
        let item = queue_pop(self);
        proof {
            if item is Some {
                assert(queue_items(*self).len() == queue_items(*old(self)).len() - 1);
            }
        }
        item
    }

    fn capacity(&self) -> (capacity: usize) {
        match queue_capacity(self) {
            Some(limit) => limit,
            None => MAX_QUEUE_CAPACITY,
        }
    }

    proof fn lemma_bounded(&self) {
    }
}

/// `concurrent_queue::ConcurrentQueue::capacity`: the capacity that the
/// queue was made with. A queue made by `bounded` has one.
#[verifier::external_body]
fn queue_capacity(queue: &SharedQueue) -> (capacity: Option<usize>)
    ensures
        capacity == Some(queue_limit(*queue)),
{
    queue.inner.capacity()
}

/// The sending half of a channel.
pub trait Sender<T>: Sized {
    /// Offers a value to the channel without waiting. A channel that does
    /// not take the value hands it back.
    fn try_send(&self, value: T) -> (result: Result<(), T>)
        ensures
            result matches Err(back) ==> back == value,
    ;
}

/// The receiving half of a channel.
pub trait Receiver<T>: Sized {
    /// Takes a value from the channel if one is waiting.
    fn try_recv(&self) -> Option<T>;

    /// The number of values that the channel holds at most, where it has
    /// such a bound.
    fn capacity(&self) -> Option<usize>;
}

/// The sending half of a bounded channel that threads may share.
#[verifier::external_body]
#[verifier::reject_recursive_types(T)]
pub struct ChannelSender<T> {
    inner: async_channel::Sender<T>,
}

/// The receiving half of a bounded channel that threads may share.
#[verifier::external_body]
#[verifier::reject_recursive_types(T)]
pub struct ChannelReceiver<T> {
    /// The channel's own receiver, for awaiting a value.
    pub inner: async_channel::Receiver<T>,
}

/// `async_channel::bounded`: the two halves of a new channel that holds
/// `capacity` values. The crate panics on a capacity of zero.
#[verifier::external_body]
pub(crate) fn channel_bounded<T>(capacity: usize) -> (halves: (ChannelSender<T>, ChannelReceiver<T>))
    requires
        0 < capacity <= MAX_QUEUE_CAPACITY,
{
    let (tx, rx) = async_channel::bounded(capacity);
    (ChannelSender { inner: tx }, ChannelReceiver { inner: rx })
}

/// `async_channel::Sender::try_send`: a channel that is full or closed
/// hands the value back.
#[verifier::external_body]
fn channel_try_send<T>(sender: &ChannelSender<T>, value: T) -> (result: Result<(), T>)
    ensures
        result matches Err(back) ==> back == value,
{
    sender.inner.try_send(value).map_err(|e| e.into_inner())
}

/// `async_channel::Receiver::try_recv`: the oldest value of the channel,
/// if it holds one.
#[verifier::external_body]
fn channel_try_recv<T>(receiver: &ChannelReceiver<T>) -> Option<T> {
    receiver.inner.try_recv().ok()
}

/// `async_channel::Receiver::capacity`: the capacity that the channel was
/// made with.
#[verifier::external_body]
fn channel_capacity<T>(receiver: &ChannelReceiver<T>) -> Option<usize> {
    receiver.inner.capacity()
}

impl<T> Sender<T> for ChannelSender<T> {
    fn try_send(&self, value: T) -> (result: Result<(), T>) {
        channel_try_send(self, value)
    }
}

impl<T> Receiver<T> for ChannelReceiver<T> {
    fn try_recv(&self) -> Option<T> {
        channel_try_recv(self)
    }

    fn capacity(&self) -> Option<usize> {
        channel_capacity(self)
    }
}

} // verus!
