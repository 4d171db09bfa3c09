//! The reactor: the state that the driver and every suspended computation
//! share. It holds the exit request, the timer wheel with the queue of
//! timer operations in front of it, the bounded queue of operations that
//! must run inside the platform callback, and the notifier that decides
//! whether the platform loop has to be woken.

use crate::sync::{ConcurrentQueue, ThreadSafety};
use crate::wheel::{due_count, insert_into, remove_from, sorted, wakers_of, Scheduled, TimerWheel};
use crate::wheel::{lemma_insert_into, lemma_remove_from};
use crate::{Handle, Nanos};
use std::collections::VecDeque;
use vstd::prelude::*;

verus! {

/// The number of timer operations that the queue in front of the wheel
/// absorbs.
pub const TIMER_QUEUE_CAPACITY: usize = 1024;

/// The number of operations that wait for the platform callback at most.
pub const LOOP_QUEUE_CAPACITY: usize = 1024;

/// A change to the timer wheel that waits in the queue of timer operations.
#[derive(Clone, Copy, Debug, PartialEq, Eq, Structural)]
pub enum TimerOp {
    /// Add a new timer.
    InsertTimer(Nanos, usize, Handle),
    /// Delete an existing timer.
    RemoveTimer(Nanos, usize),
}

/// The wheel after one timer operation.
pub open spec fn apply(wheel: Seq<Scheduled>, op: TimerOp) -> Seq<Scheduled> {
    match op {
        TimerOp::InsertTimer(deadline, id, waker) => insert_into(wheel, Scheduled { deadline, id, waker }),
        TimerOp::RemoveTimer(deadline, id) => remove_from(wheel, deadline, id),
    }
}

/// The wheel after the timer operations `ops`, oldest first.
pub open spec fn settle(wheel: Seq<Scheduled>, ops: Seq<TimerOp>) -> Seq<Scheduled>
    decreases ops.len(),
{
    if ops.len() == 0 {
        wheel
    } else {
        settle(apply(wheel, ops[0]), ops.drop_first())
    }
}

/// An operation that joins the queue is the last to reach the wheel.
pub proof fn lemma_settle_push(wheel: Seq<Scheduled>, ops: Seq<TimerOp>, op: TimerOp)
    ensures
        settle(wheel, ops.push(op)) == apply(settle(wheel, ops), op),
    decreases ops.len(),
{
    reveal_with_fuel(settle, 2);
    if ops.len() == 0 {
        assert(ops.push(op).drop_first() =~= ops);
    } else {
        assert(ops.push(op).drop_first() =~= ops.drop_first().push(op));
        lemma_settle_push(apply(wheel, ops[0]), ops.drop_first(), op);
    }
}

/// Scheduled operations keep a sorted wheel sorted.
pub proof fn lemma_settle_sorted(wheel: Seq<Scheduled>, ops: Seq<TimerOp>)
    requires
        sorted(wheel),
    ensures
        sorted(settle(wheel, ops)),
    decreases ops.len(),
{
    if ops.len() > 0 {
        match ops[0] {
            TimerOp::InsertTimer(deadline, id, waker) => {
                lemma_insert_into(wheel, Scheduled { deadline, id, waker });
            },
            TimerOp::RemoveTimer(deadline, id) => {
                lemma_remove_from(wheel, deadline, id);
            },
        }
        lemma_settle_sorted(apply(wheel, ops[0]), ops.drop_first());
    }
}

/// Decides whether the platform loop has to be woken through its proxy.
///
/// The loop is woken at most once until the driver has taken note, and not
/// at all while the driver is awake and will look by itself.
#[derive(Clone, Copy, Debug, PartialEq, Eq, Structural)]
pub struct ReactorWaker {
    /// Whether or not we are already notified.
    pub notified: bool,
    /// Whether or not the driver is awake.
    pub awake: bool,
}

impl ReactorWaker {
    /// The notifier of a loop that has not run yet: it counts as notified,
    /// so that the first tick polls.
    pub fn new() -> (waker: ReactorWaker)
        ensures
            waker.notified,
            !waker.awake,
    {
        ReactorWaker { notified: true, awake: false }
    }

    /// Note that something wants the loop to look. Returns `true` when the
    /// caller has to send the wake-up through the proxy.
    pub fn notify(&mut self) -> (send: bool)
        ensures
            final(self).notified,
            final(self).awake == old(self).awake,
            send == (!old(self).notified && !old(self).awake),
    {
        // If we are already notified, don't notify again.
        let already = self.notified;
        self.notified = true;
        if already {
            return false;
        }
        // If the driver is awake it polls by itself.
        !self.awake
    }
}

/// The notifier with its `notified` flag set to `notified`.
pub open spec fn with_notified(notifier: Option<ReactorWaker>, notified: bool) -> Option<
    ReactorWaker,
> {
    match notifier {
        Some(waker) => Some(ReactorWaker { notified, awake: waker.awake }),
        None => None,
    }
}

/// The notifier with its `awake` flag set to `awake`.
pub open spec fn with_awake(notifier: Option<ReactorWaker>, awake: bool) -> Option<ReactorWaker> {
    match notifier {
        Some(waker) => Some(ReactorWaker { notified: waker.notified, awake }),
        None => None,
    }
}

/// The reactor was started before: a platform loop is running, or has run,
/// in this process.
#[derive(Clone, Copy, Debug, PartialEq, Eq)]
pub struct AlreadyStarted {
    _private: (),
}

impl AlreadyStarted {
    /// What went wrong, for whoever reads the diagnostic.
    pub fn message(&self) -> (text: &'static str)
        ensures
            text@ == "the event loop was started a second time; a process has one event loop"@,
    {
        "the event loop was started a second time; a process has one event loop"
    }
}

/// The shared state of the event loop.
pub struct Reactor<TS: ThreadSafety, Op> {
    /// The exit code to exit with, if an exit was requested.
    exit_code: Option<i32>,
    /// The operations that wait to run inside the platform callback.
    evl_ops: VecDeque<Op>,
    /// How many operations wait at most.
    evl_capacity: usize,
    /// The notifier, set when the platform loop starts.
    proxy: Option<ReactorWaker>,
    /// The timer wheel.
    timers: TimerWheel,
    /// Queue of timer operations.
    timer_op_queue: TS::ConcurrentQueue,
    /// The next timer id.
    timer_id: usize,
}

/// What became of an operation that was offered to the queue.
pub enum Pushed<Op> {
    /// The operation waits in the queue. The flag says whether the caller
    /// has to wake the platform loop.
    Queued(bool),
    /// The queue is full. The operation comes back; its producer waits until
    /// the driver has drained the queue and offers it again.
    Full(Op),
}

impl<TS: ThreadSafety, Op> Reactor<TS, Op> {
    pub closed spec fn wf(&self) -> bool {
        &&& self.timers.wf()
        &&& self.timer_op_queue.wf()
        &&& self.evl_ops@.len() <= self.evl_capacity
    }

    /// The exit code that was requested last, if any was.
    pub closed spec fn exit_code(&self) -> Option<i32> {
        self.exit_code
    }

    /// The notifier, once the platform loop has started.
    pub closed spec fn notifier(&self) -> Option<ReactorWaker> {
        self.proxy
    }

    /// The timers on the wheel.
    pub closed spec fn wheel(&self) -> Seq<Scheduled> {
        self.timers@
    }

    /// The timer operations that have not reached the wheel yet.
    pub closed spec fn pending(&self) -> Seq<TimerOp> {
        self.timer_op_queue.contents()
    }

    /// The timers that are pending: the wheel as it stands once the queued
    /// operations have reached it.
    pub open spec fn timers(&self) -> Seq<Scheduled> {
        settle(self.wheel(), self.pending())
    }

    /// The id that the next timer gets.
    pub closed spec fn next_id(&self) -> usize {
        self.timer_id
    }

    /// The operations that wait for the platform callback, oldest first.
    pub closed spec fn operations(&self) -> Seq<Op> {
        self.evl_ops@
    }

    /// How many operations wait at most.
    pub closed spec fn capacity(&self) -> usize {
        self.evl_capacity
    }

    /// Whether `notify` asks the caller to wake the platform loop.
    pub open spec fn wakes(&self) -> bool {
        match self.notifier() {
            Some(waker) => !waker.notified && !waker.awake,
            None => false,
        }
    }

    /// The pending timers of a well-formed reactor are sorted.
    pub proof fn lemma_timers_sorted(&self)
        requires
            self.wf(),
        ensures
            sorted(self.timers()),
    {
        self.timers.lemma_sorted();
        lemma_settle_sorted(self.wheel(), self.pending());
    }

    /// A reactor with no timers, no operations and no exit request.
    pub fn new() -> (reactor: Self)
        ensures
            reactor.wf(),
            reactor.exit_code() is None,
            reactor.notifier() is None,
            reactor.wheel().len() == 0,
            reactor.pending().len() == 0,
            reactor.operations().len() == 0,
            reactor.capacity() == LOOP_QUEUE_CAPACITY,
            reactor.next_id() == 1,
    {
        Self::with_capacity(LOOP_QUEUE_CAPACITY)
    }

    /// A reactor whose queue of operations holds `capacity` operations.
    pub fn with_capacity(capacity: usize) -> (reactor: Self)
        ensures
            reactor.wf(),
            reactor.exit_code() is None,
            reactor.notifier() is None,
            reactor.wheel().len() == 0,
            reactor.pending().len() == 0,
            reactor.operations().len() == 0,
            reactor.capacity() == capacity,
            reactor.next_id() == 1,
    {
        Reactor {
            exit_code: None,
            evl_ops: VecDeque::new(),
            evl_capacity: capacity,
            proxy: None,
            timers: TimerWheel::new(),
            timer_op_queue: TS::ConcurrentQueue::bounded(TIMER_QUEUE_CAPACITY),
            timer_id: 1,
        }
    }

    /// Start the reactor for a platform loop: give it its notifier. There is
    /// one platform loop in a process, so a reactor starts once; a second
    /// start is refused and changes nothing.
    pub fn start(&mut self, proxy: ReactorWaker) -> (started: Result<(), AlreadyStarted>)
        ensures
            started is Ok <==> old(self).notifier() is None,
            final(self).notifier() == if old(self).notifier() is None {
                Some(proxy)
            } else {
                old(self).notifier()
            },
            final(self).wf() == old(self).wf(),
            final(self).exit_code() == old(self).exit_code(),
            final(self).wheel() == old(self).wheel(),
            final(self).pending() == old(self).pending(),
            final(self).operations() == old(self).operations(),
            final(self).capacity() == old(self).capacity(),
            final(self).next_id() == old(self).next_id(),
    {
        if self.proxy.is_none() {
            self.proxy = Some(proxy);
            Ok(())
        } else {
            Err(AlreadyStarted { _private: () })
        }
    }

    /// Get whether or not we need to exit, and the code as well.
    pub fn exit_requested(&self) -> (code: Option<i32>)
        ensures
            code == self.exit_code(),
    {
        self.exit_code
    }

    /// Request that the event loop exit with `code`. The last request
    /// decides the code. Returns whether the caller has to wake the
    /// platform loop.
    pub fn request_exit(&mut self, code: i32) -> (wake: bool)
        ensures
            final(self).exit_code() == Some(code),
            wake == old(self).wakes(),
            final(self).notifier() == with_notified(old(self).notifier(), true),
            final(self).wf() == old(self).wf(),
            final(self).wheel() == old(self).wheel(),
            final(self).pending() == old(self).pending(),
            final(self).operations() == old(self).operations(),
            final(self).capacity() == old(self).capacity(),
            final(self).next_id() == old(self).next_id(),
    {
        self.exit_code = Some(code);
        self.notify()
    }

    /// Note that the platform loop has something to look at. Returns whether
    /// the caller has to wake it through the proxy.
    pub fn notify(&mut self) -> (wake: bool)
        ensures
            wake == old(self).wakes(),
            final(self).notifier() == with_notified(old(self).notifier(), true),
            final(self).wf() == old(self).wf(),
            final(self).exit_code() == old(self).exit_code(),
            final(self).wheel() == old(self).wheel(),
            final(self).pending() == old(self).pending(),
            final(self).operations() == old(self).operations(),
            final(self).capacity() == old(self).capacity(),
            final(self).next_id() == old(self).next_id(),
    {
        match &mut self.proxy {
            Some(proxy) => proxy.notify(),
            None => false,
        }
    }

    /// The driver takes note of a notification: returns whether there was
    /// one, and clears it.
    pub fn take_notification(&mut self) -> (notified: bool)
        ensures
            notified == match old(self).notifier() {
                Some(waker) => waker.notified,
                None => false,
            },
            final(self).notifier() == with_notified(old(self).notifier(), false),
            final(self).wf() == old(self).wf(),
            final(self).exit_code() == old(self).exit_code(),
            final(self).wheel() == old(self).wheel(),
            final(self).pending() == old(self).pending(),
            final(self).operations() == old(self).operations(),
            final(self).capacity() == old(self).capacity(),
            final(self).next_id() == old(self).next_id(),
    {
        match &mut self.proxy {
            Some(proxy) => {
                let notified = proxy.notified;
                proxy.notified = false;
                notified
            },
            None => false,
        }
    }

    /// Whether a notification waits for the driver.
    pub fn is_notified(&self) -> (notified: bool)
        ensures
            notified == match self.notifier() {
                Some(waker) => waker.notified,
                None => false,
            },
    {
        match &self.proxy {
            Some(proxy) => proxy.notified,
            None => false,
        }
    }

    /// Record whether the driver is awake, that is inside a batch of
    /// events.
    pub fn set_awake(&mut self, awake: bool)
        ensures
            final(self).notifier() == with_awake(old(self).notifier(), awake),
            final(self).wf() == old(self).wf(),
            final(self).exit_code() == old(self).exit_code(),
            final(self).wheel() == old(self).wheel(),
            final(self).pending() == old(self).pending(),
            final(self).operations() == old(self).operations(),
            final(self).capacity() == old(self).capacity(),
            final(self).next_id() == old(self).next_id(),
    {
        match &mut self.proxy {
            Some(proxy) => {
                proxy.awake = awake;
            },
            None => {},
        }
    }

    /// Hand one timer operation to the wheel, through the queue if the
    /// queue takes it.
    fn submit(&mut self, op: TimerOp)
        requires
            old(self).wf(),
        ensures
            final(self).wf(),
            final(self).timers() == apply(old(self).timers(), op),
            final(self).exit_code() == old(self).exit_code(),
            final(self).notifier() == old(self).notifier(),
            final(self).operations() == old(self).operations(),
            final(self).capacity() == old(self).capacity(),
            final(self).next_id() == old(self).next_id(),
    {
        proof {
            lemma_settle_push(self.wheel(), self.pending(), op);
        }
        match self.timer_op_queue.push(op) {
            Ok(()) => {},
            Err(back) => {
                // The queue is full: bring the wheel up to date, then the
                // operation can go straight to it.
                self.process_timer_ops();
                self.apply_op(back);
            },
        }
    }

    /// Apply one timer operation to the wheel.
    fn apply_op(&mut self, op: TimerOp)
        requires
            old(self).wf(),
        ensures
            final(self).wf(),
            final(self).wheel() == apply(old(self).wheel(), op),
            final(self).timer_op_queue == old(self).timer_op_queue,
            final(self).exit_code() == old(self).exit_code(),
            final(self).notifier() == old(self).notifier(),
            final(self).operations() == old(self).operations(),
            final(self).capacity() == old(self).capacity(),
            final(self).next_id() == old(self).next_id(),
    {
        match op {
            TimerOp::InsertTimer(deadline, id, waker) => {
                self.timers.insert(Scheduled { deadline, id, waker });
            },
            TimerOp::RemoveTimer(deadline, id) => {
                let _ = self.timers.remove(deadline, id);
            },
        }
    }

    /// Insert a new timer into the timer wheel. Returns the timer's id, and
    /// whether the caller has to wake the platform loop so that it computes
    /// its wait anew.
    pub fn insert_timer(&mut self, deadline: Nanos, waker: Handle) -> (inserted: (usize, bool))
        requires
            old(self).wf(),
        ensures
            final(self).wf(),
            inserted.0 == old(self).next_id(),
            inserted.1 == old(self).wakes(),
            final(self).next_id() == if old(self).next_id() == usize::MAX {
                0
            } else {
                old(self).next_id() + 1
            },
            final(self).timers() == insert_into(
                old(self).timers(),
                Scheduled { deadline, id: inserted.0, waker },
            ),
            final(self).notifier() == with_notified(old(self).notifier(), true),
            final(self).exit_code() == old(self).exit_code(),
            final(self).operations() == old(self).operations(),
            final(self).capacity() == old(self).capacity(),
    {
        // Generate a new ID.
        let id = self.timer_id;
        self.timer_id = if id == usize::MAX {
            0
        } else {
            id + 1
        };
        // Insert the timer into the timer wheel.
        self.submit(TimerOp::InsertTimer(deadline, id, waker));
        // Notify that we have new timers.
        let wake = self.notify();
        (id, wake)
    }

    /// Remove a timer from the timer wheel.
    pub fn remove_timer(&mut self, deadline: Nanos, id: usize)
        requires
            old(self).wf(),
        ensures
            final(self).wf(),
            final(self).timers() == remove_from(old(self).timers(), deadline, id),
            final(self).exit_code() == old(self).exit_code(),
            final(self).notifier() == old(self).notifier(),
            final(self).operations() == old(self).operations(),
            final(self).capacity() == old(self).capacity(),
            final(self).next_id() == old(self).next_id(),
    {
        self.submit(TimerOp::RemoveTimer(deadline, id));
    }

    /// Process pending timer operations: every operation in the queue
    /// reaches the wheel, oldest first.
    fn process_timer_ops(&mut self)
        requires
            old(self).wf(),
        ensures
            final(self).wf(),
            final(self).pending().len() == 0,
            final(self).wheel() == old(self).timers(),
            final(self).exit_code() == old(self).exit_code(),
            final(self).notifier() == old(self).notifier(),
            final(self).operations() == old(self).operations(),
            final(self).capacity() == old(self).capacity(),
            final(self).next_id() == old(self).next_id(),
    {
        // A full queue is the most that there is to process.
        let limit = self.timer_op_queue.capacity();
        let mut done: usize = 0;
        proof {
            self.timer_op_queue.lemma_bounded();
        }
        while done < limit
            invariant
                self.wf(),
                done <= limit,
                limit == self.timer_op_queue.limit(),
                self.pending().len() + done <= limit,
                self.timers() == old(self).timers(),
                self.exit_code() == old(self).exit_code(),
                self.notifier() == old(self).notifier(),
                self.operations() == old(self).operations(),
                self.capacity() == old(self).capacity(),
                self.next_id() == old(self).next_id(),
            ensures
                self.pending().len() == 0,
            decreases limit - done,
        {
            match self.timer_op_queue.pop() {
                None => {
                    break ;
                },
                Some(op) => {
                    self.apply_op(op);
                },
            }
            done = done + 1;
        }
    }

    /// Process timers: the queued operations reach the wheel, every timer
    /// whose deadline is at or before `now` leaves it, in the order in which
    /// they fell due, and their handles are added to `wakers`. Returns the
    /// nearest deadline that remains.
    pub fn process_timers(&mut self, now: Nanos, wakers: &mut Vec<Handle>) -> (next: Option<Nanos>)
        requires
            old(self).wf(),
        ensures
            final(self).wf(),
            final(self).pending().len() == 0,
            final(self).timers() == old(self).timers().skip(
                due_count(old(self).timers(), now) as int,
            ),
            final(wakers)@ == old(wakers)@ + wakers_of(
                old(self).timers().take(due_count(old(self).timers(), now) as int),
            ),
            next == if final(self).timers().len() > 0 {
                Some(final(self).timers()[0].deadline)
            } else {
                None
            },
            final(self).exit_code() == old(self).exit_code(),
            final(self).notifier() == old(self).notifier(),
            final(self).operations() == old(self).operations(),
            final(self).capacity() == old(self).capacity(),
            final(self).next_id() == old(self).next_id(),
    {
        // Process incoming timer operations.
        self.process_timer_ops();
        self.timers.process(now, wakers)
    }

    /// Push an event loop operation. A full queue hands the operation back.
    pub fn push_event_loop_op(&mut self, op: Op) -> (pushed: Pushed<Op>)
        requires
            old(self).wf(),
        ensures
            final(self).wf(),
            match pushed {
                Pushed::Queued(wake) => {
                    &&& old(self).operations().len() < old(self).capacity()
                    &&& final(self).operations() == old(self).operations().push(op)
                    &&& wake == old(self).wakes()
                    &&& final(self).notifier() == with_notified(old(self).notifier(), true)
                },
                Pushed::Full(back) => {
                    &&& old(self).operations().len() == old(self).capacity()
                    &&& back == op
                    &&& final(self).operations() == old(self).operations()
                    &&& final(self).notifier() == old(self).notifier()
                },
            },
            final(self).exit_code() == old(self).exit_code(),
            final(self).wheel() == old(self).wheel(),
            final(self).pending() == old(self).pending(),
            final(self).capacity() == old(self).capacity(),
            final(self).next_id() == old(self).next_id(),
    {
        if self.evl_ops.len() >= self.evl_capacity {
            return Pushed::Full(op);
        }
        self.evl_ops.push_back(op);
        // Notify the event loop that there is a new operation.
        let wake = self.notify();
        Pushed::Queued(wake)
    }

    /// Drain the event loop operation queue: every operation that waits
    /// leaves the queue, oldest first.
    pub fn drain_loop_queue(&mut self) -> (ops: Vec<Op>)
        requires
            old(self).wf(),
        ensures
            final(self).wf(),
            ops@ == old(self).operations(),
            final(self).operations().len() == 0,
            final(self).exit_code() == old(self).exit_code(),
            final(self).notifier() == old(self).notifier(),
            final(self).wheel() == old(self).wheel(),
            final(self).pending() == old(self).pending(),
            final(self).capacity() == old(self).capacity(),
            final(self).next_id() == old(self).next_id(),
    {
        let mut ops: Vec<Op> = Vec::new();
        let total = self.evl_ops.len();
        let mut taken: usize = 0;
        while taken < total
            invariant
                self.wf(),
                taken <= total,
                total == old(self).operations().len(),
                ops@ == old(self).operations().take(taken as int),
                self.operations() == old(self).operations().skip(taken as int),
                self.exit_code() == old(self).exit_code(),
                self.notifier() == old(self).notifier(),
                self.wheel() == old(self).wheel(),
                self.pending() == old(self).pending(),
                self.capacity() == old(self).capacity(),
                self.next_id() == old(self).next_id(),
            decreases total - taken,
        {
            match self.evl_ops.pop_front() {
                Some(op) => {
                    proof {
                        assert(old(self).operations().take(taken + 1) =~= old(
                            self,
                        ).operations().take(taken as int).push(op));
                        assert(self.evl_ops@ =~= old(self).operations().skip(taken + 1));
                    }
                    ops.push(op);
                },
                None => {},
            }
            taken = taken + 1;
        }
        proof {
            assert(ops@ =~= old(self).operations());
        }
        ops
    }
}

} // verus!
