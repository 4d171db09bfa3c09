use async_winit::event_loop::Wakeup;
use async_winit::oneoff::oneoff;
use async_winit::reactor::TimerOp;
use async_winit::sync::{ConcurrentQueue, LocalQueue, SharedQueue};

#[test]
fn shared_queue_is_bounded_and_fifo() {
    let mut queue = SharedQueue::bounded(2);
    assert_eq!(queue.capacity(), 2);
    assert_eq!(queue.pop(), None);
    assert_eq!(queue.push(TimerOp::InsertTimer(1, 1, 1)), Ok(()));
    assert_eq!(queue.push(TimerOp::RemoveTimer(2, 2)), Ok(()));
    // Full: the operation comes back.
    assert_eq!(queue.push(TimerOp::RemoveTimer(3, 3)), Err(TimerOp::RemoveTimer(3, 3)));
    assert_eq!(queue.pop(), Some(TimerOp::InsertTimer(1, 1, 1)));
    assert_eq!(queue.push(TimerOp::RemoveTimer(3, 3)), Ok(()));
    assert_eq!(queue.pop(), Some(TimerOp::RemoveTimer(2, 2)));
    assert_eq!(queue.pop(), Some(TimerOp::RemoveTimer(3, 3)));
    assert_eq!(queue.pop(), None);
}

#[test]
fn shared_queue_of_one() {
    let mut queue = SharedQueue::bounded(1);
    assert_eq!(queue.capacity(), 1);
    assert_eq!(queue.push(TimerOp::RemoveTimer(1, 1)), Ok(()));
    assert_eq!(queue.push(TimerOp::RemoveTimer(2, 2)), Err(TimerOp::RemoveTimer(2, 2)));
    assert_eq!(queue.pop(), Some(TimerOp::RemoveTimer(1, 1)));
}

#[test]
fn local_queue_grows() {
    let mut queue: LocalQueue<u32> = LocalQueue::bounded(2);
    assert_eq!(queue.capacity(), usize::MAX);
    for n in 0..10 {
        assert_eq!(queue.push(n), Ok(()));
    }
    assert_eq!(queue.pop(), Some(0));
    let mut iter = queue.try_iter();
    let mut taken = Vec::new();
    for _ in 0..7 {
        taken.extend(iter.next());
    }
    assert_eq!(taken, vec![1, 2, 3, 4, 5, 6, 7]);
    // What the iterator has not taken stays in the queue.
    let mut queue = iter.into_queue();
    assert_eq!(queue.pop(), Some(8));
    let mut iter = queue.try_iter();
    assert_eq!(iter.next(), Some(9));
    assert_eq!(iter.next(), None);
    assert_eq!(iter.into_queue().pop(), None);
}

#[test]
fn oneoff_delivers_one_event() {
    let (complete, oneoff) = oneoff::<u32>();
    assert_eq!(oneoff.try_recv(), None);
    complete.send(5);
    assert_eq!(oneoff.try_recv(), Some(5));
    assert_eq!(oneoff.try_recv(), None);
}

#[test]
fn oneoff_receiver_can_be_awaited_on() {
    let (complete, oneoff) = oneoff::<&'static str>();
    complete.send("built");
    let receiver = oneoff.into_receiver();
    assert_eq!(receiver.inner.try_recv().ok(), Some("built"));
}

#[test]
fn wakeups_are_all_alike() {
    assert_eq!(Wakeup::new(), Wakeup::new());
}
