use async_winit::filter::{nearest, ControlFlow, Filter, Tick};
use async_winit::reactor::{Pushed, Reactor, ReactorWaker};
use async_winit::sync::{ThreadSafe, ThreadUnsafe};
use async_winit::timer::{Timer, NEVER_AGAIN};
use async_winit::waiters::Poll;
use async_winit::wheel::{Scheduled, TimerWheel};

#[test]
fn wheel_orders_by_deadline_then_id() {
    let mut wheel = TimerWheel::new();
    wheel.insert(Scheduled { deadline: 30, id: 1, waker: 100 });
    wheel.insert(Scheduled { deadline: 10, id: 2, waker: 200 });
    wheel.insert(Scheduled { deadline: 10, id: 1, waker: 300 });
    wheel.insert(Scheduled { deadline: 20, id: 7, waker: 400 });
    assert_eq!(wheel.len(), 4);
    assert_eq!(wheel.next_deadline(), Some(10));
    let mut wakers = Vec::new();
    assert_eq!(wheel.process(20, &mut wakers), Some(30));
    assert_eq!(wakers, vec![300, 200, 400]);
    assert_eq!(wheel.len(), 1);
    assert_eq!(wheel.process(29, &mut wakers), Some(30));
    assert_eq!(wakers, vec![300, 200, 400]);
    assert_eq!(wheel.process(30, &mut wakers), None);
    assert_eq!(wakers, vec![300, 200, 400, 100]);
    assert_eq!(wheel.len(), 0);
}

#[test]
fn wheel_insert_replaces_same_key() {
    let mut wheel = TimerWheel::new();
    wheel.insert(Scheduled { deadline: 5, id: 1, waker: 1 });
    wheel.insert(Scheduled { deadline: 5, id: 1, waker: 2 });
    assert_eq!(wheel.len(), 1);
    assert_eq!(wheel.remove(5, 1), Some(2));
    assert_eq!(wheel.remove(5, 1), None);
    assert_eq!(wheel.next_deadline(), None);
}

#[test]
fn wheel_remove_keeps_the_others() {
    let mut wheel = TimerWheel::new();
    for id in 0..5usize {
        wheel.insert(Scheduled { deadline: 100 - id as u64, id, waker: id as u64 });
    }
    assert_eq!(wheel.remove(98, 2), Some(2));
    assert_eq!(wheel.remove(98, 3), None);
    let mut wakers = Vec::new();
    assert_eq!(wheel.process(u64::MAX, &mut wakers), None);
    assert_eq!(wakers, vec![4, 3, 1, 0]);
}

#[test]
fn timer_ids_are_handed_out_in_order() {
    let mut reactor: Reactor<ThreadSafe, ()> = Reactor::new();
    assert_eq!(reactor.insert_timer(50, 1), (1, false));
    assert_eq!(reactor.insert_timer(50, 2), (2, false));
    assert_eq!(reactor.insert_timer(40, 3), (3, false));
    let mut wakers = Vec::new();
    assert_eq!(reactor.process_timers(39, &mut wakers), Some(40));
    assert!(wakers.is_empty());
    assert_eq!(reactor.process_timers(50, &mut wakers), None);
    // Equal deadlines fire oldest first.
    assert_eq!(wakers, vec![3, 1, 2]);
}

#[test]
fn cancelled_timer_never_fires() {
    let mut reactor: Reactor<ThreadUnsafe, ()> = Reactor::new();
    let (a, _) = reactor.insert_timer(10, 1);
    let (b, _) = reactor.insert_timer(10, 2);
    reactor.remove_timer(10, a);
    let mut wakers = Vec::new();
    assert_eq!(reactor.process_timers(1_000, &mut wakers), None);
    assert_eq!(wakers, vec![2]);
    reactor.remove_timer(10, b);
    assert_eq!(reactor.process_timers(u64::MAX, &mut wakers), None);
    assert_eq!(wakers, vec![2]);
}

#[test]
fn a_timer_just_past_fires_at_once() {
    // A one-shot timer whose deadline lies one nanosecond back.
    let now = 1_000_000;
    let mut reactor: Reactor<ThreadSafe, ()> = Reactor::new();
    reactor.insert_timer(now - 1, 9);
    let mut wakers = Vec::new();
    assert_eq!(reactor.process_timers(now, &mut wakers), None);
    assert_eq!(wakers, vec![9]);
}

#[test]
fn a_periodic_timer_moves_on_by_its_period() {
    let now = 1_000_000;
    let period = 250;
    let mut reactor: Reactor<ThreadSafe, ()> = Reactor::new();
    let mut timer = Timer::interval_at(now - 1, period);
    assert!(timer.will_fire());
    // The first poll fires: the deadline lies before `now`.
    let (polled, _) = timer.poll_next(&mut reactor, now, 7);
    assert!(matches!(polled, Poll::Ready(at) if at == now - 1));
    // The timer is back on the wheel one period after its deadline.
    let mut wakers = Vec::new();
    assert_eq!(reactor.process_timers(now, &mut wakers), Some(now - 1 + period));
    assert!(wakers.is_empty());
    assert_eq!(reactor.process_timers(now - 1 + period, &mut wakers), None);
    assert_eq!(wakers, vec![7]);
    let (polled, _) = timer.poll_next(&mut reactor, now + period, 7);
    assert!(matches!(polled, Poll::Ready(at) if at == now - 1 + period));
    assert_eq!(reactor.process_timers(now + period, &mut wakers), Some(now - 1 + 2 * period));
}

#[test]
fn a_one_shot_timer_fires_once() {
    let mut reactor: Reactor<ThreadSafe, ()> = Reactor::new();
    let mut timer = Timer::at(100);
    let (polled, _) = timer.poll_next(&mut reactor, 50, 1);
    assert!(matches!(polled, Poll::Pending));
    let mut wakers = Vec::new();
    assert_eq!(reactor.process_timers(50, &mut wakers), Some(100));
    assert_eq!(reactor.process_timers(100, &mut wakers), None);
    assert_eq!(wakers, vec![1]);
    let (polled, wake) = timer.poll_next(&mut reactor, 101, 1);
    assert!(matches!(polled, Poll::Ready(100)));
    assert!(!wake);
    // The clock has no room for the deadline after: never again.
    assert!(!timer.will_fire());
    let (polled, _) = timer.poll_next(&mut reactor, u64::MAX, 1);
    assert!(matches!(polled, Poll::Pending));
    assert_eq!(reactor.process_timers(u64::MAX, &mut wakers), None);
    assert_eq!(wakers, vec![1]);
}

#[test]
fn a_timer_on_the_deadline_has_not_fired() {
    let mut reactor: Reactor<ThreadSafe, ()> = Reactor::new();
    let mut timer = Timer::at(100);
    let (polled, _) = timer.poll_next(&mut reactor, 100, 1);
    assert!(matches!(polled, Poll::Pending));
}

#[test]
fn polling_with_another_handle_registers_anew() {
    let mut reactor: Reactor<ThreadSafe, ()> = Reactor::new();
    let mut timer = Timer::at(100);
    timer.poll_next(&mut reactor, 0, 1);
    timer.poll_next(&mut reactor, 0, 1);
    timer.poll_next(&mut reactor, 0, 2);
    let mut wakers = Vec::new();
    assert_eq!(reactor.process_timers(100, &mut wakers), None);
    assert_eq!(wakers, vec![2]);
}

#[test]
fn constructors_without_room_on_the_clock_never_fire() {
    assert!(!Timer::never().will_fire());
    assert!(!Timer::after(u64::MAX, 1).will_fire());
    assert!(Timer::after(u64::MAX - 1, 1).will_fire());
    assert!(!Timer::interval(u64::MAX - 5, 6).will_fire());
    assert!(Timer::interval(5, 6).will_fire());
    assert_eq!(NEVER_AGAIN, u64::MAX);
}

#[test]
fn setters_take_the_timer_off_the_wheel() {
    let mut reactor: Reactor<ThreadUnsafe, ()> = Reactor::new();
    let mut timer = Timer::at(100);
    timer.poll_next(&mut reactor, 0, 1);
    timer.set_at(&mut reactor, 200);
    let mut wakers = Vec::new();
    assert_eq!(reactor.process_timers(150, &mut wakers), None);
    assert!(wakers.is_empty());
    timer.poll_next(&mut reactor, 150, 1);
    assert_eq!(reactor.process_timers(150, &mut wakers), Some(200));
    timer.set_after(&mut reactor, 150, 10);
    timer.poll_next(&mut reactor, 150, 1);
    assert_eq!(reactor.process_timers(150, &mut wakers), Some(160));
    timer.set_interval(&mut reactor, 150, 20);
    timer.poll_next(&mut reactor, 150, 1);
    assert_eq!(reactor.process_timers(150, &mut wakers), Some(170));
    timer.set_interval_at(&mut reactor, 300, 5);
    timer.poll_next(&mut reactor, 150, 1);
    assert_eq!(reactor.process_timers(150, &mut wakers), Some(300));
    timer.set_never(&mut reactor);
    assert!(!timer.will_fire());
    assert_eq!(reactor.process_timers(150, &mut wakers), None);
    timer.set_after(&mut reactor, u64::MAX, 10);
    assert!(!timer.will_fire());
    timer.cancel(&mut reactor);
    assert!(wakers.is_empty());
}

#[test]
fn dropping_a_timer_cancels_it() {
    let mut reactor: Reactor<ThreadSafe, ()> = Reactor::new();
    let mut timer = Timer::interval_at(10, 10);
    timer.poll_next(&mut reactor, 0, 1);
    timer.cancel(&mut reactor);
    let mut wakers = Vec::new();
    assert_eq!(reactor.process_timers(1_000, &mut wakers), None);
    assert!(wakers.is_empty());
}

#[test]
fn more_timer_operations_than_the_queue_holds() {
    // The queue in front of the wheel takes 1024 operations; the wheel
    // sees all of them, in order, whatever the queue.
    let mut safe: Reactor<ThreadSafe, ()> = Reactor::new();
    let mut local: Reactor<ThreadUnsafe, ()> = Reactor::new();
    for n in 0..3000u64 {
        let (id, _) = safe.insert_timer(10_000 - n, n);
        assert_eq!(local.insert_timer(10_000 - n, n).0, id);
        if n % 3 == 0 {
            safe.remove_timer(10_000 - n, id);
            local.remove_timer(10_000 - n, id);
        }
    }
    let mut fired_safe = Vec::new();
    let mut fired_local = Vec::new();
    assert_eq!(safe.process_timers(8_000, &mut fired_safe), Some(8_001));
    assert_eq!(local.process_timers(8_000, &mut fired_local), Some(8_001));
    assert_eq!(fired_safe, fired_local);
    let expected: Vec<u64> = (2000..3000u64).rev().filter(|n| n % 3 != 0).collect();
    assert_eq!(fired_safe, expected);
}

#[test]
fn sixth_operation_waits_for_a_drain() {
    let mut reactor: Reactor<ThreadSafe, u32> = Reactor::with_capacity(5);
    for op in 0..5u32 {
        assert!(matches!(reactor.push_event_loop_op(op), Pushed::Queued(false)));
    }
    // The queue is full: the sixth operation comes back.
    let back = match reactor.push_event_loop_op(5) {
        Pushed::Full(op) => op,
        Pushed::Queued(_) => panic!("the queue took a sixth operation"),
    };
    assert_eq!(back, 5);
    // The driver drains the queue; then there is room.
    assert_eq!(reactor.drain_loop_queue(), vec![0, 1, 2, 3, 4]);
    assert!(matches!(reactor.push_event_loop_op(back), Pushed::Queued(false)));
    assert_eq!(reactor.drain_loop_queue(), vec![5]);
    assert!(reactor.drain_loop_queue().is_empty());
}

#[test]
fn exit_wins_over_timers() {
    let mut reactor: Reactor<ThreadSafe, ()> = Reactor::new();
    let mut filter = Filter::new(&mut reactor).expect("the reactor starts once");
    reactor.insert_timer(1_000, 1);
    reactor.insert_timer(2_000, 2);
    reactor.request_exit(7);
    assert!(!filter.begin(&mut reactor, Tick::NewEvents, 10));
    assert_eq!(filter.control_flow(&reactor), ControlFlow::ExitWithCode(7));
    assert!(filter.begin(&mut reactor, Tick::RedrawEventsCleared, 10));
    assert_eq!(filter.control_flow(&reactor), ControlFlow::ExitWithCode(7));
}

#[test]
fn the_last_exit_code_counts() {
    let mut reactor: Reactor<ThreadSafe, ()> = Reactor::new();
    assert_eq!(reactor.exit_requested(), None);
    reactor.request_exit(3);
    reactor.request_exit(-4);
    assert_eq!(reactor.exit_requested(), Some(-4));
    reactor.request_exit(i32::MIN);
    assert_eq!(reactor.exit_requested(), Some(i32::MIN));
}

#[test]
fn wait_policy_without_exit() {
    let mut reactor: Reactor<ThreadSafe, ()> = Reactor::new();
    let mut filter = Filter::new(&mut reactor).expect("the reactor starts once");
    filter.begin(&mut reactor, Tick::NewEvents, 0);
    assert_eq!(filter.control_flow(&reactor), ControlFlow::Wait);
    reactor.insert_timer(500, 1);
    reactor.insert_timer(400, 2);
    filter.begin(&mut reactor, Tick::NewEvents, 0);
    assert_eq!(filter.control_flow(&reactor), ControlFlow::WaitUntil(400));
    // Other events leave the deadline alone.
    reactor.insert_timer(100, 3);
    filter.begin(&mut reactor, Tick::Other, 0);
    assert_eq!(filter.control_flow(&reactor), ControlFlow::WaitUntil(400));
}

#[test]
fn the_tick_polls_while_woken_and_stops_on_yield() {
    let mut reactor: Reactor<ThreadSafe, ()> = Reactor::new();
    let mut filter = Filter::new(&mut reactor).expect("the reactor starts once");
    filter.begin(&mut reactor, Tick::NewEvents, 0);
    // The notifier starts out notified: the first tick polls once.
    assert!(filter.should_poll(&mut reactor));
    filter.polled(&mut reactor, true);
    assert!(!filter.should_poll(&mut reactor));
    assert_eq!(filter.control_flow(&reactor), ControlFlow::Wait);
    // Something wakes the computation; it is polled and wakes itself
    // again while it runs: it yields.
    reactor.notify();
    assert!(filter.should_poll(&mut reactor));
    reactor.notify();
    filter.polled(&mut reactor, true);
    assert!(!filter.should_poll(&mut reactor));
    assert_eq!(filter.control_flow(&reactor), ControlFlow::Poll);
    // The next batch polls again.
    filter.begin(&mut reactor, Tick::NewEvents, 0);
    assert!(filter.should_poll(&mut reactor));
    filter.polled(&mut reactor, true);
    assert_eq!(filter.control_flow(&reactor), ControlFlow::Wait);
}

#[test]
fn fired_timers_are_woken_at_the_end_of_the_batch() {
    let mut reactor: Reactor<ThreadSafe, ()> = Reactor::new();
    let mut filter = Filter::new(&mut reactor).expect("the reactor starts once");
    reactor.insert_timer(10, 1);
    reactor.insert_timer(20, 2);
    reactor.insert_timer(90, 3);
    assert!(!filter.begin(&mut reactor, Tick::NewEvents, 50));
    let mut wake = Vec::new();
    filter.finish(&mut reactor, false, &mut wake);
    assert!(wake.is_empty());
    let about_to_sleep = filter.begin(&mut reactor, Tick::RedrawEventsCleared, 60);
    filter.finish(&mut reactor, about_to_sleep, &mut wake);
    assert_eq!(wake, vec![1, 2]);
    assert_eq!(filter.control_flow(&reactor), ControlFlow::WaitUntil(90));
    filter.finish(&mut reactor, true, &mut wake);
    assert_eq!(wake, vec![1, 2]);
}

#[test]
fn parking_for_a_held_event() {
    let mut reactor: Reactor<ThreadSafe, ()> = Reactor::new();
    let mut filter = Filter::new(&mut reactor).expect("the reactor starts once");
    reactor.insert_timer(10, 1);
    reactor.insert_timer(70, 2);
    filter.begin(&mut reactor, Tick::NewEvents, 50);
    filter.blocked();
    reactor.insert_timer(60, 3);
    let mut wake = Vec::new();
    assert_eq!(filter.park_step(&mut reactor, 55, &mut wake), Some(60));
    assert_eq!(wake, vec![1]);
    assert_eq!(filter.park_step(&mut reactor, 65, &mut wake), Some(70));
    assert_eq!(wake, vec![1, 3]);
    assert_eq!(filter.park_step(&mut reactor, 75, &mut wake), Some(70));
    assert_eq!(wake, vec![1, 3, 2]);
}

#[test]
fn nearest_deadline() {
    assert_eq!(nearest(None, None), None);
    assert_eq!(nearest(Some(3), None), Some(3));
    assert_eq!(nearest(None, Some(4)), Some(4));
    assert_eq!(nearest(Some(3), Some(4)), Some(3));
    assert_eq!(nearest(Some(9), Some(4)), Some(4));
}

#[test]
fn the_loop_is_woken_once_and_only_when_asleep() {
    let mut waker = ReactorWaker::new();
    // Notified from the start: nothing to send.
    assert!(!waker.notify());
    waker.notified = false;
    assert!(waker.notify());
    assert!(!waker.notify());
    waker.notified = false;
    waker.awake = true;
    assert!(!waker.notify());
    assert!(waker.notified);

    let mut reactor: Reactor<ThreadSafe, ()> = Reactor::new();
    // Without a notifier nobody can be woken.
    assert!(!reactor.notify());
    assert!(!reactor.is_notified());
    let _filter = Filter::new(&mut reactor).expect("the reactor starts once");
    assert!(reactor.is_notified());
    assert!(reactor.take_notification());
    assert!(!reactor.take_notification());
    assert_eq!(reactor.insert_timer(5, 1), (1, true));
    assert_eq!(reactor.insert_timer(5, 1), (2, false));
    assert!(reactor.take_notification());
    reactor.set_awake(true);
    assert!(!reactor.request_exit(0));
    reactor.set_awake(false);
    assert!(reactor.take_notification());
    assert!(matches!(Reactor::<ThreadSafe, u8>::new().push_event_loop_op(1), Pushed::Queued(false)));
    assert!(reactor.request_exit(1));
}

#[test]
fn a_second_start_is_refused() {
    let mut reactor: Reactor<ThreadSafe, ()> = Reactor::new();
    assert!(Filter::new(&mut reactor).is_ok());
    reactor.take_notification();
    let refused = match Filter::new(&mut reactor) {
        Ok(_) => panic!("the reactor started twice"),
        Err(refused) => refused,
    };
    assert_eq!(
        refused.message(),
        "the event loop was started a second time; a process has one event loop"
    );
    // The refusal changes nothing.
    assert!(!reactor.is_notified());
    assert_eq!(reactor.start(ReactorWaker { notified: true, awake: true }), Err(refused));
    assert!(!reactor.is_notified());
}

#[test]
fn operations_are_handed_out_when_the_computation_is_pending_and_at_the_end_of_the_batch() {
    let mut reactor: Reactor<ThreadSafe, u8> = Reactor::new();
    let mut filter = Filter::new(&mut reactor).expect("the reactor starts once");
    filter.begin(&mut reactor, Tick::NewEvents, 0);
    reactor.push_event_loop_op(1);
    reactor.push_event_loop_op(2);
    assert!(filter.polled(&mut reactor, false).is_empty());
    assert_eq!(filter.polled(&mut reactor, true), vec![1, 2]);
    assert!(filter.polled(&mut reactor, true).is_empty());
    reactor.push_event_loop_op(3);
    let mut wake = Vec::new();
    assert!(filter.finish(&mut reactor, false, &mut wake).is_empty());
    assert_eq!(filter.finish(&mut reactor, true, &mut wake), vec![3]);
    assert!(filter.finish(&mut reactor, true, &mut wake).is_empty());
}

#[test]
fn a_queue_without_room_takes_nothing() {
    let mut reactor: Reactor<ThreadUnsafe, u8> = Reactor::with_capacity(0);
    assert!(matches!(reactor.push_event_loop_op(1), Pushed::Full(1)));
    assert!(reactor.drain_loop_queue().is_empty());
}
