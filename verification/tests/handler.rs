use async_winit::handler::{Event, Handler, STREAM_CAPACITY};
use async_winit::waiters::{Listener, Poll};

type Hub = Handler<u32, &'static str>;

#[test]
fn an_event_without_waiters_is_over_at_once() {
    let mut hub = Hub::new();
    let mut event = 5;
    let mut wake = Vec::new();
    // Nobody has ever listened: the hub has no state and does nothing.
    assert_eq!(hub.run_with(&mut event, &mut wake), None);
    assert!(matches!(hub.poll_run(1), Poll::Ready(())));
    let waiter = hub.wait();
    hub.drop_waiter(waiter, &mut wake);
    assert_eq!(hub.run_with(&mut event, &mut wake), Some(5));
    assert!(matches!(hub.poll_run(1), Poll::Ready(())));
    assert!(wake.is_empty());
}

#[test]
fn waiters_get_the_event_one_at_a_time_in_order() {
    let mut hub = Hub::new();
    let a = hub.wait();
    let b = hub.wait();
    let c = hub.wait();
    let mut wake = Vec::new();
    assert!(matches!(hub.poll_next(&a, 1, &mut wake), Poll::Pending));
    assert!(matches!(hub.poll_next(&b, 2, &mut wake), Poll::Pending));
    assert!(matches!(hub.poll_next(&c, 3, &mut wake), Poll::Pending));
    assert!(wake.is_empty());

    let mut event = 42;
    assert_eq!(hub.run_with(&mut event, &mut wake), Some(42));
    assert_eq!(wake, vec![1]);
    wake.clear();
    assert!(matches!(hub.poll_run(9), Poll::Pending));
    // B and C have not been reached.
    assert!(matches!(hub.poll_next(&b, 2, &mut wake), Poll::Pending));
    assert!(matches!(hub.poll_next(&c, 3, &mut wake), Poll::Pending));
    assert!(wake.is_empty());
    // A takes the event and passes it on to B.
    assert!(matches!(hub.poll_next(&a, 1, &mut wake), Poll::Ready(42)));
    assert_eq!(wake, vec![2]);
    assert!(matches!(hub.poll_run(9), Poll::Pending));
    assert!(matches!(hub.poll_next(&c, 3, &mut wake), Poll::Pending));
    assert!(matches!(hub.poll_next(&b, 2, &mut wake), Poll::Ready(42)));
    assert_eq!(wake, vec![2, 3]);
    assert!(matches!(hub.poll_run(9), Poll::Pending));
    // C is the last: the dispatch is released.
    assert!(matches!(hub.poll_next(&c, 3, &mut wake), Poll::Ready(42)));
    assert_eq!(wake, vec![2, 3, 9]);
    assert!(matches!(hub.poll_run(9), Poll::Ready(())));
}

#[test]
fn holders_keep_the_event_until_they_let_go() {
    let mut hub = Hub::new();
    let holders: Vec<_> = (0..4).map(|_| hub.wait()).collect();
    let mut wake = Vec::new();
    for (n, holder) in holders.iter().enumerate() {
        assert!(matches!(hub.poll_hold(holder, 10 + n as u64), Poll::Pending));
    }
    let mut event = 7;
    assert_eq!(hub.run_with(&mut event, &mut wake), Some(7));
    assert_eq!(wake, vec![10]);
    wake.clear();
    for (n, holder) in holders.iter().enumerate() {
        // Nobody further down has been reached.
        for later in &holders[n + 1..] {
            assert!(matches!(hub.poll_hold(later, 0), Poll::Pending));
            assert!(matches!(hub.poll_hold(later, 10 + n as u64 + 1), Poll::Pending));
        }
        assert!(matches!(hub.poll_run(99), Poll::Pending));
        assert!(matches!(hub.poll_hold(holder, 10 + n as u64), Poll::Ready(7)));
        // Holding: the dispatch still waits, and nobody has been woken.
        assert!(matches!(hub.poll_run(99), Poll::Pending));
        let before = wake.len();
        hub.release(holder, &mut wake);
        assert_eq!(wake.len(), before + 1);
    }
    assert_eq!(wake, vec![11, 12, 13, 99]);
    assert!(matches!(hub.poll_run(99), Poll::Ready(())));
}

#[test]
fn a_dropped_waiter_does_not_hold_up_the_dispatch() {
    let mut hub = Hub::new();
    let a = hub.wait();
    let b = hub.wait();
    let mut wake = Vec::new();
    hub.poll_next(&b, 2, &mut wake);
    let mut event = 1;
    assert_eq!(hub.run_with(&mut event, &mut wake), Some(1));
    assert!(wake.is_empty());
    assert!(matches!(hub.poll_run(9), Poll::Pending));
    // A was reached and goes away without taking note.
    hub.drop_waiter(a, &mut wake);
    assert_eq!(wake, vec![2]);
    assert!(matches!(hub.poll_next(&b, 2, &mut wake), Poll::Ready(1)));
    assert_eq!(wake, vec![2, 9]);
    assert!(matches!(hub.poll_run(9), Poll::Ready(())));
    // The last waiter goes away while no event is under way.
    hub.drop_waiter(b, &mut wake);
    assert_eq!(wake, vec![2, 9]);
    let mut event = 2;
    assert_eq!(hub.run_with(&mut event, &mut wake), Some(2));
    assert_eq!(wake, vec![2, 9]);
    assert!(matches!(hub.poll_run(9), Poll::Ready(())));
}

#[test]
fn dropping_the_only_waiter_releases_the_dispatch() {
    let mut hub = Hub::new();
    let a = hub.wait();
    let mut event = 1;
    let mut wake = Vec::new();
    hub.run_with(&mut event, &mut wake);
    assert!(matches!(hub.poll_run(9), Poll::Pending));
    hub.drop_waiter(a, &mut wake);
    assert_eq!(wake, vec![9]);
    assert!(matches!(hub.poll_run(9), Poll::Ready(())));
}

#[test]
fn unlinking_waiters_in_any_order() {
    let mut hub = Hub::new();
    let mut wake = Vec::new();
    let a = hub.wait();
    let b = hub.wait();
    let c = hub.wait();
    let d = hub.wait();
    hub.drop_waiter(b, &mut wake);
    hub.drop_waiter(a, &mut wake);
    hub.drop_waiter(d, &mut wake);
    let e = hub.wait();
    hub.poll_next(&c, 3, &mut wake);
    hub.poll_next(&e, 5, &mut wake);
    let mut event = 8;
    assert_eq!(hub.run_with(&mut event, &mut wake), Some(8));
    assert_eq!(wake, vec![3]);
    assert!(matches!(hub.poll_next(&c, 3, &mut wake), Poll::Ready(8)));
    assert!(matches!(hub.poll_next(&e, 5, &mut wake), Poll::Ready(8)));
    assert_eq!(wake, vec![3, 5]);
}

#[test]
fn direct_listeners_keep_their_order() {
    let mut hub = Hub::new();
    hub.wait_direct("a");
    hub.wait_direct("b");
    hub.wait_direct("c");
    let taken = hub.take_directs();
    assert_eq!(taken, vec!["a", "b", "c"]);
    assert!(hub.take_directs().is_empty());
    // One registers during the dispatch.
    hub.wait_direct("d");
    // "b" asked to be removed.
    hub.restore_directs(taken, &vec![false, true, false]);
    assert_eq!(hub.take_directs(), vec!["a", "c", "d"]);
    hub.restore_directs(vec!["x", "y"], &vec![true]);
    assert_eq!(hub.take_directs(), vec!["y"]);
    hub.restore_directs(vec!["x"], &vec![true, true]);
    assert!(hub.take_directs().is_empty());
}

#[test]
fn downgrade_of_a_clonable_event_is_a_clone() {
    let mut event = String::from("resized");
    let seen = <String as Event>::downgrade(&mut event);
    assert_eq!(seen, "resized");
    assert_eq!(event, "resized");
}

#[test]
fn one_shot_listeners_get_the_next_event_once() {
    let mut hub = Hub::new();
    let mut a = Listener::new();
    let mut b = Listener::new();
    hub.wait_once(&mut a);
    hub.wait_once(&mut b);
    assert!(matches!(hub.poll_once(&mut a, 1), Poll::Pending));
    assert!(matches!(hub.poll_once(&mut b, 2), Poll::Pending));
    let mut wake = Vec::new();
    let mut event = 11;
    hub.run_with(&mut event, &mut wake);
    assert_eq!(wake, vec![1, 2]);
    assert!(matches!(hub.poll_once(&mut a, 1), Poll::Ready(11)));
    // A is done.
    assert!(a.is_empty());
    let mut event = 12;
    hub.run_with(&mut event, &mut wake);
    assert_eq!(wake, vec![1, 2]);
    assert!(matches!(hub.poll_once(&mut b, 2), Poll::Ready(11)));
    // Registered after the event: it was missed.
    let mut late = Listener::new();
    hub.wait_once(&mut late);
    assert!(matches!(hub.poll_once(&mut late, 3), Poll::Pending));
    hub.drop_once(&mut late, &mut wake);
    assert!(late.is_empty());
    assert_eq!(wake, vec![1, 2]);
}

#[test]
fn a_dropped_one_shot_listener_hands_its_event_on() {
    let mut hub = Hub::new();
    let mut a = Listener::new();
    hub.wait_once(&mut a);
    let mut wake = Vec::new();
    let mut event = 4;
    hub.run_with(&mut event, &mut wake);
    let mut b = Listener::new();
    hub.wait_once(&mut b);
    hub.poll_once(&mut b, 2);
    hub.drop_once(&mut a, &mut wake);
    assert_eq!(wake, vec![2]);
    assert!(matches!(hub.poll_once(&mut b, 2), Poll::Ready(4)));
}

#[test]
fn streaming_listeners_get_every_event() {
    let mut hub = Hub::new();
    let mut wake = Vec::new();
    let mut early = 1;
    hub.run_with(&mut early, &mut wake);
    let mut first = hub.wait_many();
    let mut second = hub.wait_many();
    // The event sent before the subscriptions is not seen.
    assert!(matches!(hub.poll_many(&mut first, 10), Poll::Pending));
    assert!(matches!(hub.poll_many(&mut first, 10), Poll::Pending));
    assert!(matches!(hub.poll_many(&mut second, 20), Poll::Pending));
    for mut event in 100..103u32 {
        hub.run_with(&mut event, &mut wake);
    }
    // The waiting subscribers are woken once, by the first event.
    assert_eq!(wake, vec![10, 20]);
    for expected in 100..103u32 {
        assert!(matches!(hub.poll_many(&mut first, 10), Poll::Ready(e) if e == expected));
    }
    assert!(matches!(hub.poll_many(&mut first, 10), Poll::Pending));
    assert!(matches!(hub.poll_many(&mut second, 20), Poll::Ready(100)));
    hub.drop_many(10);
    let mut event = 103;
    wake.clear();
    hub.run_with(&mut event, &mut wake);
    assert!(wake.is_empty());
    assert!(matches!(hub.poll_many(&mut second, 20), Poll::Ready(101)));
}

#[test]
fn a_streaming_listener_that_falls_behind_misses_the_oldest() {
    let mut hub = Hub::new();
    let mut slow = hub.wait_many();
    let mut wake = Vec::new();
    let sent = STREAM_CAPACITY as u32 + 5;
    for mut event in 0..sent {
        hub.run_with(&mut event, &mut wake);
    }
    // The five oldest events overflowed.
    for expected in 5..sent {
        assert!(matches!(hub.poll_many(&mut slow, 1), Poll::Ready(e) if e == expected));
    }
    assert!(matches!(hub.poll_many(&mut slow, 1), Poll::Pending));
}

#[test]
fn an_event_reaches_one_shot_then_streaming_then_chained_listeners() {
    let mut hub = Hub::new();
    let waiter = hub.wait();
    let mut stream = hub.wait_many();
    let mut once = Listener::new();
    hub.wait_once(&mut once);
    let mut wake = Vec::new();
    hub.poll_next(&waiter, 3, &mut wake);
    hub.poll_many(&mut stream, 2);
    hub.poll_once(&mut once, 1);
    let mut event = 77;
    assert_eq!(hub.run_with(&mut event, &mut wake), Some(77));
    assert_eq!(wake, vec![1, 2, 3]);
    assert!(matches!(hub.poll_run(9), Poll::Pending));
    assert!(matches!(hub.poll_once(&mut once, 1), Poll::Ready(77)));
    assert!(matches!(hub.poll_many(&mut stream, 2), Poll::Ready(77)));
    assert!(matches!(hub.poll_run(9), Poll::Pending));
    assert!(matches!(hub.poll_next(&waiter, 3, &mut wake), Poll::Ready(77)));
    assert!(matches!(hub.poll_run(9), Poll::Ready(())));
}
