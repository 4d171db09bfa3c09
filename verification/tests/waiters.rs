use async_winit::waiters::{Listener, Poll, RegisterResult, State, Table, Waiters};

#[test]
fn notify_wakes_first_registered_only() {
    let mut table: Table<&'static str> = Table::new();
    let mut a = Listener::new();
    let mut b = Listener::new();
    let mut c = Listener::new();
    table.insert(&mut a);
    table.insert(&mut b);
    table.insert(&mut c);
    assert!(matches!(table.register(&mut a, 1), RegisterResult::Task));
    assert!(matches!(table.register(&mut b, 2), RegisterResult::Task));
    assert!(matches!(table.register(&mut c, 3), RegisterResult::Task));

    let mut wakers = Vec::new();
    let count = table.notify(1, || "x", &mut wakers);
    assert_eq!(count, 1);
    assert_eq!(wakers, vec![1]);

    // Only the first listener has the payload.
    assert!(matches!(table.register(&mut b, 2), RegisterResult::Task));
    assert!(matches!(table.register(&mut c, 3), RegisterResult::Task));
    match table.register(&mut a, 1) {
        RegisterResult::Notified(payload) => assert_eq!(payload, "x"),
        _ => panic!("the first listener was not notified"),
    }
    assert!(a.is_empty());
    assert_eq!(table.len(), 2);
}

#[test]
fn dropping_a_notified_listener_passes_the_payload_on() {
    let mut table: Table<&'static str> = Table::new();
    let mut a = Listener::new();
    let mut b = Listener::new();
    let mut c = Listener::new();
    table.insert(&mut a);
    table.insert(&mut b);
    table.insert(&mut c);
    table.register(&mut a, 10);
    table.register(&mut b, 20);
    table.register(&mut c, 30);

    let mut wakers = Vec::new();
    assert_eq!(table.notify(1, || "x", &mut wakers), 1);
    assert_eq!(wakers, vec![10]);

    // A goes away without consuming: B inherits the notification.
    let mut wakers = Vec::new();
    let state = table.remove(&mut a, true, &mut wakers);
    assert!(matches!(state, Some(State::Done)));
    assert_eq!(wakers, vec![20]);
    assert!(a.is_empty());
    match table.register(&mut b, 20) {
        RegisterResult::Notified(payload) => assert_eq!(payload, "x"),
        _ => panic!("the second listener did not inherit the notification"),
    }
    // C still waits.
    assert!(matches!(table.register(&mut c, 30), RegisterResult::Task));
    assert_eq!(table.len(), 1);
}

#[test]
fn removal_without_propagation_returns_the_payload() {
    let mut table: Table<u32> = Table::new();
    let mut a = Listener::new();
    let mut b = Listener::new();
    table.insert(&mut a);
    table.insert(&mut b);
    let mut wakers = Vec::new();
    assert_eq!(table.notify(1, || 7, &mut wakers), 1);
    assert!(wakers.is_empty());
    let state = table.remove(&mut a, false, &mut wakers);
    assert!(matches!(state, Some(State::Ready(7))));
    assert!(wakers.is_empty());
    // B was never notified.
    assert!(matches!(table.register(&mut b, 5), RegisterResult::Task));
}

#[test]
fn notify_reaches_at_most_the_waiting_listeners() {
    let mut table: Table<u32> = Table::new();
    let mut listeners: Vec<Listener> = Vec::new();
    for task in 0..4u64 {
        let mut listener = Listener::new();
        table.insert(&mut listener);
        table.register(&mut listener, 100 + task);
        listeners.push(listener);
    }
    let mut wakers = Vec::new();
    assert_eq!(table.notify(2, || 1, &mut wakers), 2);
    assert_eq!(wakers, vec![100, 101]);
    assert_eq!(table.notify(5, || 2, &mut wakers), 2);
    assert_eq!(wakers, vec![100, 101, 102, 103]);
    assert_eq!(table.notify(1, || 3, &mut wakers), 0);
    let payloads: Vec<u32> = listeners
        .iter_mut()
        .map(|listener| match table.register(listener, 0) {
            RegisterResult::Notified(payload) => payload,
            _ => panic!("a listener was skipped"),
        })
        .collect();
    assert_eq!(payloads, vec![1, 1, 2, 2]);
    assert_eq!(table.len(), 0);
}

#[test]
fn unlinking_from_the_middle_keeps_the_order() {
    let mut table: Table<u32> = Table::new();
    let mut a = Listener::new();
    let mut b = Listener::new();
    let mut c = Listener::new();
    table.insert(&mut a);
    table.insert(&mut b);
    table.insert(&mut c);
    table.register(&mut a, 1);
    table.register(&mut b, 2);
    table.register(&mut c, 3);
    let mut wakers = Vec::new();
    assert!(matches!(table.remove(&mut b, true, &mut wakers), Some(State::Listening(2))));
    assert!(wakers.is_empty());
    assert_eq!(table.notify(usize::MAX, || 9, &mut wakers), 2);
    assert_eq!(wakers, vec![1, 3]);
}

#[test]
fn removing_the_next_to_notify_moves_on_to_its_successor() {
    let mut table: Table<u32> = Table::new();
    let mut a = Listener::new();
    let mut b = Listener::new();
    let mut c = Listener::new();
    let mut d = Listener::new();
    table.insert(&mut a);
    table.insert(&mut b);
    table.insert(&mut c);
    table.insert(&mut d);
    table.register(&mut a, 1);
    table.register(&mut b, 2);
    table.register(&mut c, 3);
    table.register(&mut d, 4);
    let mut wakers = Vec::new();
    assert_eq!(table.notify(1, || 5, &mut wakers), 1);
    // B is the next to notify; it leaves, so C is.
    table.remove(&mut b, true, &mut wakers);
    assert_eq!(table.notify(1, || 6, &mut wakers), 1);
    assert_eq!(wakers, vec![1, 3]);
    assert!(matches!(table.register(&mut c, 3), RegisterResult::Notified(6)));
    assert!(matches!(table.register(&mut d, 4), RegisterResult::Task));
}

#[test]
fn a_listener_in_no_list_has_no_task() {
    let mut table: Table<u32> = Table::new();
    let mut stray = Listener::new();
    assert!(stray.is_empty());
    assert!(matches!(table.register(&mut stray, 1), RegisterResult::NoTask));
    let mut wakers = Vec::new();
    assert!(table.remove(&mut stray, true, &mut wakers).is_none());
}

#[test]
fn slots_are_reused_after_removal() {
    let mut table: Table<u32> = Table::new();
    let mut wakers = Vec::new();
    for round in 0..10u32 {
        let mut a = Listener::new();
        let mut b = Listener::new();
        table.insert(&mut a);
        table.insert(&mut b);
        table.register(&mut a, 1);
        assert_eq!(table.notify(1, || round, &mut wakers), 1);
        assert!(matches!(table.register(&mut a, 1), RegisterResult::Notified(p) if p == round));
        assert!(matches!(table.remove(&mut b, true, &mut wakers), Some(State::Created)));
        assert_eq!(table.len(), 0);
    }
    assert_eq!(wakers, vec![1; 10]);
}

#[test]
fn polling_the_list_itself() {
    let mut waiters: Waiters<&'static str> = Waiters::new();
    assert!(matches!(waiters.poll_internal(42), Poll::Pending));
    // A second poll with the same handle changes nothing.
    assert!(matches!(waiters.poll_internal(42), Poll::Pending));
    let mut wakers = Vec::new();
    assert_eq!(waiters.notify(1, || "resumed", &mut wakers), 1);
    assert_eq!(wakers, vec![42]);
    assert!(matches!(waiters.poll_internal(42), Poll::Ready("resumed")));
    // The poller left the list; polling again registers anew.
    assert!(matches!(waiters.poll_internal(43), Poll::Pending));
    assert_eq!(waiters.notify(3, || "again", &mut wakers), 1);
    assert_eq!(wakers, vec![42, 43]);
}

#[test]
fn waiters_remove_always_propagates() {
    let mut waiters: Waiters<u8> = Waiters::new();
    let mut a = Listener::new();
    let mut b = Listener::new();
    waiters.insert(&mut a);
    waiters.insert(&mut b);
    waiters.register(&mut b, 2);
    let mut wakers = Vec::new();
    waiters.notify(1, || 1, &mut wakers);
    waiters.remove(&mut a, &mut wakers);
    assert_eq!(wakers, vec![2]);
    assert!(matches!(waiters.register(&mut b, 2), RegisterResult::Notified(1)));
}
