use async_winit::broadcast::Broadcast;
use async_winit::filter::Tick;
use async_winit::handler::Event;
use async_winit::registration::{
    PlatformEvent, Registration, Registry, ScaleFactor, ScaleFactorChanging, Target,
    WindowEventKind, WINDOW_EVENT_KINDS,
};
use async_winit::waiters::Poll;

type Hubs = Registry<u32, u8>;

#[test]
fn platform_events_find_their_hub() {
    let resized = PlatformEvent::WindowEvent { window_id: 4, kind: Some(WindowEventKind::Resized) };
    assert_eq!(resized.target(), Some(Target::Window(4, WindowEventKind::Resized)));
    assert_eq!(resized.tick(), Tick::Other);
    let dropped = PlatformEvent::WindowEvent { window_id: 4, kind: None };
    assert_eq!(dropped.target(), None);
    assert_eq!(PlatformEvent::Resumed.target(), Some(Target::Resumed));
    assert_eq!(PlatformEvent::Suspended.target(), Some(Target::Suspended));
    assert_eq!(
        PlatformEvent::RedrawRequested(9).target(),
        Some(Target::Window(9, WindowEventKind::RedrawRequested))
    );
    assert_eq!(PlatformEvent::NewEvents.target(), None);
    assert_eq!(PlatformEvent::NewEvents.tick(), Tick::NewEvents);
    assert_eq!(PlatformEvent::RedrawEventsCleared.target(), None);
    assert_eq!(PlatformEvent::RedrawEventsCleared.tick(), Tick::RedrawEventsCleared);
    assert_eq!(PlatformEvent::Other.target(), None);
    assert_eq!(PlatformEvent::Other.tick(), Tick::Other);
}

#[test]
fn every_kind_has_a_place_of_its_own() {
    let kinds = [
        WindowEventKind::RedrawRequested,
        WindowEventKind::CloseRequested,
        WindowEventKind::Resized,
        WindowEventKind::Moved,
        WindowEventKind::Destroyed,
        WindowEventKind::Focused,
        WindowEventKind::ReceivedCharacter,
        WindowEventKind::KeyboardInput,
        WindowEventKind::ModifiersChanged,
        WindowEventKind::Ime,
        WindowEventKind::CursorMoved,
        WindowEventKind::CursorEntered,
        WindowEventKind::CursorLeft,
        WindowEventKind::MouseWheel,
        WindowEventKind::MouseInput,
        WindowEventKind::TouchpadMagnify,
        WindowEventKind::SmartMagnify,
        WindowEventKind::TouchpadRotate,
        WindowEventKind::TouchpadPressure,
        WindowEventKind::AxisMotion,
        WindowEventKind::Touch,
        WindowEventKind::ScaleFactorChanged,
        WindowEventKind::ThemeChanged,
        WindowEventKind::Occluded,
    ];
    assert_eq!(kinds.len(), WINDOW_EVENT_KINDS);
    for (place, kind) in kinds.iter().enumerate() {
        assert_eq!(kind.index(), place);
    }
}

#[test]
fn a_window_event_goes_to_the_hub_of_its_kind_only() {
    let mut registration: Registration<u32, u8> = Registration::new();
    let resized = registration.hub_mut(WindowEventKind::Resized).wait();
    let moved = registration.hub_mut(WindowEventKind::Moved).wait();
    let mut wake = Vec::new();
    let mut event = 640;
    assert_eq!(registration.signal(WindowEventKind::Resized, &mut event, &mut wake), Some(640));
    assert_eq!(registration.signal(WindowEventKind::Focused, &mut event, &mut wake), None);
    let hub = registration.hub_mut(WindowEventKind::Moved);
    assert!(matches!(hub.poll_next(&moved, 1, &mut wake), Poll::Pending));
    let hub = registration.hub_mut(WindowEventKind::Resized);
    assert!(matches!(hub.poll_next(&resized, 2, &mut wake), Poll::Ready(640)));
}

#[test]
fn events_for_unknown_windows_go_nowhere() {
    let mut registry = Hubs::new();
    let mut wake = Vec::new();
    let mut event = 1;
    let target = Target::Window(7, WindowEventKind::CloseRequested);
    assert!(registry.hub_mut(target).is_none());
    assert_eq!(registry.post_event(target, &mut event, &mut wake), None);
    registry.insert_window(7);
    let waiter = registry.hub_mut(target).expect("the window is registered").wait();
    assert_eq!(registry.post_event(target, &mut event, &mut wake), Some(1));
    let hub = registry.hub_mut(target).expect("the window is registered");
    assert!(matches!(hub.poll_next(&waiter, 5, &mut wake), Poll::Ready(1)));
    // Another window's hubs are its own.
    registry.insert_window(8);
    let other = Target::Window(8, WindowEventKind::CloseRequested);
    assert_eq!(registry.post_event(other, &mut event, &mut wake), None);
    // A destroyed window never fires again.
    registry.remove_window(7);
    assert!(registry.hub_mut(target).is_none());
    assert_eq!(registry.post_event(target, &mut event, &mut wake), None);
    assert!(registry.hub_mut(other).is_some());
    registry.remove_window(7);
}

#[test]
fn registering_a_window_again_starts_over() {
    let mut registry = Hubs::new();
    registry.insert_window(1);
    registry.insert_window(2);
    let target = Target::Window(1, WindowEventKind::Focused);
    let _waiter = registry.hub_mut(target).expect("the window is registered").wait();
    let mut wake = Vec::new();
    let mut event = 1;
    assert_eq!(registry.post_event(target, &mut event, &mut wake), Some(1));
    registry.insert_window(1);
    assert_eq!(registry.post_event(target, &mut event, &mut wake), None);
}

#[test]
fn the_loop_has_hubs_of_its_own() {
    let mut registry = Hubs::new();
    let waiter = registry.hub_mut(Target::Resumed).expect("always there").wait();
    let mut wake = Vec::new();
    let mut event = 0;
    assert_eq!(registry.post_event(Target::Suspended, &mut event, &mut wake), None);
    assert_eq!(registry.post_event(Target::Resumed, &mut event, &mut wake), Some(0));
    let hub = registry.hub_mut(Target::Resumed).expect("always there");
    assert!(matches!(hub.poll_next(&waiter, 1, &mut wake), Poll::Ready(0)));
}

#[test]
fn scale_factor_listeners_see_the_size_that_was_settled_on() {
    let mut changing = ScaleFactorChanging {
        scale_factor: 2.0f64.to_bits(),
        new_inner_size: (800, 600),
    };
    // A direct listener changes the size.
    changing.new_inner_size = (1024, 768);
    let changed = <ScaleFactor as Event>::downgrade(&mut changing);
    assert_eq!(f64::from_bits(changed.scale_factor), 2.0);
    assert_eq!(changed.new_inner_size, (1024, 768));
    assert_eq!(changing.new_inner_size, (1024, 768));
}

#[test]
fn broadcast_drops_the_oldest_on_overflow() {
    let mut channel: Broadcast<u8> = Broadcast::new(2);
    let mut reader = channel.subscribe();
    let mut wake = Vec::new();
    assert!(matches!(channel.poll_recv(&mut reader, 5), Poll::Pending));
    assert!(channel.send(1, &mut wake));
    assert_eq!(wake, vec![5]);
    assert!(channel.send(2, &mut wake));
    assert!(channel.send(3, &mut wake));
    assert_eq!(wake, vec![5]);
    assert!(matches!(channel.poll_recv(&mut reader, 5), Poll::Ready(2)));
    assert!(matches!(channel.poll_recv(&mut reader, 5), Poll::Ready(3)));
    assert!(matches!(channel.poll_recv(&mut reader, 5), Poll::Pending));
    assert!(matches!(channel.poll_recv(&mut reader, 6), Poll::Pending));
    channel.forget(5);
    assert!(channel.send(4, &mut wake));
    assert_eq!(wake, vec![5, 6]);
    let mut late = channel.subscribe();
    assert!(matches!(channel.poll_recv(&mut late, 7), Poll::Pending));
    assert!(matches!(channel.poll_recv(&mut reader, 5), Poll::Ready(4)));
}
