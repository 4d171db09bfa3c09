//! The registry: which hub an event of the platform goes to.
//!
//! The loop as a whole has a hub for being resumed and one for being
//! suspended. Every window has a set of hubs of its own, one for each kind
//! of window event, which lives as long as the window is registered.

use crate::filter::Tick;
use crate::handler::{hub_ran, Chain, Event, Handler};
use crate::Handle;
use vstd::prelude::*;

verus! {

/// The event of a window's scale factor changing.
///
/// The platform proposes a new inner size with the new scale factor. The
/// direct listeners may change the size; the other listeners see what the
/// size is once the direct listeners are through.
pub struct ScaleFactor;

/// A change of scale factor as the direct listeners get it.
pub struct ScaleFactorChanging {
    /// The new scale factor, as the bits of a double.
    pub scale_factor: u64,
    /// The new inner size: width and height. It can be changed.
    pub new_inner_size: (u32, u32),
}

/// A change of scale factor as the waiters see it.
#[derive(Clone, Copy, Debug, PartialEq, Eq)]
pub struct ScaleFactorChanged {
    /// The new scale factor, as the bits of a double.
    pub scale_factor: u64,
    /// The new inner size: width and height.
    pub new_inner_size: (u32, u32),
}

impl Event for ScaleFactor {
    type Clonable = ScaleFactorChanged;

    type Unique = ScaleFactorChanging;

    open spec fn downgraded(unique: ScaleFactorChanging, clonable: ScaleFactorChanged) -> bool {
        &&& clonable.scale_factor == unique.scale_factor
        &&& clonable.new_inner_size == unique.new_inner_size
    }

    fn downgrade(unique: &mut ScaleFactorChanging) -> (clonable: ScaleFactorChanged) {
        ScaleFactorChanged {
            scale_factor: unique.scale_factor,
            new_inner_size: unique.new_inner_size,
        }
    }
}

/// The kinds of event that a window has a hub for.
#[derive(Clone, Copy, Debug, PartialEq, Eq, Structural)]
pub enum WindowEventKind {
    RedrawRequested,
    CloseRequested,
    Resized,
    Moved,
    Destroyed,
    Focused,
    ReceivedCharacter,
    KeyboardInput,
    ModifiersChanged,
    Ime,
    CursorMoved,
    CursorEntered,
    CursorLeft,
    MouseWheel,
    MouseInput,
    TouchpadMagnify,
    SmartMagnify,
    TouchpadRotate,
    TouchpadPressure,
    AxisMotion,
    Touch,
    ScaleFactorChanged,
    ThemeChanged,
    Occluded,
}

/// The number of kinds of window event.
pub const WINDOW_EVENT_KINDS: usize = 24;

/// What the reactor has to know of a platform event: its kind, and the
/// window that it is for.
#[derive(Clone, Copy, Debug, PartialEq, Eq, Structural)]
pub enum PlatformEvent {
    /// A new batch of events starts.
    NewEvents,
    /// An event of a window. The kind is `None` for an event that no hub
    /// stands for.
    WindowEvent { window_id: u64, kind: Option<WindowEventKind> },
    /// The application was resumed.
    Resumed,
    /// The application was suspended.
    Suspended,
    /// A window asks to be redrawn.
    RedrawRequested(u64),
    /// The batch of events is over.
    RedrawEventsCleared,
    /// Any other event.
    Other,
}

/// The hub that an event goes to.
#[derive(Clone, Copy, Debug, PartialEq, Eq, Structural)]
pub enum Target {
    /// The loop's hub for being resumed.
    Resumed,
    /// The loop's hub for being suspended.
    Suspended,
    /// A window's hub for a kind of event.
    Window(u64, WindowEventKind),
}

/// The place of a kind's hub in a window's set of hubs.
pub open spec fn slot(kind: WindowEventKind) -> int {
    match kind {
        WindowEventKind::RedrawRequested => 0,
        WindowEventKind::CloseRequested => 1,
        WindowEventKind::Resized => 2,
        WindowEventKind::Moved => 3,
        WindowEventKind::Destroyed => 4,
        WindowEventKind::Focused => 5,
        WindowEventKind::ReceivedCharacter => 6,
        WindowEventKind::KeyboardInput => 7,
        WindowEventKind::ModifiersChanged => 8,
        WindowEventKind::Ime => 9,
        WindowEventKind::CursorMoved => 10,
        WindowEventKind::CursorEntered => 11,
        WindowEventKind::CursorLeft => 12,
        WindowEventKind::MouseWheel => 13,
        WindowEventKind::MouseInput => 14,
        WindowEventKind::TouchpadMagnify => 15,
        WindowEventKind::SmartMagnify => 16,
        WindowEventKind::TouchpadRotate => 17,
        WindowEventKind::TouchpadPressure => 18,
        WindowEventKind::AxisMotion => 19,
        WindowEventKind::Touch => 20,
        WindowEventKind::ScaleFactorChanged => 21,
        WindowEventKind::ThemeChanged => 22,
        WindowEventKind::Occluded => 23,
    }
}

/// The hub that a platform event is for, if it is for one.
pub open spec fn target_of(event: PlatformEvent) -> Option<Target> {
    match event {
        PlatformEvent::WindowEvent { window_id, kind: Some(kind) } => Some(
            Target::Window(window_id, kind),
        ),
        PlatformEvent::Resumed => Some(Target::Resumed),
        PlatformEvent::Suspended => Some(Target::Suspended),
        PlatformEvent::RedrawRequested(window_id) => Some(
            Target::Window(window_id, WindowEventKind::RedrawRequested),
        ),
        _ => None,
    }
}

/// What the driver makes of a platform event.
pub open spec fn tick_of(event: PlatformEvent) -> Tick {
    match event {
        PlatformEvent::NewEvents => Tick::NewEvents,
        PlatformEvent::RedrawEventsCleared => Tick::RedrawEventsCleared,
        _ => Tick::Other,
    }
}

impl PlatformEvent {
    /// The hub that the event is for, if it is for one.
    pub fn target(&self) -> (target: Option<Target>)
        ensures
            target == target_of(*self),
    {
        match *self {
            PlatformEvent::WindowEvent { window_id, kind: Some(kind) } => Some(
                Target::Window(window_id, kind),
            ),
            PlatformEvent::Resumed => Some(Target::Resumed),
            PlatformEvent::Suspended => Some(Target::Suspended),
            PlatformEvent::RedrawRequested(window_id) => Some(
                Target::Window(window_id, WindowEventKind::RedrawRequested),
            ),
            _ => None,
        }
    }

    /// What the driver makes of the event.
    pub fn tick(&self) -> (tick: Tick)
        ensures
            tick == tick_of(*self),
    {
        match *self {
            PlatformEvent::NewEvents => Tick::NewEvents,
            PlatformEvent::RedrawEventsCleared => Tick::RedrawEventsCleared,
            _ => Tick::Other,
        }
    }
}

impl WindowEventKind {
    /// The place of the kind's hub in a window's set of hubs.
    pub fn index(&self) -> (index: usize)
        ensures
            index == slot(*self),
            index < WINDOW_EVENT_KINDS,
    {
        match *self {
            WindowEventKind::RedrawRequested => 0,
            WindowEventKind::CloseRequested => 1,
            WindowEventKind::Resized => 2,
            WindowEventKind::Moved => 3,
            WindowEventKind::Destroyed => 4,
            WindowEventKind::Focused => 5,
            WindowEventKind::ReceivedCharacter => 6,
            WindowEventKind::KeyboardInput => 7,
            WindowEventKind::ModifiersChanged => 8,
            WindowEventKind::Ime => 9,
            WindowEventKind::CursorMoved => 10,
            WindowEventKind::CursorEntered => 11,
            WindowEventKind::CursorLeft => 12,
            WindowEventKind::MouseWheel => 13,
            WindowEventKind::MouseInput => 14,
            WindowEventKind::TouchpadMagnify => 15,
            WindowEventKind::SmartMagnify => 16,
            WindowEventKind::TouchpadRotate => 17,
            WindowEventKind::TouchpadPressure => 18,
            WindowEventKind::AxisMotion => 19,
            WindowEventKind::Touch => 20,
            WindowEventKind::ScaleFactorChanged => 21,
            WindowEventKind::ThemeChanged => 22,
            WindowEventKind::Occluded => 23,
        }
    }
}

/// The hubs of one window, one for each kind of window event.
pub struct Registration<P: Event, D> {
    hubs: Vec<Handler<P, D>>,
}

impl<P: Event, D> Registration<P, D> {
    /// The hubs, by the place of their kind.
    pub closed spec fn hubs(&self) -> Seq<Handler<P, D>> {
        self.hubs@
    }

    /// There is a well-formed hub for every kind.
    pub open spec fn wf(&self) -> bool {
        &&& self.hubs().len() == WINDOW_EVENT_KINDS
        &&& forall|i: int| 0 <= i < self.hubs().len() ==> (#[trigger] self.hubs()[i]).wf()
    }

    /// The hub for a kind of event.
    pub open spec fn hub(&self, kind: WindowEventKind) -> Handler<P, D> {
        self.hubs()[slot(kind)]
    }

    /// A set of hubs that nobody listens on.
    pub fn new() -> (registration: Self)
        ensures
            registration.wf(),
            forall|i: int|
                0 <= i < WINDOW_EVENT_KINDS ==> (#[trigger] registration.hubs()[i])@
                    == Chain::<P::Clonable>::empty() && registration.hubs()[i].directs().len() == 0,
    {
        let mut hubs: Vec<Handler<P, D>> = Vec::new();
        while hubs.len() < WINDOW_EVENT_KINDS
            invariant
                hubs@.len() <= WINDOW_EVENT_KINDS,
                forall|i: int|
                    0 <= i < hubs@.len() ==> (#[trigger] hubs@[i]).wf() && hubs@[i]@
                        == Chain::<P::Clonable>::empty() && hubs@[i].directs().len() == 0,
            decreases WINDOW_EVENT_KINDS - hubs@.len(),
        {
            hubs.push(Handler::new());
        }
        Registration { hubs }
    }

    /// The hub for a kind of event, to listen on it or to run an event
    /// through it.
    pub fn hub_mut(&mut self, kind: WindowEventKind) -> (hub: &mut Handler<P, D>)
        requires
            old(self).hubs().len() == WINDOW_EVENT_KINDS,
        ensures
            *hub == old(self).hub(kind),
            final(self).hubs() == old(self).hubs().update(slot(kind), *final(hub)),
    {
        let index = kind.index();
        &mut self.hubs[index]
    }

    /// Run a window event through the hub for its kind, after the hub's
    /// direct listeners have been called. The handles to wake are added to
    /// `wake`. Returns what the listeners get to see of the event, or `None`
    /// if nobody has ever listened on the hub.
    pub fn signal(&mut self, kind: WindowEventKind, event: &mut P::Unique, wake: &mut Vec<Handle>) -> (seen:
        Option<P::Clonable>)
        requires
            old(self).wf(),
        ensures
            final(self).wf(),
            *final(event) == *old(event),
            final(self).hubs() == old(self).hubs().update(slot(kind), final(self).hub(kind)),
            hub_ran(old(self).hub(kind), final(self).hub(kind), *old(event), seen, old(wake)@, final(wake)@),
    {
        let hub = self.hub_mut(kind);
        hub.run_with(event, wake)
    }
}

/// The registry of hubs: those of the loop and those of its windows.
pub struct Registry<P: Event, D> {
    /// `Resumed`
    resumed: Handler<P, D>,
    /// `Suspended`
    suspended: Handler<P, D>,
    /// The identities of the windows. None occurs twice.
    ids: Vec<u64>,
    /// The hubs of the windows, in the order of `ids`.
    windows: Vec<Registration<P, D>>,
}

impl<P: Event, D> Registry<P, D> {
    /// The identities of the registered windows.
    pub closed spec fn ids(&self) -> Seq<u64> {
        self.ids@
    }

    /// The hubs of the registered windows, in the order of their
    /// identities.
    pub closed spec fn windows(&self) -> Seq<Registration<P, D>> {
        self.windows@
    }

    /// The loop's hub for being resumed.
    pub closed spec fn resumed(&self) -> Handler<P, D> {
        self.resumed
    }

    /// The loop's hub for being suspended.
    pub closed spec fn suspended(&self) -> Handler<P, D> {
        self.suspended
    }

    /// No window is registered twice, and every hub is well-formed.
    pub open spec fn wf(&self) -> bool {
        &&& self.ids().len() == self.windows().len()
        &&& forall|i: int, j: int| 0 <= i < j < self.ids().len() ==> self.ids()[i] != self.ids()[j]
        &&& forall|i: int| 0 <= i < self.windows().len() ==> (#[trigger] self.windows()[i]).wf()
        &&& self.resumed().wf()
        &&& self.suspended().wf()
    }

    /// Whether the window is registered.
    pub open spec fn contains(&self, id: u64) -> bool {
        self.ids().contains(id)
    }

    /// The place of the window in the registry.
    pub open spec fn position(&self, id: u64) -> int {
        self.ids().index_of(id)
    }

    /// The hub that `target` names, if the registry has it.
    pub open spec fn hub(&self, target: Target) -> Option<Handler<P, D>> {
        match target {
            Target::Resumed => Some(self.resumed()),
            Target::Suspended => Some(self.suspended()),
            Target::Window(id, kind) => if self.contains(id) {
                Some(self.windows()[self.position(id)].hub(kind))
            } else {
                None
            },
        }
    }

    /// A registry without windows.
    pub fn new() -> (registry: Self)
        ensures
            registry.wf(),
            registry.ids().len() == 0,
            registry.resumed()@ == Chain::<P::Clonable>::empty(),
            registry.suspended()@ == Chain::<P::Clonable>::empty(),
    {
        Registry { resumed: Handler::new(), suspended: Handler::new(), ids: Vec::new(), windows: Vec::new() }
    }

    /// The place of the window in the registry, if it is registered.
    fn find(&self, id: u64) -> (found: Option<usize>)
        requires
            self.wf(),
        ensures
            match found {
                Some(at) => self.contains(id) && at == self.position(id) && at < self.ids().len()
                    && self.ids()[at as int] == id,
                None => !self.contains(id),
            },
    {
        let mut at: usize = 0;
        while at < self.ids.len()
            invariant
                self.wf(),
                at <= self.ids@.len(),
                forall|i: int| 0 <= i < at ==> self.ids@[i] != id,
            decreases self.ids@.len() - at,
        {
            if self.ids[at] == id {
                proof {
                    self.ids@.index_of_first_ensures(id);
                    assert(self.ids@.contains(id));
                    let first = self.ids@.index_of(id);
                    assert(self.ids@[first] == id);
                    if first != at {
                        if first < at {
                            assert(self.ids@[first] != id);
                        } else {
                            assert(self.ids()[at as int] != self.ids()[first]);
                        }
                    }
                }
                return Some(at);
            }
            at = at + 1;
        }
        None
    }

    /// Insert a window into the window list, with hubs that nobody listens
    /// on. A window that was registered starts over.
    pub fn insert_window(&mut self, id: u64)
        requires
            old(self).wf(),
        ensures
            final(self).wf(),
            final(self).contains(id),
            forall|other: u64| other != id ==> final(self).contains(other) == old(self).contains(other),
            forall|other: u64, kind: WindowEventKind|
                other != id ==> #[trigger] final(self).hub(Target::Window(other, kind)) == old(
                    self,
                ).hub(Target::Window(other, kind)),
            forall|kind: WindowEventKind| #[trigger]
                final(self).hub(Target::Window(id, kind)) is Some && final(self).hub(
                    Target::Window(id, kind),
                ).unwrap()@ == Chain::<P::Clonable>::empty(),
            final(self).resumed() == old(self).resumed(),
            final(self).suspended() == old(self).suspended(),
    {
        match self.find(id) {
            Some(at) => {
                self.windows[at] = Registration::new();
                proof {
                    assert forall|other: u64, kind: WindowEventKind| other != id implies #[trigger]
                        self.hub(Target::Window(other, kind)) == old(self).hub(
                        Target::Window(other, kind),
                    ) by {
                        if self.contains(other) {
                            let first = self.ids@.index_of(other);
                            assert(self.ids@[first] == other);
                        }
                    }
                }
            },
            None => {
                self.ids.push(id);
                self.windows.push(Registration::new());
                proof {
                    let last = old(self).ids@.len() as int;
                    assert(self.ids@[last] == id);
                    assert forall|other: u64| other != id implies self.contains(other) == old(
                        self,
                    ).contains(other) by {
                        if self.contains(other) {
                            let i = choose|i: int| 0 <= i < self.ids@.len() && self.ids@[i] == other;
                            assert(old(self).ids@[i] == other);
                        }
                        if old(self).contains(other) {
                            let i = choose|i: int|
                                0 <= i < old(self).ids@.len() && old(self).ids@[i] == other;
                            assert(self.ids@[i] == other);
                        }
                    }
                    assert forall|other: u64| self.contains(other) implies self.ids@[self.position(
                        other,
                    )] == other && (other != id ==> self.position(other) == old(self).position(
                        other,
                    )) by {
                        let first = self.ids@.index_of(other);
                        assert(self.ids@[first] == other);
                        if other != id {
                            let was = old(self).ids@.index_of(other);
                            assert(old(self).ids@[was] == other);
                            assert(self.ids@[was] == other);
                        }
                    }
                    assert(self.position(id) == last);
                }
            },
        }
    }

    /// Remove a window from the window list. The hubs of the window go with
    /// it.
    pub fn remove_window(&mut self, id: u64)
        requires
            old(self).wf(),
        ensures
            final(self).wf(),
            !final(self).contains(id),
            forall|other: u64| other != id ==> final(self).contains(other) == old(self).contains(other),
            forall|other: u64, kind: WindowEventKind|
                other != id ==> #[trigger] final(self).hub(Target::Window(other, kind)) == old(
                    self,
                ).hub(Target::Window(other, kind)),
            final(self).resumed() == old(self).resumed(),
            final(self).suspended() == old(self).suspended(),
    {
        match self.find(id) {
            Some(at) => {
                let _ = self.ids.remove(at);
                let _ = self.windows.remove(at);
                proof {
                    let before = old(self).ids@;
                    let after = self.ids@;
                    assert forall|other: u64| other != id implies self.contains(other) == old(
                        self,
                    ).contains(other) by {
                        if after.contains(other) {
                            let i = choose|i: int| 0 <= i < after.len() && after[i] == other;
                            assert(before[if i < at {
                                i
                            } else {
                                i + 1
                            }] == other);
                        }
                        if before.contains(other) {
                            let i = choose|i: int| 0 <= i < before.len() && before[i] == other;
                            assert(after[if i < at {
                                i
                            } else {
                                i - 1
                            }] == other);
                        }
                    }
                    if after.contains(id) {
                        let i = choose|i: int| 0 <= i < after.len() && after[i] == id;
                        assert(before[if i < at {
                            i
                        } else {
                            i + 1
                        }] == id);
                    }
                    assert forall|other: u64, kind: WindowEventKind| other != id implies #[trigger]
                        self.hub(Target::Window(other, kind)) == old(self).hub(
                        Target::Window(other, kind),
                    ) by {
                        if self.contains(other) {
                            let now = after.index_of(other);
                            let was = before.index_of(other);
                            assert(after[now] == other);
                            assert(before[was] == other);
                            let from = if now < at {
                                now
                            } else {
                                now + 1
                            };
                            assert(before[from] == other);
                            assert(from == was);
                        }
                    }
                }
            },
            None => {},
        }
    }

    /// The registry is `before` but for the hub that `target` names.
    pub open spec fn differs_at(&self, before: &Self, target: Target) -> bool {
        &&& self.ids() == before.ids()
        &&& self.windows().len() == before.windows().len()
        &&& forall|i: int|
            0 <= i < self.windows().len() ==> (#[trigger] self.windows()[i]).hubs().len()
                == before.windows()[i].hubs().len()
        &&& forall|other: Target| other != target ==> #[trigger] self.hub(other) == before.hub(other)
    }

    /// The hub that `target` names, if the registry has it: the hubs of the
    /// loop, and those of the windows that are registered.
    pub fn hub_mut(&mut self, target: Target) -> (hub: Option<&mut Handler<P, D>>)
        requires
            old(self).wf(),
        ensures
            match hub {
                Some(hub) => {
                    &&& old(self).hub(target) == Some(*hub)
                    &&& hub.wf()
                    &&& final(self).hub(target) == Some(*final(hub))
                    &&& final(self).differs_at(old(self), target)
                },
                None => old(self).hub(target) is None && *final(self) == *old(self),
            },
    {
        match target {
            Target::Resumed => Some(&mut self.resumed),
            Target::Suspended => Some(&mut self.suspended),
            Target::Window(id, kind) => match self.find(id) {
                Some(at) => {
                    assert(self.windows()[at as int].wf());
                    let registration = &mut self.windows[at];
                    Some(registration.hub_mut(kind))
                },
                None => None,
            },
        }
    }

    /// A registry that differs from a well-formed one in one hub, which is
    /// well-formed, is well-formed.
    pub proof fn lemma_differs_wf(&self, before: &Self, target: Target)
        requires
            before.wf(),
            self.differs_at(before, target),
            self.hub(target) is Some ==> self.hub(target).unwrap().wf(),
        ensures
            self.wf(),
    {
        assert(self.hub(Target::Resumed) is Some);
        assert(self.hub(Target::Suspended) is Some);
        if target != Target::Resumed {
            assert(self.hub(Target::Resumed) == before.hub(Target::Resumed));
        }
        if target != Target::Suspended {
            assert(self.hub(Target::Suspended) == before.hub(Target::Suspended));
        }
        assert forall|i: int| 0 <= i < self.windows().len() implies (#[trigger] self.windows()[i]).wf() by {
            let id = self.ids()[i];
            assert(before.windows()[i].wf());
            assert(self.ids().contains(id));
            let first = self.ids().index_of(id);
            assert(self.ids()[first] == id);
            assert(first == i);
            assert forall|k: int| 0 <= k < self.windows()[i].hubs().len() implies (
            #[trigger] self.windows()[i].hubs()[k]).wf() by {
                let kind = kind_at(k);
                assert(slot(kind) == k);
                let here = Target::Window(id, kind);
                if here != target {
                    assert(self.hub(here) == before.hub(here));
                    assert(before.windows()[i].hubs()[k].wf());
                }
            }
        }
    }

    /// Post an event to its hub, after the hub's direct listeners have been
    /// called. The handles to wake are added to `wake`. Returns what the
    /// listeners get to see of the event, or `None` if nobody has ever
    /// listened on the hub. An event for a window that is not registered
    /// goes nowhere.
    pub fn post_event(&mut self, target: Target, event: &mut P::Unique, wake: &mut Vec<Handle>) -> (seen:
        Option<P::Clonable>)
        requires
            old(self).wf(),
        ensures
            final(self).wf(),
            *final(event) == *old(event),
            final(self).differs_at(old(self), target),
            match old(self).hub(target) {
                None => {
                    &&& seen is None
                    &&& final(self).hub(target) is None
                    &&& final(wake)@ == old(wake)@
                },
                Some(before) => {
                    &&& final(self).hub(target) is Some
                    &&& hub_ran(
                        before,
                        final(self).hub(target).unwrap(),
                        *old(event),
                        seen,
                        old(wake)@,
                        final(wake)@,
                    )
                },
            },
    {
        let seen = match self.hub_mut(target) {
            Some(hub) => hub.run_with(event, wake),
            None => None,
        };
        proof {
            self.lemma_differs_wf(old(self), target);
        }
        seen
    }
}

/// The kind whose hub stands at a place in a window's set of hubs.
pub open spec fn kind_at(place: int) -> WindowEventKind {
    if place == 0 {
        WindowEventKind::RedrawRequested
    } else if place == 1 {
        WindowEventKind::CloseRequested
    } else if place == 2 {
        WindowEventKind::Resized
    } else if place == 3 {
        WindowEventKind::Moved
    } else if place == 4 {
        WindowEventKind::Destroyed
    } else if place == 5 {
        WindowEventKind::Focused
    } else if place == 6 {
        WindowEventKind::ReceivedCharacter
    } else if place == 7 {
        WindowEventKind::KeyboardInput
    } else if place == 8 {
        WindowEventKind::ModifiersChanged
    } else if place == 9 {
        WindowEventKind::Ime
    } else if place == 10 {
        WindowEventKind::CursorMoved
    } else if place == 11 {
        WindowEventKind::CursorEntered
    } else if place == 12 {
        WindowEventKind::CursorLeft
    } else if place == 13 {
        WindowEventKind::MouseWheel
    } else if place == 14 {
        WindowEventKind::MouseInput
    } else if place == 15 {
        WindowEventKind::TouchpadMagnify
    } else if place == 16 {
        WindowEventKind::SmartMagnify
    } else if place == 17 {
        WindowEventKind::TouchpadRotate
    } else if place == 18 {
        WindowEventKind::TouchpadPressure
    } else if place == 19 {
        WindowEventKind::AxisMotion
    } else if place == 20 {
        WindowEventKind::Touch
    } else if place == 21 {
        WindowEventKind::ScaleFactorChanged
    } else if place == 22 {
        WindowEventKind::ThemeChanged
    } else {
        WindowEventKind::Occluded
    }
}

} // verus!
