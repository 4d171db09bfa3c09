//! Handle incoming events.
//!
//! A [`Handler`] is the hub of one kind of event. The driver runs an event
//! through it; listeners wait on it. There are four ways to listen:
//!
//! - A direct listener is called inside the dispatch, before anyone else,
//!   in the order of registration.
//! - A one-shot listener waits for the next event and gets it once. An
//!   event that occurs before the listener has registered is missed.
//! - A streaming listener gets a copy of every event from its subscription
//!   on, as long as it does not fall behind by more than the stream keeps.
//! - A waiter stands in a chain with the other waiters. An event goes down
//!   the chain one waiter at a time, in the order of registration, and the
//!   dispatch is not over before the last waiter has passed it on. A waiter
//!   that polls for the event passes it on at once; a waiter that holds the
//!   event passes it on when it lets go.
//!
//! An event reaches the direct listeners first, then the one-shot
//! listeners, then the streaming listeners, then the chain. The hub
//! allocates nothing before somebody listens.

use crate::broadcast::{Broadcast, Channel, Subscriber};
use crate::waiters::{Fifo, Listener, Poll, RegisterResult, Table};
use crate::Handle;
use vstd::prelude::*;

verus! {

/// How many events the stream of a hub keeps for its streaming listeners.
pub const STREAM_CAPACITY: usize = 16;

/// The type of event that can be sent over a [`Handler`].
pub trait Event {
    /// What the listeners get: a copy of the event for each of them.
    type Clonable: Clone;

    /// What the platform hands over: the one event, which the direct
    /// listeners may change.
    type Unique;

    /// `clonable` is what `unique` looks like to the listeners.
    spec fn downgraded(unique: Self::Unique, clonable: Self::Clonable) -> bool;

    /// What the listeners get to see of the event.
    fn downgrade(unique: &mut Self::Unique) -> (clonable: Self::Clonable)
        ensures
            Self::downgraded(*old(unique), clonable),
            *final(unique) == *old(unique),
    ;
}

impl<T: Clone> Event for T {
    type Clonable = T;

    type Unique = T;

    open spec fn downgraded(unique: T, clonable: T) -> bool {
        cloned(unique, clonable)
    }

    fn downgrade(unique: &mut T) -> (clonable: T) {
        (*unique).clone()
    }
}

/// The record of a waiter in the chain.
#[derive(Clone, Copy, Debug, PartialEq, Eq, Structural)]
pub struct Link {
    /// The next waiter in the chain.
    pub next: Option<usize>,
    /// The previous waiter in the chain.
    pub prev: Option<usize>,
    /// The handle to resume the waiter with.
    pub waker: Option<Handle>,
    /// Whether or not the event has reached this waiter.
    pub notified: bool,
}

#[verifier::external_type_specification]
#[verifier::external_body]
#[verifier::reject_recursive_types(T)]
pub struct ExSlab<T>(slab::Slab<T>);

/// The records that a slab of waiters holds, by key.
pub uninterp spec fn slab_entries(slab: slab::Slab<Link>) -> Map<usize, Link>;

/// `slab::Slab::new`: an empty slab.
#[verifier::external_body]
fn slab_new() -> (slab: slab::Slab<Link>)
    ensures
        forall|key: usize| !slab_entries(slab).dom().contains(key),
{
    slab::Slab::new()
}

/// `slab::Slab::insert`: the value is stored under a key that was vacant,
/// and the key is returned.
#[verifier::external_body]
fn slab_insert(slab: &mut slab::Slab<Link>, value: Link) -> (key: usize)
    ensures
        !slab_entries(*old(slab)).dom().contains(key),
        slab_entries(*final(slab)) == slab_entries(*old(slab)).insert(key, value),
{
    slab.insert(value)
}

/// `slab::Slab::remove`: the value under the key leaves the slab. The
/// crate panics on a vacant key.
#[verifier::external_body]
fn slab_remove(slab: &mut slab::Slab<Link>, key: usize) -> (value: Link)
    requires
        slab_entries(*old(slab)).dom().contains(key),
    ensures
        value == slab_entries(*old(slab))[key],
        slab_entries(*final(slab)) == slab_entries(*old(slab)).remove(key),
{
    slab.remove(key)
}

/// `slab::Slab::get`: the value under the key, if the key is occupied.
#[verifier::external_body]
fn slab_get(slab: &slab::Slab<Link>, key: usize) -> (value: Option<Link>)
    ensures
        value == if slab_entries(*slab).dom().contains(key) {
            Some(slab_entries(*slab)[key])
        } else {
            None
        },
{
    slab.get(key).copied()
}

/// `slab::Slab::index_mut`: the value under an occupied key is replaced.
/// The crate panics on a vacant key.
#[verifier::external_body]
fn slab_set(slab: &mut slab::Slab<Link>, key: usize, value: Link)
    requires
        slab_entries(*old(slab)).dom().contains(key),
    ensures
        slab_entries(*final(slab)) == slab_entries(*old(slab)).insert(key, value),
{
    slab[key] = value;
}

/// A waiter as the hub's model sees it.
pub struct Waiting {
    pub key: usize,
    /// The handle to resume the waiter with, if it left one.
    pub waker: Option<Handle>,
    /// The event has reached the waiter, and the waiter has not taken note.
    pub notified: bool,
}

/// The model of a hub's chain of waiters.
pub struct Chain<C> {
    /// The waiters in the order in which they registered.
    pub listeners: Seq<Waiting>,
    /// The handle of the dispatch that waits for the chain to finish.
    pub dispatcher: Option<Handle>,
    /// The event that is going down the chain.
    pub instance: Option<C>,
}

impl<C> Chain<C> {
    pub open spec fn len(self) -> nat {
        self.listeners.len()
    }

    /// The keys of the waiters are distinct.
    pub open spec fn wf(self) -> bool {
        forall|i: int, j: int|
            0 <= i < j < self.listeners.len() ==> self.listeners[i].key != self.listeners[j].key
    }

    pub open spec fn contains(self, key: usize) -> bool {
        exists|i: int| 0 <= i < self.listeners.len() && #[trigger] self.listeners[i].key == key
    }

    /// The position of the waiter with this key.
    pub open spec fn position(self, key: usize) -> int {
        choose|i: int| 0 <= i < self.listeners.len() && #[trigger] self.listeners[i].key == key
    }

    /// An empty chain.
    pub open spec fn empty() -> Chain<C> {
        Chain { listeners: Seq::empty(), dispatcher: None, instance: None }
    }

    /// The chain after a waiter registered under `key`.
    pub open spec fn registered(self, key: usize) -> Chain<C> {
        Chain {
            listeners: self.listeners.push(Waiting { key, waker: None, notified: false }),
            ..self
        }
    }

    /// The chain after the waiter at position `i` left.
    pub open spec fn removed(self, i: int) -> Chain<C> {
        Chain { listeners: self.listeners.remove(i), ..self }
    }

    /// The chain with another record for the waiter at position `i`.
    pub open spec fn with(self, i: int, waker: Option<Handle>, notified: bool) -> Chain<C> {
        Chain {
            listeners: self.listeners.update(
                i,
                Waiting { key: self.listeners[i].key, waker, notified },
            ),
            ..self
        }
    }

    /// The chain after the event reached the waiter at position `i`: the
    /// waiter is notified and its handle is spent. A waiter that was
    /// notified already stays as it is.
    pub open spec fn notified_at(self, i: int) -> Chain<C> {
        if self.listeners[i].notified {
            self
        } else {
            self.with(i, None, true)
        }
    }

    /// The handle woken when the event reaches the waiter at position `i`.
    pub open spec fn woken_at(self, i: int) -> Option<Handle> {
        if self.listeners[i].notified {
            None
        } else {
            self.listeners[i].waker
        }
    }

    /// The chain after the waiter at position `i` took note of the event.
    pub open spec fn taken_at(self, i: int) -> Chain<C> {
        self.with(i, self.listeners[i].waker, false)
    }

    /// The chain after the event went on behind position `i`: it reaches
    /// the next waiter, or, behind the last waiter, it is over and the
    /// dispatch is released.
    pub open spec fn passed_behind(self, i: int) -> Chain<C> {
        if i < self.listeners.len() {
            self.notified_at(i)
        } else {
            Chain { listeners: self.listeners, dispatcher: None, instance: None }
        }
    }

    /// The handle woken when the event goes on behind position `i`.
    pub open spec fn woken_behind(self, i: int) -> Option<Handle> {
        if i < self.listeners.len() {
            self.woken_at(i)
        } else {
            self.dispatcher
        }
    }

    /// The chain after an event was started down it.
    pub open spec fn started(self, event: C) -> Chain<C> {
        if self.listeners.len() == 0 {
            self
        } else {
            Chain { instance: Some(event), ..self }.notified_at(0)
        }
    }

    /// The chain after the waiter at position `i` took note of the event
    /// and passed it on.
    pub open spec fn acknowledged(self, i: int) -> Chain<C> {
        self.taken_at(i).passed_behind(i + 1)
    }

    /// The chain after the first `n` waiters acknowledged the event, one
    /// after the other.
    pub open spec fn after_acknowledgements(self, n: nat) -> Chain<C>
        decreases n,
    {
        if n == 0 {
            self
        } else {
            self.after_acknowledgements((n - 1) as nat).acknowledged(n - 1)
        }
    }

    /// Nobody holds up a dispatch: there is no waiter, or no event is going
    /// down the chain.
    pub open spec fn finished(self) -> bool {
        self.listeners.len() == 0 || self.instance is None
    }
}

/// The direct listeners that stay after a dispatch: those whose call did
/// not ask for their removal, in their order. `remove[i]` is what the call
/// of `directs[i]` returned; a listener without a flag stays.
pub open spec fn kept<D>(directs: Seq<D>, remove: Seq<bool>) -> Seq<D>
    decreases directs.len(),
{
    if directs.len() == 0 {
        directs
    } else {
        let rest = kept(directs.drop_last(), remove);
        if directs.len() <= remove.len() && remove[directs.len() - 1] {
            rest
        } else {
            rest.push(directs.last())
        }
    }
}

/// The state of a hub that somebody listens on.
struct State<T: Event, D> {
    /// The records of the waiters. They form a linked list.
    listeners: slab::Slab<Link>,
    /// List of direct listeners.
    directs: Vec<D>,
    /// The one-shot listeners.
    once: Table<T::Clonable>,
    /// The channel to the streaming listeners.
    stream: Broadcast<T::Clonable>,
    /// The head and tail of the linked list.
    head_and_tail: Option<(usize, usize)>,
    /// The dispatch that waits for the chain to finish.
    waker: Option<Handle>,
    /// The currently active event.
    instance: Option<T::Clonable>,
    /// The keys of the waiters in the order in which they registered.
    order: Ghost<Seq<usize>>,
}

impl<T: Event, D> State<T, D> {
    spec fn entries(&self) -> Map<usize, Link> {
        slab_entries(self.listeners)
    }

    spec fn linked(&self, i: int) -> bool {
        let order = self.order@;
        let k = order[i];
        &&& self.entries().dom().contains(k)
        &&& self.entries()[k].prev == if i == 0 {
            None
        } else {
            Some(order[i - 1])
        }
        &&& self.entries()[k].next == if i + 1 == order.len() {
            None
        } else {
            Some(order[i + 1])
        }
    }

    spec fn wf(&self) -> bool {
        let order = self.order@;
        &&& forall|i: int, j: int| 0 <= i < j < order.len() ==> order[i] != order[j]
        &&& forall|i: int| 0 <= i < order.len() ==> #[trigger] self.linked(i)
        &&& forall|k: usize| #[trigger] self.entries().dom().contains(k) ==> order.contains(k)
        &&& self.head_and_tail == if order.len() == 0 {
            None
        } else {
            Some((order[0], order[order.len() - 1]))
        }
        &&& self.once.wf()
        &&& self.stream.wf()
        &&& self.stream@.capacity == STREAM_CAPACITY
    }

    spec fn chain(&self) -> Chain<T::Clonable> {
        Chain {
            listeners: Seq::new(
                self.order@.len(),
                |i: int|
                    Waiting {
                        key: self.order@[i],
                        waker: self.entries()[self.order@[i]].waker,
                        notified: self.entries()[self.order@[i]].notified,
                    },
            ),
            dispatcher: self.waker,
            instance: self.instance,
        }
    }

    /// A key of the slab is in the chain, at the position that the model
    /// gives for it.
    proof fn lemma_position(&self, key: usize)
        requires
            self.wf(),
            self.entries().dom().contains(key),
        ensures
            self.chain().contains(key),
            0 <= self.chain().position(key) < self.order@.len(),
            self.order@[self.chain().position(key)] == key,
    {
        assert(self.order@.contains(key));
        let i = choose|i: int| 0 <= i < self.order@.len() && self.order@[i] == key;
        assert(self.chain().listeners[i].key == key);
    }

    /// A key of the chain is a key of the slab.
    proof fn lemma_contains(&self, key: usize)
        requires
            self.wf(),
            self.chain().contains(key),
        ensures
            self.entries().dom().contains(key),
    {
        let i = self.chain().position(key);
        assert(self.linked(i));
    }

    proof fn lemma_chain_wf(&self)
        requires
            self.wf(),
        ensures
            self.chain().wf(),
    {
    }

    /// Get a fresh state instance.
    fn new() -> (state: Self)
        ensures
            state.wf(),
            state.chain() == Chain::<T::Clonable>::empty(),
            state.directs@.len() == 0,
            state.once@ == Fifo::<T::Clonable>::empty(),
            state.stream@ == Channel::<T::Clonable>::empty(STREAM_CAPACITY as nat),
    {
        let state = State {
            listeners: slab_new(),
            directs: Vec::new(),
            once: Table::new(),
            stream: Broadcast::new(STREAM_CAPACITY),
            head_and_tail: None,
            waker: None,
            instance: None,
            order: Ghost(Seq::empty()),
        };
        proof {
            assert(state.chain().listeners =~= Seq::empty());
            assert(state.once@.slots =~= Seq::empty());
            assert(state.stream@.sent =~= Seq::empty());
            assert(state.stream@.waiting =~= Seq::empty());
        }
        state
    }

    /// Insert a new listener into the list.
    fn insert(&mut self) -> (key: usize)
        requires
            old(self).wf(),
        ensures
            final(self).wf(),
            !old(self).chain().contains(key),
            final(self).chain() == old(self).chain().registered(key),
            final(self).directs == old(self).directs,
            final(self).once == old(self).once,
            final(self).stream == old(self).stream,
    {
        let ghost before = *self;
        let tail = match self.head_and_tail {
            Some((_, tail)) => Some(tail),
            None => None,
        };
        // Create the listener and insert it into the list.
        let key = slab_insert(
            &mut self.listeners,
            Link { next: None, prev: tail, waker: None, notified: false },
        );
        proof {
            if before.chain().contains(key) {
                before.lemma_contains(key);
            }
        }
        // Update the head and tail.
        match self.head_and_tail {
            Some((head, tail)) => {
                assert(before.linked(before.order@.len() - 1));
                if let Some(last) = slab_get(&self.listeners, tail) {
                    slab_set(
                        &mut self.listeners,
                        tail,
                        Link { next: Some(key), prev: last.prev, waker: last.waker, notified: last.notified },
                    );
                }
                self.head_and_tail = Some((head, key));
            },
            None => {
                self.head_and_tail = Some((key, key));
            },
        }
        self.order = Ghost(before.order@.push(key));
        proof {
            let order = self.order@;
            let last = before.order@.len() as int;
            assert forall|i: int| 0 <= i < order.len() implies #[trigger] self.linked(i) by {
                if i < last {
                    assert(before.linked(i));
                }
            }
            assert forall|i: int, j: int| 0 <= i < j < order.len() implies order[i] != order[j] by {
                if j == last {
                    assert(before.linked(i));
                }
            }
            assert forall|k: usize| #[trigger]
                self.entries().dom().contains(k) implies order.contains(k) by {
                if k == key {
                    assert(order[last] == key);
                } else {
                    assert(before.entries().dom().contains(k));
                    let i = choose|i: int| 0 <= i < before.order@.len() && before.order@[i] == k;
                    assert(order[i] == k);
                }
            }
            assert(self.chain().listeners =~= before.chain().registered(key).listeners) by {
                assert forall|i: int| 0 <= i < last implies self.chain().listeners[i]
                    == before.chain().listeners[i] by {
                    assert(before.linked(i));
                }
            }
        }
        key
    }

    /// Give the waiter under `key` another record, its links aside.
    fn update(&mut self, key: usize, waker: Option<Handle>, notified: bool)
        requires
            old(self).wf(),
            old(self).entries().dom().contains(key),
        ensures
            final(self).wf(),
            final(self).chain() == old(self).chain().with(
                old(self).chain().position(key),
                waker,
                notified,
            ),
            final(self).directs == old(self).directs,
            final(self).once == old(self).once,
            final(self).stream == old(self).stream,
    {
        let ghost before = *self;
        let ghost at = before.chain().position(key);
        proof {
            before.lemma_position(key);
        }
        if let Some(link) = slab_get(&self.listeners, key) {
            slab_set(&mut self.listeners, key, Link { next: link.next, prev: link.prev, waker, notified });
        }
        proof {
            let order = self.order@;
            assert forall|i: int| 0 <= i < order.len() implies #[trigger] self.linked(i) by {
                assert(before.linked(i));
            }
            assert forall|k: usize| #[trigger]
                self.entries().dom().contains(k) implies order.contains(k) by {
                assert(before.entries().dom().contains(k));
            }
            assert(self.chain().listeners =~= before.chain().with(at, waker, notified).listeners) by {
                assert forall|i: int| 0 <= i < order.len() implies self.chain().listeners[i]
                    == before.chain().with(at, waker, notified).listeners[i] by {
                    assert(before.linked(i));
                }
            }
        }
    }

    /// The record of the waiter under `key`, if there is such a waiter.
    fn get(&self, key: usize) -> (found: Option<Link>)
        requires
            self.wf(),
        ensures
            match found {
                Some(link) => {
                    let at = self.chain().position(key);
                    &&& self.chain().contains(key)
                    &&& self.entries().dom().contains(key)
                    &&& link == self.entries()[key]
                    &&& link.waker == self.chain().listeners[at].waker
                    &&& link.notified == self.chain().listeners[at].notified
                    &&& link.next is Some <==> at + 1 < self.chain().len()
                    &&& link.next is Some ==> link.next == Some(self.chain().listeners[at + 1].key)
                },
                None => !self.chain().contains(key),
            },
    {
        let found = slab_get(&self.listeners, key);
        proof {
            if found is Some {
                self.lemma_position(key);
                assert(self.linked(self.chain().position(key)));
            } else if self.chain().contains(key) {
                self.lemma_contains(key);
            }
        }
        found
    }

    /// How the state stands after the waiter at position `at`, with key
    /// `key`, was taken out and its neighbours were linked to each other.
    spec fn unlinked_from(&self, before: &Self, key: usize, at: int) -> bool {
        let taken = before.entries()[key];
        &&& !self.entries().dom().contains(key)
        &&& forall|k: usize|
            k != key ==> {
                &&& (#[trigger] self.entries().dom().contains(k)) == before.entries().dom().contains(k)
                &&& self.entries().dom().contains(k) ==> {
                    &&& self.entries()[k].waker == before.entries()[k].waker
                    &&& self.entries()[k].notified == before.entries()[k].notified
                    &&& self.entries()[k].prev == if taken.next == Some(k) {
                        taken.prev
                    } else {
                        before.entries()[k].prev
                    }
                    &&& self.entries()[k].next == if taken.prev == Some(k) {
                        taken.next
                    } else {
                        before.entries()[k].next
                    }
                }
            }
        &&& self.head_and_tail == if before.order@.len() == 1 {
            None
        } else {
            Some(
                (
                    if at == 0 {
                        before.order@[1]
                    } else {
                        before.order@[0]
                    },
                    if at + 1 == before.order@.len() {
                        before.order@[at - 1]
                    } else {
                        before.order@[before.order@.len() - 1]
                    },
                ),
            )
        }
        &&& self.order@ == before.order@.remove(at)
        &&& self.waker == before.waker
        &&& self.instance == before.instance
        &&& self.directs == before.directs
        &&& self.once == before.once
        &&& self.stream == before.stream
    }

    proof fn lemma_unlinked(&self, before: &Self, key: usize, at: int)
        requires
            before.wf(),
            0 <= at < before.order@.len(),
            before.order@[at] == key,
            self.unlinked_from(before, key, at),
        ensures
            self.wf(),
            self.chain() == before.chain().removed(at),
    {
        let old_order = before.order@;
        let order = self.order@;
        assert(before.linked(at));
        assert forall|i: int| 0 <= i < order.len() implies #[trigger] self.linked(i) by {
            let from = if i < at {
                i
            } else {
                i + 1
            };
            assert(order[i] == old_order[from]);
            assert(before.linked(from));
            assert(old_order[from] != key);
            assert(self.entries().dom().contains(old_order[from]));
            if from > 0 {
                assert(before.linked(from - 1));
            }
            if from + 1 < old_order.len() {
                assert(before.linked(from + 1));
            }
        }
        assert forall|k: usize| #[trigger] self.entries().dom().contains(k) implies order.contains(
            k,
        ) by {
            assert(before.entries().dom().contains(k));
            let j = choose|j: int| 0 <= j < old_order.len() && old_order[j] == k;
            if j < at {
                assert(order[j] == k);
            } else {
                assert(order[j - 1] == k);
            }
        }
        assert(self.chain().listeners =~= before.chain().removed(at).listeners) by {
            assert forall|i: int| 0 <= i < order.len() implies self.chain().listeners[i]
                == before.chain().removed(at).listeners[i] by {
                let from = if i < at {
                    i
                } else {
                    i + 1
                };
                assert(before.linked(from));
                assert(old_order[from] != key);
                assert(self.entries().dom().contains(old_order[from]));
            }
        }
    }

    /// Remove a listener from the list.
    fn remove(&mut self, key: usize) -> (link: Link)
        requires
            old(self).wf(),
            old(self).entries().dom().contains(key),
        ensures
            final(self).wf(),
            link == old(self).entries()[key],
            final(self).chain() == old(self).chain().removed(old(self).chain().position(key)),
            final(self).directs == old(self).directs,
            final(self).once == old(self).once,
            final(self).stream == old(self).stream,
    {
        let ghost before = *self;
        let ghost at = before.chain().position(key);
        proof {
            before.lemma_position(key);
            assert(before.linked(at));
            if at > 0 {
                assert(before.linked(at - 1));
            }
            if at + 1 < before.order@.len() {
                assert(before.linked(at + 1));
            }
            assert(before.linked(0));
            assert(before.linked(before.order@.len() - 1));
        }
        // Get the listener.
        let listener = slab_remove(&mut self.listeners, key);
        // Update the head and tail.
        if let Some((head, tail)) = self.head_and_tail {
            if head == key && tail == key {
                self.head_and_tail = None;
            } else if head == key {
                if let Some(next) = listener.next {
                    self.head_and_tail = Some((next, tail));
                }
            } else if tail == key {
                if let Some(prev) = listener.prev {
                    self.head_and_tail = Some((head, prev));
                }
            }
        }
        // Update the next and previous listeners.
        if let Some(next) = listener.next {
            if let Some(after_it) = slab_get(&self.listeners, next) {
                slab_set(
                    &mut self.listeners,
                    next,
                    Link {
                        next: after_it.next,
                        prev: listener.prev,
                        waker: after_it.waker,
                        notified: after_it.notified,
                    },
                );
            }
        }
        if let Some(prev) = listener.prev {
            if let Some(before_it) = slab_get(&self.listeners, prev) {
                slab_set(
                    &mut self.listeners,
                    prev,
                    Link {
                        next: listener.next,
                        prev: before_it.prev,
                        waker: before_it.waker,
                        notified: before_it.notified,
                    },
                );
            }
        }
        self.order = Ghost(before.order@.remove(at));
        proof {
            assert(self.unlinked_from(&before, key, at));
            self.lemma_unlinked(&before, key, at);
        }
        listener
    }
}

impl<T: Event, D> State<T, D> {
    /// Notify the listener: the event has reached it. Returns the handle to
    /// wake, if the listener left one and was not notified already.
    fn notify(&mut self, key: usize) -> (woken: Option<Handle>)
        requires
            old(self).wf(),
            old(self).entries().dom().contains(key),
        ensures
            final(self).wf(),
            final(self).chain() == old(self).chain().notified_at(old(self).chain().position(key)),
            woken == old(self).chain().woken_at(old(self).chain().position(key)),
            final(self).directs == old(self).directs,
            final(self).once == old(self).once,
            final(self).stream == old(self).stream,
    {
        proof {
            self.lemma_position(key);
        }
        match self.get(key) {
            Some(link) => {
                // If the listener is already notified, return.
                if link.notified {
                    return None;
                }
                self.update(key, None, true);
                // Return the waker.
                link.waker
            },
            None => None,
        }
    }

    /// The event goes on behind the waiter that `next` follows: to the
    /// waiter `next`, or, if there is none, to its end.
    fn notify_next(&mut self, next: Option<usize>, wake: &mut Vec<Handle>)
        requires
            old(self).wf(),
            next is Some ==> old(self).entries().dom().contains(next.unwrap()),
        ensures
            final(self).wf(),
            final(self).directs == old(self).directs,
            final(self).once == old(self).once,
            final(self).stream == old(self).stream,
            ({
                let at = if next is Some {
                    old(self).chain().position(next.unwrap())
                } else {
                    old(self).chain().len() as int
                };
                &&& final(self).chain() == old(self).chain().passed_behind(at)
                &&& final(wake)@ == match old(self).chain().woken_behind(at) {
                    Some(handle) => old(wake)@.push(handle),
                    None => old(wake)@,
                }
            }),
    {
        let woken = match next {
            Some(next) => {
                proof {
                    self.lemma_position(next);
                }
                // Notify the next listener.
                self.notify(next)
            },
            None => {
                // We're done with the chain, notify the top-level task.
                self.instance = None;
                let dispatcher = self.waker;
                self.waker = None;
                proof {
                    assert(self.chain().listeners =~= old(self).chain().listeners);
                    assert forall|i: int| 0 <= i < self.order@.len() implies #[trigger] self.linked(
                        i,
                    ) by {
                        assert(old(self).linked(i));
                    }
                }
                dispatcher
            },
        };
        if let Some(handle) = woken {
            wake.push(handle);
        }
    }
}

/// A waiter's place in the chain of a hub.
pub struct Waiter {
    /// The index of our listener.
    index: usize,
}

impl Waiter {
    /// The key under which the waiter stands in the chain.
    pub closed spec fn key(&self) -> usize {
        self.index
    }
}

/// An event handler: the hub of one kind of event.
pub struct Handler<T: Event, D> {
    /// State of the handler, once somebody listens.
    state: Option<State<T, D>>,
}

impl<T: Event, D> View for Handler<T, D> {
    type V = Chain<T::Clonable>;

    closed spec fn view(&self) -> Chain<T::Clonable> {
        match self.state {
            Some(state) => state.chain(),
            None => Chain::empty(),
        }
    }
}

impl<T: Event, D> Handler<T, D> {
    pub closed spec fn wf(&self) -> bool {
        match self.state {
            Some(state) => state.wf(),
            None => true,
        }
    }

    /// The direct listeners, in the order in which they registered.
    pub closed spec fn directs(&self) -> Seq<D> {
        match self.state {
            Some(state) => state.directs@,
            None => Seq::empty(),
        }
    }

    /// The one-shot listeners.
    pub closed spec fn once(&self) -> Fifo<T::Clonable> {
        match self.state {
            Some(state) => state.once@,
            None => Fifo::empty(),
        }
    }

    /// The channel to the streaming listeners.
    pub closed spec fn stream(&self) -> Channel<T::Clonable> {
        match self.state {
            Some(state) => state.stream@,
            None => Channel::empty(STREAM_CAPACITY as nat),
        }
    }

    /// Somebody has listened on the hub, so that it has its state.
    pub closed spec fn listened(&self) -> bool {
        self.state is Some
    }

    /// The models of a well-formed hub are well-formed.
    pub proof fn lemma_view_wf(&self)
        requires
            self.wf(),
        ensures
            self@.wf(),
            self.once().wf(),
            self.stream().sent.len() <= u64::MAX,
            self.stream().capacity == STREAM_CAPACITY,
    {
        if let Some(state) = self.state {
            state.lemma_chain_wf();
            state.once.lemma_view_wf();
            state.stream.lemma_bounded();
        }
    }

    /// A hub that nobody listens on.
    pub fn new() -> (handler: Self)
        ensures
            handler.wf(),
            !handler.listened(),
            handler@ == Chain::<T::Clonable>::empty(),
            handler.directs().len() == 0,
            handler.once() == Fifo::<T::Clonable>::empty(),
            handler.stream() == Channel::<T::Clonable>::empty(STREAM_CAPACITY as nat),
    {
        Handler { state: None }
    }

    /// Get the inner state, and create it if nobody has listened yet.
    fn state(&mut self) -> (state: &mut State<T, D>)
        requires
            old(self).wf(),
        ensures
            state.wf(),
            state.chain() == old(self)@,
            state.directs@ == old(self).directs(),
            state.once@ == old(self).once(),
            state.stream@ == old(self).stream(),
            final(self).state == Some(*final(state)),
    {
        if self.state.is_none() {
            self.state = Some(State::new());
        }
        match &mut self.state {
            Some(state) => state,
            None => vstd::pervasive::unreached(),
        }
    }

    /// Wait for the next event: join the chain of waiters, at its end.
    pub fn wait(&mut self) -> (waiter: Waiter)
        requires
            old(self).wf(),
        ensures
            final(self).wf(),
            final(self).listened(),
            !old(self)@.contains(waiter.key()),
            final(self)@ == old(self)@.registered(waiter.key()),
            final(self).directs() == old(self).directs(),
            final(self).once() == old(self).once(),
            final(self).stream() == old(self).stream(),
    {
        let state = self.state();
        let index = state.insert();
        Waiter { index }
    }

    /// Register a direct listener, behind those that are registered.
    pub fn wait_direct(&mut self, f: D)
        requires
            old(self).wf(),
        ensures
            final(self).wf(),
            final(self).listened(),
            final(self)@ == old(self)@,
            final(self).directs() == old(self).directs().push(f),
            final(self).once() == old(self).once(),
            final(self).stream() == old(self).stream(),
    {
        let state = self.state();
        let ghost before = *state;
        state.directs.push(f);
        proof {
            assert(state.chain().listeners =~= before.chain().listeners);
            assert forall|i: int| 0 <= i < state.order@.len() implies #[trigger] state.linked(i) by {
                assert(before.linked(i));
            }
        }
    }

    /// Take the direct listeners out of the hub, to call them with the
    /// event while the hub is free for others. They come in the order in
    /// which they registered.
    pub fn take_directs(&mut self) -> (directs: Vec<D>)
        requires
            old(self).wf(),
        ensures
            final(self).wf(),
            final(self).listened() == old(self).listened(),
            final(self)@ == old(self)@,
            directs@ == old(self).directs(),
            final(self).directs().len() == 0,
            final(self).once() == old(self).once(),
            final(self).stream() == old(self).stream(),
    {
        match &mut self.state {
            Some(state) => {
                let ghost before = *state;
                let mut directs: Vec<D> = Vec::new();
                std::mem::swap(&mut directs, &mut state.directs);
                proof {
                    assert(state.chain().listeners =~= before.chain().listeners);
                    assert forall|i: int| 0 <= i < state.order@.len() implies #[trigger] state.linked(
                        i,
                    ) by {
                        assert(before.linked(i));
                    }
                }
                directs
            },
            None => Vec::new(),
        }
    }

    /// Put the direct listeners back after they were called. `remove[i]` is
    /// what the call of `directs[i]` returned: `true` takes the listener out
    /// for good. Those that stay keep their order and stand before the
    /// listeners that registered in the meantime.
    pub fn restore_directs(&mut self, directs: Vec<D>, remove: &Vec<bool>)
        requires
            old(self).wf(),
        ensures
            final(self).wf(),
            final(self)@ == old(self)@,
            final(self).directs() == kept(directs@, remove@) + old(self).directs(),
            final(self).once() == old(self).once(),
            final(self).stream() == old(self).stream(),
    {
        let mut directs = directs;
        let ghost all = directs@;
        let total = directs.len();
        let mut stay: Vec<D> = Vec::new();
        let mut i: usize = 0;
        while i < total
            invariant
                i <= total,
                total == all.len(),
                directs@ == all.skip(i as int),
                stay@ == kept(all.take(i as int), remove@),
            decreases total - i,
        {
            let direct = directs.remove(0);
            let gone = i < remove.len() && remove[i];
            proof {
                assert(all.take(i + 1).drop_last() =~= all.take(i as int));
                assert(all.take(i + 1).last() == direct);
                assert(directs@ =~= all.skip(i + 1));
            }
            if !gone {
                stay.push(direct);
            }
            i = i + 1;
        }
        proof {
            assert(all.take(total as int) =~= all);
        }
        if stay.len() == 0 {
            proof {
                assert(kept(all, remove@) + old(self).directs() =~= old(self).directs());
            }
            return ;
        }
        let state = self.state();
        let ghost before = *state;
        stay.append(&mut state.directs);
        std::mem::swap(&mut stay, &mut state.directs);
        proof {
            assert(state.chain().listeners =~= before.chain().listeners);
            assert forall|i: int| 0 <= i < state.order@.len() implies #[trigger] state.linked(i) by {
                assert(before.linked(i));
            }
        }
    }

    /// The handle that starting an event down the chain wakes.
    pub open spec fn chain_woken(&self) -> Seq<Handle> {
        if self@.len() > 0 {
            match self@.woken_at(0) {
                Some(handle) => seq![handle],
                None => Seq::empty(),
            }
        } else {
            Seq::empty()
        }
    }

    /// The hub is `before` after an event ran through it, of which `seen`
    /// is what the listeners get to see, and `woken` are the handles to
    /// wake for it.
    ///
    /// Every one-shot listener that waited is notified, every streaming
    /// listener finds the event in the stream, and the event is with the
    /// first waiter of the chain. Each of them has a clone of `seen`. The
    /// handles to wake are those of the one-shot listeners in the order of
    /// their registration, then those of the streaming listeners that
    /// waited, then that of the chain's first waiter.
    pub open spec fn ran(&self, before: &Self, seen: T::Clonable, woken: Seq<Handle>) -> bool {
        let once = before.once();
        let stream = before.stream();
        let streamed = stream.sent.len() < u64::MAX;
        &&& self.directs() == before.directs()
        &&& once.notified_to(self.once(), once.waiting())
        &&& forall|i: int|
            once.notified <= i < once.len() ==> cloned(
                seen,
                (#[trigger] self.once().slots[i]).state->Ready_0,
            )
        &&& self.stream().capacity == stream.capacity
        &&& if streamed {
            &&& self.stream().sent.len() == stream.sent.len() + 1
            &&& self.stream().sent.drop_last() == stream.sent
            &&& cloned(seen, self.stream().sent.last())
            &&& self.stream().waiting.len() == 0
        } else {
            self.stream() == stream
        }
        &&& if before@.len() == 0 {
            self@ == before@
        } else {
            &&& self@.instance is Some
            &&& cloned(seen, self@.instance.unwrap())
            &&& self@ == before@.started(self@.instance.unwrap())
        }
        &&& woken == once.woken_by(once.waiting()) + (if streamed {
            stream.waiting
        } else {
            Seq::empty()
        }) + before.chain_woken()
    }

    /// Run an event through the hub, after its direct listeners have been
    /// called. The handles to wake are added to `wake`. Returns what the
    /// listeners get to see of the event, or `None` if nobody has ever
    /// listened on the hub; then nothing happens.
    pub fn run_with(&mut self, event: &mut T::Unique, wake: &mut Vec<Handle>) -> (seen: Option<
        T::Clonable,
    >)
        requires
            old(self).wf(),
        ensures
            final(self).wf(),
            *final(event) == *old(event),
            hub_ran(*old(self), *final(self), *old(event), seen, old(wake)@, final(wake)@),
    {
        // If the state hasn't been created yet, return.
        let state = match &mut self.state {
            Some(state) => state,
            None => {
                return None;
            },
        };
        let ghost before = *state;
        let ghost once = before.once@;
        let ghost stream = before.stream@;
        let seen = T::downgrade(event);
        // The one-shot listeners, first come first served.
        proof {
            state.once.lemma_view_wf();
        }
        let _ = state.once.notify_all(&seen, wake);
        // The streaming listeners.
        let streamed = state.stream.send(seen.clone(), wake);
        proof {
            assert forall|i: int| 0 <= i < state.order@.len() implies #[trigger] state.linked(i) by {
                assert(before.linked(i));
            }
            assert(state.chain().listeners =~= before.chain().listeners);
            if streamed {
                assert(state.stream@.sent.drop_last() =~= stream.sent);
            }
        }
        // The chain of waiters.
        if let Some((head, _)) = state.head_and_tail {
            let ghost unset = *state;
            // Set up the state.
            state.instance = Some(seen.clone());
            proof {
                assert(unset.linked(0));
                assert forall|i: int| 0 <= i < state.order@.len() implies #[trigger] state.linked(
                    i,
                ) by {
                    assert(unset.linked(i));
                }
                state.lemma_position(head);
                assert(state.chain().listeners =~= before.chain().listeners);
            }
            // Notify the first entry in the list.
            if let Some(handle) = state.notify(head) {
                wake.push(handle);
            }
        }
        proof {
            let woken = once.woken_by(once.waiting()) + (if streamed {
                stream.waiting
            } else {
                Seq::empty()
            }) + old(self).chain_woken();
            let shown = Some(seen);
            assert(wake@ =~= old(wake)@ + woken);
            assert(self.ran(old(self), shown.unwrap(), woken));
        }
        Some(seen)
    }

    /// Wait for the next event, once: the listener joins the one-shot
    /// listeners, behind those that wait.
    pub fn wait_once(&mut self, listener: &mut Listener)
        requires
            old(self).wf(),
            old(listener).key() is None,
        ensures
            final(self).wf(),
            final(self).listened(),
            final(listener).key() is Some,
            !old(self).once().contains(final(listener).key().unwrap()),
            final(self).once() == old(self).once().inserted(final(listener).key().unwrap()),
            final(self)@ == old(self)@,
            final(self).directs() == old(self).directs(),
            final(self).stream() == old(self).stream(),
    {
        let state = self.state();
        let ghost before = *state;
        state.once.insert(listener);
        proof {
            assert forall|i: int| 0 <= i < state.order@.len() implies #[trigger] state.linked(i) by {
                assert(before.linked(i));
            }
            assert(state.chain().listeners =~= before.chain().listeners);
        }
    }

    /// Poll a one-shot listener for its event, with `task` as the handle
    /// to resume. A listener that was notified gets its payload and is done;
    /// one that waits keeps waiting, with `task` as its handle.
    ///
    /// A listener that is done, or that never registered, is not to be
    /// polled.
    pub fn poll_once(&mut self, listener: &mut Listener, task: Handle) -> (event: Poll<T::Clonable>)
        requires
            old(self).wf(),
            old(listener).key() is Some,
        ensures
            final(self).wf(),
            final(self)@ == old(self)@,
            final(self).directs() == old(self).directs(),
            final(self).stream() == old(self).stream(),
            if old(self).once().contains(old(listener).key().unwrap()) {
                let at = old(self).once().position(old(listener).key().unwrap());
                match old(self).once().slots[at].state {
                    crate::waiters::State::Ready(payload) => {
                        &&& event == Poll::Ready(payload)
                        &&& final(self).once() == old(self).once().removed(at)
                        &&& final(listener).key() is None
                    },
                    _ => {
                        &&& event is Pending
                        &&& final(self).once() == old(self).once().with_state(
                            at,
                            crate::waiters::State::Listening(task),
                        )
                        &&& final(listener).key() == old(listener).key()
                    },
                }
            } else {
                &&& event is Pending
                &&& final(self).once() == old(self).once()
                &&& final(listener).key() == old(listener).key()
            },
    {
        let state = match &mut self.state {
            Some(state) => state,
            None => {
                return Poll::Pending;
            },
        };
        let ghost before = *state;
        proof {
            state.once.lemma_view_wf();
        }
        let registered = state.once.register(listener, task);
        proof {
            assert forall|i: int| 0 <= i < state.order@.len() implies #[trigger] state.linked(i) by {
                assert(before.linked(i));
            }
            assert(state.chain().listeners =~= before.chain().listeners);
        }
        match registered {
            RegisterResult::Notified(payload) => Poll::Ready(payload),
            RegisterResult::Task => Poll::Pending,
            RegisterResult::NoTask => Poll::Pending,
        }
    }

    /// A one-shot listener goes away. An event that it was notified of and
    /// has not taken goes to the next one-shot listener that waits, whose
    /// handle, if it left one, is added to `wake`.
    pub fn drop_once(&mut self, listener: &mut Listener, wake: &mut Vec<Handle>)
        requires
            old(self).wf(),
        ensures
            final(self).wf(),
            final(listener).key() is None,
            final(self)@ == old(self)@,
            final(self).directs() == old(self).directs(),
            final(self).stream() == old(self).stream(),
            if old(listener).key() is Some && old(self).once().contains(old(listener).key().unwrap()) {
                let at = old(self).once().position(old(listener).key().unwrap());
                let held = old(self).once().slots[at].state;
                let rest = old(self).once().removed(at);
                if held is Ready {
                    &&& final(self).once() == rest.delivered(held->Ready_0)
                    &&& final(wake)@ == old(wake)@ + rest.next_woken()
                } else {
                    &&& final(self).once() == rest
                    &&& final(wake)@ == old(wake)@
                }
            } else {
                &&& final(self).once() == old(self).once()
                &&& final(wake)@ == old(wake)@
            },
    {
        let state = match &mut self.state {
            Some(state) => state,
            None => {
                let mut stray: Table<T::Clonable> = Table::new();
                let _ = stray.remove(listener, true, wake);
                return ;
            },
        };
        let ghost before = *state;
        let _ = state.once.remove(listener, true, wake);
        proof {
            assert forall|i: int| 0 <= i < state.order@.len() implies #[trigger] state.linked(i) by {
                assert(before.linked(i));
            }
            assert(state.chain().listeners =~= before.chain().listeners);
        }
    }

    /// Wait for every event from now on: a subscription to the hub's
    /// stream.
    pub fn wait_many(&mut self) -> (subscriber: Subscriber)
        requires
            old(self).wf(),
        ensures
            final(self).wf(),
            final(self).listened(),
            subscriber.next() == old(self).stream().sent.len(),
            final(self)@ == old(self)@,
            final(self).directs() == old(self).directs(),
            final(self).once() == old(self).once(),
            final(self).stream() == old(self).stream(),
    {
        let state = self.state();
        state.stream.subscribe()
    }

    /// Poll a streaming listener for its next event, with `task` as the
    /// handle to resume. The listener reads the oldest event that it has
    /// not read, or, if the stream has dropped that one, the oldest that the
    /// stream keeps.
    pub fn poll_many(&mut self, subscriber: &mut Subscriber, task: Handle) -> (event: Poll<T::Clonable>)
        requires
            old(self).wf(),
        ensures
            final(self).wf(),
            final(self)@ == old(self)@,
            final(self).directs() == old(self).directs(),
            final(self).once() == old(self).once(),
            final(self).stream().sent == old(self).stream().sent,
            final(self).stream().capacity == old(self).stream().capacity,
            ({
                let stream = old(self).stream();
                let at = stream.cursor(old(subscriber).next());
                if at < stream.sent.len() {
                    &&& event is Ready
                    &&& cloned(stream.sent[at as int], event->Ready_0)
                    &&& final(subscriber).next() == at + 1
                    &&& final(self).stream().waiting == stream.waiting
                } else {
                    &&& event is Pending
                    &&& final(subscriber).next() == old(subscriber).next()
                    &&& final(self).stream().waiting == if stream.waiting.contains(task) {
                        stream.waiting
                    } else {
                        stream.waiting.push(task)
                    }
                }
            }),
    {
        let state = self.state();
        let ghost before = *state;
        let event = state.stream.poll_recv(subscriber, task);
        proof {
            assert forall|i: int| 0 <= i < state.order@.len() implies #[trigger] state.linked(i) by {
                assert(before.linked(i));
            }
            assert(state.chain().listeners =~= before.chain().listeners);
        }
        event
    }

    /// A streaming listener goes away: the next event no longer wakes the
    /// task behind `task` on its account.
    pub fn drop_many(&mut self, task: Handle)
        requires
            old(self).wf(),
        ensures
            final(self).wf(),
            final(self)@ == old(self)@,
            final(self).directs() == old(self).directs(),
            final(self).once() == old(self).once(),
            final(self).stream().sent == old(self).stream().sent,
            final(self).stream().capacity == old(self).stream().capacity,
            final(self).stream().waiting == old(self).stream().waiting.filter(|h: Handle| h != task),
    {
        let state = self.state();
        let ghost before = *state;
        state.stream.forget(task);
        proof {
            assert forall|i: int| 0 <= i < state.order@.len() implies #[trigger] state.linked(i) by {
                assert(before.linked(i));
            }
            assert(state.chain().listeners =~= before.chain().listeners);
        }
    }

    /// Poll for the end of the dispatch, with `task` as the handle to
    /// resume. The dispatch is over when there is no waiter or the event
    /// has gone down the whole chain; until then `task` is noted as the
    /// handle of the dispatch.
    pub fn poll_run(&mut self, task: Handle) -> (done: Poll<()>)
        requires
            old(self).wf(),
        ensures
            final(self).wf(),
            final(self).directs() == old(self).directs(),
            final(self).once() == old(self).once(),
            final(self).stream() == old(self).stream(),
            if old(self)@.finished() {
                &&& done is Ready
                &&& final(self)@ == old(self)@
            } else {
                &&& done is Pending
                &&& final(self)@ == (Chain { dispatcher: Some(task), ..old(self)@ })
            },
    {
        let state = match &mut self.state {
            Some(state) => state,
            None => {
                return Poll::Ready(());
            },
        };
        // If there are no listeners, return.
        if state.head_and_tail.is_none() {
            return Poll::Ready(());
        }
        // If the waking is over, return.
        if state.instance.is_none() {
            return Poll::Ready(());
        }
        let ghost before = *state;
        // Set the waker and return.
        state.waker = Some(task);
        proof {
            assert(state.chain().listeners =~= before.chain().listeners);
            assert forall|i: int| 0 <= i < state.order@.len() implies #[trigger] state.linked(i) by {
                assert(before.linked(i));
            }
        }
        Poll::Pending
    }

    /// Poll for the event and keep it from moving on: the hold of a
    /// waiter, with `task` as the handle to resume.
    ///
    /// A waiter that the event has reached takes note and gets its copy of
    /// the event; the event stays with it until [`Handler::release`]. Any
    /// other waiter leaves `task` as its handle.
    pub fn poll_hold(&mut self, waiter: &Waiter, task: Handle) -> (held: Poll<T::Clonable>)
        requires
            old(self).wf(),
        ensures
            final(self).wf(),
            final(self).directs() == old(self).directs(),
            final(self).once() == old(self).once(),
            final(self).stream() == old(self).stream(),
            if !old(self)@.contains(waiter.key()) {
                &&& held is Pending
                &&& final(self)@ == old(self)@
            } else {
                let at = old(self)@.position(waiter.key());
                if old(self)@.listeners[at].notified {
                    &&& final(self)@ == old(self)@.taken_at(at)
                    &&& match old(self)@.instance {
                        Some(event) => held is Ready && cloned(event, held->Ready_0),
                        None => held is Pending,
                    }
                } else {
                    &&& held is Pending
                    &&& final(self)@ == old(self)@.with(at, Some(task), false)
                }
            },
    {
        let state = match &mut self.state {
            Some(state) => state,
            None => {
                return Poll::Pending;
            },
        };
        let link = match state.get(waiter.index) {
            Some(link) => link,
            None => {
                return Poll::Pending;
            },
        };
        // See if we are notified.
        if link.notified {
            state.update(waiter.index, link.waker, false);
            match &state.instance {
                Some(event) => Poll::Ready(event.clone()),
                None => Poll::Pending,
            }
        } else {
            // Register the waker and sleep.
            state.update(waiter.index, Some(task), false);
            Poll::Pending
        }
    }

    /// Let go of an event that the waiter held: the event goes on to the
    /// next waiter, or the dispatch is over. The handle to wake for that is
    /// added to `wake`.
    pub fn release(&mut self, waiter: &Waiter, wake: &mut Vec<Handle>)
        requires
            old(self).wf(),
        ensures
            final(self).wf(),
            final(self).directs() == old(self).directs(),
            final(self).once() == old(self).once(),
            final(self).stream() == old(self).stream(),
            if !old(self)@.contains(waiter.key()) {
                &&& final(self)@ == old(self)@
                &&& final(wake)@ == old(wake)@
            } else {
                let behind = old(self)@.position(waiter.key()) + 1;
                &&& final(self)@ == old(self)@.passed_behind(behind)
                &&& final(wake)@ == match old(self)@.woken_behind(behind) {
                    Some(handle) => old(wake)@.push(handle),
                    None => old(wake)@,
                }
            },
    {
        let state = match &mut self.state {
            Some(state) => state,
            None => {
                return ;
            },
        };
        let link = match state.get(waiter.index) {
            Some(link) => link,
            None => {
                return ;
            },
        };
        proof {
            state.lemma_position(waiter.index);
            assert(state.linked(state.chain().position(waiter.index)));
            if link.next is Some {
                let at = state.chain().position(waiter.index);
                assert(state.linked(at + 1));
                state.lemma_position(link.next.unwrap());
            }
        }
        state.notify_next(link.next, wake);
    }

    /// Poll for the event, with `task` as the handle to resume.
    ///
    /// A waiter that the event has reached takes note, gets its copy of the
    /// event and passes the event on at once. Any other waiter leaves
    /// `task` as its handle.
    pub fn poll_next(&mut self, waiter: &Waiter, task: Handle, wake: &mut Vec<Handle>) -> (next: Poll<
        T::Clonable,
    >)
        requires
            old(self).wf(),
        ensures
            final(self).wf(),
            final(self).directs() == old(self).directs(),
            final(self).once() == old(self).once(),
            final(self).stream() == old(self).stream(),
            if !old(self)@.contains(waiter.key()) {
                &&& next is Pending
                &&& final(self)@ == old(self)@
                &&& final(wake)@ == old(wake)@
            } else {
                let at = old(self)@.position(waiter.key());
                if old(self)@.listeners[at].notified {
                    let taken = old(self)@.taken_at(at);
                    match old(self)@.instance {
                        Some(event) => {
                            &&& next is Ready
                            &&& cloned(event, next->Ready_0)
                            &&& final(self)@ == taken.passed_behind(at + 1)
                            &&& final(wake)@ == match taken.woken_behind(at + 1) {
                                Some(handle) => old(wake)@.push(handle),
                                None => old(wake)@,
                            }
                        },
                        None => {
                            &&& next is Pending
                            &&& final(self)@ == taken
                            &&& final(wake)@ == old(wake)@
                        },
                    }
                } else {
                    &&& next is Pending
                    &&& final(self)@ == old(self)@.with(at, Some(task), false)
                    &&& final(wake)@ == old(wake)@
                }
            },
    {
        proof {
            self.lemma_view_wf();
        }
        match self.poll_hold(waiter, task) {
            Poll::Ready(event) => {
                proof {
                    self.lemma_view_wf();
                    let at = old(self)@.position(waiter.key());
                    assert(self@.listeners[at].key == waiter.key());
                }
                // Notify the next listener in the chain.
                self.release(waiter, wake);
                // Return the event.
                Poll::Ready(event)
            },
            Poll::Pending => Poll::Pending,
        }
    }

    /// The waiter goes away. It leaves the chain, and an event that had
    /// reached it and that it had not taken note of goes on to the waiter
    /// that stood behind it, so that the dispatch is not left waiting.
    pub fn drop_waiter(&mut self, waiter: Waiter, wake: &mut Vec<Handle>)
        requires
            old(self).wf(),
        ensures
            final(self).wf(),
            final(self).directs() == old(self).directs(),
            final(self).once() == old(self).once(),
            final(self).stream() == old(self).stream(),
            if !old(self)@.contains(waiter.key()) {
                &&& final(self)@ == old(self)@
                &&& final(wake)@ == old(wake)@
            } else {
                let at = old(self)@.position(waiter.key());
                let rest = old(self)@.removed(at);
                if old(self)@.listeners[at].notified {
                    &&& final(self)@ == rest.passed_behind(at)
                    &&& final(wake)@ == match rest.woken_behind(at) {
                        Some(handle) => old(wake)@.push(handle),
                        None => old(wake)@,
                    }
                } else {
                    &&& final(self)@ == rest
                    &&& final(wake)@ == old(wake)@
                }
            },
    {
        let state = match &mut self.state {
            Some(state) => state,
            None => {
                return ;
            },
        };
        if state.get(waiter.index).is_none() {
            return ;
        }
        let ghost before = *state;
        let ghost at = before.chain().position(waiter.index);
        proof {
            before.lemma_position(waiter.index);
            assert(before.linked(at));
            if at + 1 < before.order@.len() {
                assert(before.linked(at + 1));
            }
        }
        // Remove the listener.
        let listener = state.remove(waiter.index);
        // Notify the next listener if we are notified.
        if listener.notified {
            proof {
                if listener.next is Some {
                    let next = listener.next.unwrap();
                    assert(state.chain().listeners[at].key == next);
                    state.lemma_chain_wf();
                    state.lemma_contains(next);
                    state.lemma_position(next);
                }
            }
            state.notify_next(listener.next, wake);
        }
    }
}

/// The hold barrier: an event is with one waiter at a time, in the order
/// of registration, and its dispatch is not over before every waiter has
/// acknowledged it.
///
/// Start an event down a chain of `K >= 1` waiters that the previous event
/// has left. After the first `n < K` waiters have acknowledged it, the event
/// is still under way, so the dispatch is not finished, and the waiter at
/// position `n` is the one waiter that is notified. After all `K` have
/// acknowledged it, no event is under way and nobody is notified.
pub proof fn lemma_hold_barrier<C>(chain: Chain<C>, event: C, n: nat)
    requires
        chain.len() >= 1,
        forall|i: int| 0 <= i < chain.len() ==> !(#[trigger] chain.listeners[i]).notified,
        n <= chain.len(),
    ensures
        ({
            let now = chain.started(event).after_acknowledgements(n);
            &&& now.len() == chain.len()
            &&& forall|i: int|
                0 <= i < chain.len() ==> (#[trigger] now.listeners[i]).key == chain.listeners[i].key
            &&& forall|i: int|
                0 <= i < chain.len() ==> ((#[trigger] now.listeners[i]).notified <==> i == n)
            &&& if n < chain.len() {
                now.instance == Some(event) && !now.finished()
            } else {
                now.instance is None && now.finished()
            }
        }),
    decreases n,
{
    if n > 0 {
        lemma_hold_barrier(chain, event, (n - 1) as nat);
        let before = chain.started(event).after_acknowledgements((n - 1) as nat);
        let taken = before.taken_at(n - 1);
        assert(!taken.listeners[n - 1].notified);
        if n < chain.len() {
            assert(!taken.listeners[n as int].notified);
        }
    }
}

/// What running an event through a hub does: `after` is the hub `before`
/// once the event has run through it.
pub open spec fn hub_ran<T: Event, D>(
    before: Handler<T, D>,
    after: Handler<T, D>,
    event: T::Unique,
    seen: Option<T::Clonable>,
    wake_before: Seq<Handle>,
    wake_after: Seq<Handle>,
) -> bool {
    &&& after.listened() == before.listened()
    &&& if seen is Some {
        &&& before.listened()
        &&& T::downgraded(event, seen.unwrap())
        &&& exists|woken: Seq<Handle>|
            wake_after == wake_before + woken && #[trigger] after.ran(&before, seen.unwrap(), woken)
    } else {
        &&& !before.listened()
        &&& after@ == before@
        &&& after.directs() == before.directs()
        &&& after.once() == before.once()
        &&& after.stream() == before.stream()
        &&& wake_after == wake_before
    }
}

} // verus!
