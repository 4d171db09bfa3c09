//! The waiter list: one-shot listeners waiting for the next occurrence of an
//! event, notified in the order in which they registered.
//!
//! Listener records live in an arena and are linked to their neighbours by
//! index, so a registration costs no allocation once the arena has grown to
//! the number of concurrently pending waits, and a listener can be unlinked
//! from any position in constant time.

use crate::Handle;
use vstd::prelude::*;

verus! {

/// What a listener slot holds.
pub enum State<T> {
    /// The listener was inserted and has not been polled yet.
    Created,
    /// The listener waits; the handle resumes it.
    Listening(Handle),
    /// The listener was notified and has not consumed the payload yet.
    Ready(T),
    /// The listener's payload was handed on.
    Done,
}

/// The outcome of registering a resumption handle with a listener.
pub enum RegisterResult<T> {
    /// The listener is in no list.
    NoTask,
    /// The handle was stored; the listener keeps waiting.
    Task,
    /// The listener had been notified; this is its payload.
    Notified(T),
}

/// The result of polling: a value, or nothing yet.
pub enum Poll<T> {
    Ready(T),
    Pending,
}

/// One listener as the list's model sees it.
pub struct Slot<T> {
    pub key: usize,
    pub state: State<T>,
}

/// The model of a waiter list: its listeners in registration order, of which
/// the first `notified` have been notified.
pub struct Fifo<T> {
    pub slots: Seq<Slot<T>>,
    pub notified: nat,
}

impl<T> State<T> {
    /// The listener has not been notified.
    pub open spec fn waiting(self) -> bool {
        self is Created || self is Listening
    }
}

/// The handles of the listening slots of `slots`, in order.
pub open spec fn handles<T>(slots: Seq<Slot<T>>) -> Seq<Handle>
    decreases slots.len(),
{
    if slots.len() == 0 {
        Seq::empty()
    } else {
        let rest = handles(slots.drop_last());
        match slots.last().state {
            State::Listening(h) => rest.push(h),
            _ => rest,
        }
    }
}

impl<T> Fifo<T> {
    pub open spec fn len(self) -> nat {
        self.slots.len()
    }

    /// A list without listeners.
    pub open spec fn empty() -> Fifo<T> {
        Fifo { slots: Seq::empty(), notified: 0 }
    }

    /// How many listeners have not been notified.
    pub open spec fn waiting(self) -> nat {
        (self.slots.len() - self.notified) as nat
    }

    /// Keys are distinct, notified slots come first and hold a payload, and
    /// the slots behind them wait.
    pub open spec fn wf(self) -> bool {
        &&& self.notified <= self.slots.len()
        &&& forall|i: int, j: int|
            0 <= i < j < self.slots.len() ==> self.slots[i].key != self.slots[j].key
        &&& forall|i: int|
            0 <= i < self.slots.len() ==> if i < self.notified {
                (#[trigger] self.slots[i]).state is Ready
            } else {
                self.slots[i].state.waiting()
            }
    }

    pub open spec fn contains(self, key: usize) -> bool {
        exists|i: int| 0 <= i < self.slots.len() && #[trigger] self.slots[i].key == key
    }

    /// The position of the slot with this key.
    pub open spec fn position(self, key: usize) -> int {
        choose|i: int| 0 <= i < self.slots.len() && #[trigger] self.slots[i].key == key
    }

    pub open spec fn state_of(self, key: usize) -> State<T> {
        self.slots[self.position(key)].state
    }

    /// The list after a new listener registered under `key`.
    pub open spec fn inserted(self, key: usize) -> Fifo<T> {
        Fifo { slots: self.slots.push(Slot { key, state: State::Created }), notified: self.notified }
    }

    /// The list after the slot at position `i` was unlinked.
    pub open spec fn removed(self, i: int) -> Fifo<T> {
        Fifo {
            slots: self.slots.remove(i),
            notified: if i < self.notified {
                (self.notified - 1) as nat
            } else {
                self.notified
            },
        }
    }

    /// The list after the slot at position `i` was given a state.
    pub open spec fn with_state(self, i: int, state: State<T>) -> Fifo<T> {
        Fifo {
            slots: self.slots.update(i, Slot { key: self.slots[i].key, state }),
            notified: self.notified,
        }
    }

    /// The list after one payload was delivered: the first waiting slot, if
    /// there is one, holds it.
    pub open spec fn delivered(self, payload: T) -> Fifo<T> {
        if self.notified < self.slots.len() {
            Fifo {
                slots: self.slots.update(
                    self.notified as int,
                    Slot { key: self.slots[self.notified as int].key, state: State::Ready(payload) },
                ),
                notified: self.notified + 1,
            }
        } else {
            self
        }
    }

    /// `after` is this list with its first `count` waiting slots notified:
    /// each of them holds a payload, and nothing else has changed.
    pub open spec fn notified_to(self, after: Fifo<T>, count: nat) -> bool {
        &&& self.notified + count <= self.slots.len()
        &&& after.notified == self.notified + count
        &&& after.slots.len() == self.slots.len()
        &&& forall|i: int|
            0 <= i < self.slots.len() ==> (#[trigger] after.slots[i]).key == self.slots[i].key
        &&& forall|i: int|
            self.notified <= i < self.notified + count ==> (#[trigger] after.slots[i]).state is Ready
        &&& forall|i: int|
            0 <= i < self.slots.len() && !(self.notified <= i < self.notified + count)
                ==> #[trigger] after.slots[i] == self.slots[i]
    }

    /// The handles that notifying the first `count` waiting slots wakes, in
    /// order.
    pub open spec fn woken_by(self, count: nat) -> Seq<Handle> {
        handles(self.slots.subrange(self.notified as int, (self.notified + count) as int))
    }

    /// The handle that the next delivery wakes: that of the first waiting
    /// slot, if it listens.
    pub open spec fn next_woken(self) -> Seq<Handle> {
        if self.notified < self.slots.len() {
            match self.slots[self.notified as int].state {
                State::Listening(h) => seq![h],
                _ => Seq::empty(),
            }
        } else {
            Seq::empty()
        }
    }
}

/// A listener's place in a waiter list. A listener is in at most one list.
pub struct Listener {
    entry: Option<usize>,
}

impl Listener {
    /// The key under which the listener is registered, if it is.
    pub closed spec fn key(&self) -> Option<usize> {
        self.entry
    }

    /// A listener that is in no list.
    pub fn new() -> (listener: Listener)
        ensures
            listener.key() is None,
    {
        Listener { entry: None }
    }

    pub fn is_empty(&self) -> (empty: bool)
        ensures
            empty == (self.key() is None),
    {
        self.entry.is_none()
    }
}

struct Entry<T> {
    state: State<T>,
    next: Option<usize>,
    prev: Option<usize>,
}

/// The waiter list.
pub struct Table<T> {
    /// The arena. A vacant slot is `None`.
    slots: Vec<Option<Entry<T>>>,
    /// The vacant slots of the arena.
    free: Vec<usize>,
    /// The first listener in registration order.
    head: Option<usize>,
    /// The last listener in registration order.
    tail: Option<usize>,
    /// The first listener that has not been notified.
    start: Option<usize>,
    /// The number of listeners.
    len: usize,
    /// The keys in registration order.
    order: Ghost<Seq<usize>>,
    /// How many listeners at the front of `order` have been notified.
    notified: Ghost<nat>,
}

impl<T> View for Table<T> {
    type V = Fifo<T>;

    closed spec fn view(&self) -> Fifo<T> {
        Fifo {
            slots: Seq::new(
                self.order@.len(),
                |i: int| Slot { key: self.order@[i], state: self.entry(self.order@[i]).state },
            ),
            notified: self.notified@,
        }
    }
}

impl<T> Table<T> {
    spec fn occupied(&self, key: usize) -> bool {
        key < self.slots@.len() && self.slots@[key as int] is Some
    }

    spec fn entry(&self, key: usize) -> Entry<T> {
        self.slots@[key as int].unwrap()
    }

    spec fn linked(&self, i: int) -> bool {
        let order = self.order@;
        let k = order[i];
        &&& self.occupied(k)
        &&& self.entry(k).prev == if i == 0 {
            None
        } else {
            Some(order[i - 1])
        }
        &&& self.entry(k).next == if i + 1 == order.len() {
            None
        } else {
            Some(order[i + 1])
        }
        &&& if i < self.notified@ {
            self.entry(k).state is Ready
        } else {
            self.entry(k).state.waiting()
        }
    }

    /// The links agree with the registration order, `head`, `tail` and
    /// `start` point where the order says, and every slot of the arena is
    /// either linked or on the free list.
    pub closed spec fn wf(&self) -> bool {
        let order = self.order@;
        &&& self.len == order.len()
        &&& order.len() + self.free@.len() == self.slots@.len()
        &&& self.notified@ <= order.len()
        &&& forall|i: int, j: int| 0 <= i < j < order.len() ==> order[i] != order[j]
        &&& forall|i: int| 0 <= i < order.len() ==> #[trigger] self.linked(i)
        &&& forall|k: usize| #[trigger] self.occupied(k) ==> order.contains(k)
        &&& forall|j: int|
            0 <= j < self.free@.len() ==> (#[trigger] self.free@[j]) < self.slots@.len()
                && self.slots@[self.free@[j] as int] is None
        &&& forall|i: int, j: int| 0 <= i < j < self.free@.len() ==> self.free@[i] != self.free@[j]
        &&& self.head == if order.len() == 0 {
            None
        } else {
            Some(order[0])
        }
        &&& self.tail == if order.len() == 0 {
            None
        } else {
            Some(order[order.len() - 1])
        }
        &&& self.start == if self.notified@ < order.len() {
            Some(order[self.notified@ as int])
        } else {
            None
        }
    }

    /// A well-formed list has a well-formed model.
    pub proof fn lemma_view_wf(&self)
        requires
            self.wf(),
        ensures
            self@.wf(),
    {
        let v = self@;
        assert forall|i: int| 0 <= i < v.slots.len() implies if i < v.notified {
            (#[trigger] v.slots[i]).state is Ready
        } else {
            v.slots[i].state.waiting()
        } by {
            assert(self.linked(i));
        }
    }

    /// Create a new, empty list.
    pub fn new() -> (table: Table<T>)
        ensures
            table.wf(),
            table@.slots.len() == 0,
            table@.notified == 0,
    {
        Table {
            slots: Vec::new(),
            free: Vec::new(),
            head: None,
            tail: None,
            start: None,
            len: 0,
            order: Ghost(Seq::empty()),
            notified: Ghost(0),
        }
    }

    /// An occupied slot is in the order, at the position that the model
    /// gives for its key.
    proof fn lemma_position(&self, key: usize)
        requires
            self.wf(),
            self.occupied(key),
        ensures
            self@.contains(key),
            0 <= self@.position(key) < self.order@.len(),
            self.order@[self@.position(key)] == key,
            self@.state_of(key) == self.entry(key).state,
    {
        assert(self.order@.contains(key));
        let i = choose|i: int| 0 <= i < self.order@.len() && self.order@[i] == key;
        assert(self@.slots[i].key == key);
    }

    /// A key that the model holds is an occupied slot.
    proof fn lemma_contains(&self, key: usize)
        requires
            self.wf(),
            self@.contains(key),
        ensures
            self.occupied(key),
    {
        let i = self@.position(key);
        assert(self.linked(i));
    }

    /// Insert a listener at the tail of the list. If no listener was
    /// waiting, the new one is the next to be notified.
    pub fn insert(&mut self, listener: &mut Listener)
        requires
            old(self).wf(),
            old(listener).key() is None,
        ensures
            final(self).wf(),
            final(listener).key() is Some,
            !old(self)@.contains(final(listener).key().unwrap()),
            final(self)@ == old(self)@.inserted(final(listener).key().unwrap()),
    {
        let ghost before = *self;
        let entry = Entry { state: State::Created, next: None, prev: self.tail };
        let key: usize = match self.free.pop() {
            Some(k) => {
                self.slots[k] = Some(entry);
                k
            },
            None => {
                self.slots.push(Some(entry));
                self.slots.len() - 1
            },
        };
        proof {
            if before@.contains(key) {
                before.lemma_contains(key);
            }
            assert(!before.occupied(key));
        }
        match self.tail {
            None => {
                self.head = Some(key);
            },
            Some(t) => {
                assert(before.linked(before.order@.len() - 1));
                match &mut self.slots[t] {
                    Some(last) => {
                        last.next = Some(key);
                    },
                    None => {},
                }
            },
        }
        self.tail = Some(key);
        if self.start.is_none() {
            self.start = Some(key);
        }
        let total = self.slots.len();
        assert(self.len < total);
        self.len = self.len + 1;
        self.order = Ghost(before.order@.push(key));
        listener.entry = Some(key);
        proof {
            let order = self.order@;
            let last = before.order@.len() as int;
            assert forall|i: int| 0 <= i < order.len() implies #[trigger] self.linked(i) by {
                if i < last {
                    assert(before.linked(i));
                }
            }
            assert forall|i: int, j: int| 0 <= i < j < order.len() implies order[i] != order[j] by {
                if j == last {
                    assert(before.linked(i));
                }
            }
            assert forall|k: usize| #[trigger] self.occupied(k) implies order.contains(k) by {
                if k == key {
                    assert(order[last] == key);
                } else {
                    assert(before.occupied(k));
                    let i = choose|i: int| 0 <= i < before.order@.len() && before.order@[i] == k;
                    assert(order[i] == k);
                }
            }
            assert forall|j: int| 0 <= j < self.free@.len() implies (#[trigger] self.free@[j])
                < self.slots@.len() && self.slots@[self.free@[j] as int] is None by {
                assert(self.free@[j] == before.free@[j]);
            }
            assert(self@.slots =~= before@.inserted(key).slots) by {
                assert forall|i: int| 0 <= i < last implies self@.slots[i] == before@.slots[i] by {
                    assert(before.linked(i));
                }
            }
        }
    }

    /// Hand one payload to the first waiting listener, if there is one, and
    /// note the handle to wake if it listens. With no waiting listener the
    /// payload is dropped.
    fn deliver(&mut self, payload: T, wakers: &mut Vec<Handle>) -> (delivered: bool)
        requires
            old(self).wf(),
        ensures
            final(self).wf(),
            delivered == (old(self)@.notified < old(self)@.len()),
            final(self)@ == old(self)@.delivered(payload),
            final(wakers)@ == old(wakers)@ + old(self)@.next_woken(),
    {
        let ghost before = *self;
        match self.start {
            None => {
                assert(wakers@ =~= old(wakers)@ + before@.next_woken());
                false
            },
            Some(e) => {
                let ghost at = before.notified@ as int;
                assert(before.linked(at));
                let mut state = State::Ready(payload);
                let next = match &mut self.slots[e] {
                    Some(entry) => {
                        std::mem::swap(&mut entry.state, &mut state);
                        entry.next
                    },
                    None => None,
                };
                self.start = next;
                if let State::Listening(task) = state {
                    wakers.push(task);
                }
                self.notified = Ghost(before.notified@ + 1);
                proof {
                    let order = self.order@;
                    assert forall|i: int| 0 <= i < order.len() implies #[trigger] self.linked(i) by {
                        assert(before.linked(i));
                    }
                    assert forall|k: usize| #[trigger] self.occupied(k) implies order.contains(k) by {
                        assert(before.occupied(k));
                    }
                    assert(self@.slots =~= before@.delivered(payload).slots) by {
                        assert forall|i: int| 0 <= i < order.len() implies self@.slots[i]
                            == before@.delivered(payload).slots[i] by {
                            assert(before.linked(i));
                        }
                    }
                    assert(wakers@ =~= old(wakers)@ + before@.next_woken());
                }
                true
            },
        }
    }

    /// How the list stands after the listener at position `at` of `before`,
    /// with key `key`, was taken out and its neighbours were linked to each
    /// other.
    spec fn unlinked_from(&self, before: &Table<T>, key: usize, at: int) -> bool {
        let taken = before.entry(key);
        &&& self.slots@.len() == before.slots@.len()
        &&& self.slots@[key as int] is None
        &&& forall|k: usize|
            k != key && k < before.slots@.len() ==> {
                &&& (#[trigger] self.slots@[k as int]) is Some == before.slots@[k as int] is Some
                &&& self.slots@[k as int] is Some ==> {
                    &&& self.entry(k).state == before.entry(k).state
                    &&& self.entry(k).prev == if taken.next == Some(k) {
                        taken.prev
                    } else {
                        before.entry(k).prev
                    }
                    &&& self.entry(k).next == if taken.prev == Some(k) {
                        taken.next
                    } else {
                        before.entry(k).next
                    }
                }
            }
        &&& self.free@ == before.free@.push(key)
        &&& self.head == if taken.prev is None {
            taken.next
        } else {
            before.head
        }
        &&& self.tail == if taken.next is None {
            taken.prev
        } else {
            before.tail
        }
        &&& self.start == if before.start == Some(key) {
            taken.next
        } else {
            before.start
        }
        &&& self.len == before.len - 1
        &&& self.order@ == before.order@.remove(at)
        &&& self.notified@ == before@.removed(at).notified
    }

    proof fn lemma_unlinked_links(&self, before: &Table<T>, key: usize, at: int)
        requires
            before.wf(),
            0 <= at < before.order@.len(),
            before.order@[at] == key,
            self.unlinked_from(before, key, at),
        ensures
            forall|i: int| 0 <= i < self.order@.len() ==> #[trigger] self.linked(i),
            self@.slots == before@.removed(at).slots,
    {
        let old_order = before.order@;
        let order = self.order@;
        assert(before.linked(at));
        assert forall|i: int| 0 <= i < order.len() implies #[trigger] self.linked(i) by {
            let from = if i < at {
                i
            } else {
                i + 1
            };
            assert(order[i] == old_order[from]);
            assert(before.linked(from));
            assert(old_order[from] != key);
            if from > 0 {
                assert(before.linked(from - 1));
            }
            if from + 1 < old_order.len() {
                assert(before.linked(from + 1));
            }
        }
        assert(self@.slots =~= before@.removed(at).slots) by {
            assert forall|i: int| 0 <= i < order.len() implies self@.slots[i] == before@.removed(
                at,
            ).slots[i] by {
                let from = if i < at {
                    i
                } else {
                    i + 1
                };
                assert(before.linked(from));
                assert(old_order[from] != key);
            }
        }
    }

    proof fn lemma_unlinked_wf(&self, before: &Table<T>, key: usize, at: int)
        requires
            before.wf(),
            0 <= at < before.order@.len(),
            before.order@[at] == key,
            self.unlinked_from(before, key, at),
        ensures
            self.wf(),
            self@ == before@.removed(at),
    {
        let old_order = before.order@;
        let order = self.order@;
        self.lemma_unlinked_links(before, key, at);
        assert(before.linked(at));
        assert forall|k: usize| #[trigger] self.occupied(k) implies order.contains(k) by {
            assert(before.occupied(k));
            let j = choose|j: int| 0 <= j < old_order.len() && old_order[j] == k;
            if j < at {
                assert(order[j] == k);
            } else {
                assert(order[j - 1] == k);
            }
        }
        assert forall|j: int| 0 <= j < self.free@.len() implies (#[trigger] self.free@[j])
            < self.slots@.len() && self.slots@[self.free@[j] as int] is None by {
            if j < before.free@.len() {
                assert(self.free@[j] == before.free@[j]);
            }
        }
        assert forall|i: int, j: int| 0 <= i < j < self.free@.len() implies self.free@[i]
            != self.free@[j] by {
            assert(self.free@[i] == before.free@[i]);
        }
        if before.notified@ < old_order.len() {
            assert(before.linked(before.notified@ as int));
        }
    }

    /// Take a listener out of the arena and out of the chain of links.
    fn unlink(&mut self, key: usize) -> (state: State<T>)
        requires
            old(self).wf(),
            old(self).occupied(key),
        ensures
            final(self).wf(),
            old(self)@.contains(key),
            state == old(self)@.state_of(key),
            final(self)@ == old(self)@.removed(old(self)@.position(key)),
    {
        let ghost before = *self;
        let ghost at = before@.position(key);
        proof {
            before.lemma_position(key);
            assert(before.linked(at));
            if at > 0 {
                assert(before.linked(at - 1));
            }
            if at + 1 < before.order@.len() {
                assert(before.linked(at + 1));
            }
        }
        let mut taken: Option<Entry<T>> = None;
        std::mem::swap(&mut self.slots[key], &mut taken);
        let entry = taken.unwrap();
        self.free.push(key);
        let prev = entry.prev;
        let next = entry.next;
        match prev {
            None => {
                self.head = next;
            },
            Some(before_it) => {
                match &mut self.slots[before_it] {
                    Some(neighbour) => {
                        neighbour.next = next;
                    },
                    None => {},
                }
            },
        }
        match next {
            None => {
                self.tail = prev;
            },
            Some(after_it) => {
                match &mut self.slots[after_it] {
                    Some(neighbour) => {
                        neighbour.prev = prev;
                    },
                    None => {},
                }
            },
        }
        let was_start = match self.start {
            Some(first) => first == key,
            None => false,
        };
        if was_start {
            self.start = next;
        }
        self.len = self.len - 1;
        self.order = Ghost(before.order@.remove(at));
        self.notified = Ghost(before@.removed(at).notified);
        proof {
            assert(self.unlinked_from(&before, key, at));
            self.lemma_unlinked_wf(&before, key, at);
        }
        entry.state
    }

    /// Remove a listener from the list.
    ///
    /// Returns `None` if the listener is in no list. Otherwise the listener
    /// is unlinked and its state returned. With `propagate`, a payload that
    /// the listener had been notified with and had not consumed goes to the
    /// next waiting listener, whose handle, if it listens, is added to
    /// `wakers`; the state returned is then `Done`.
    pub fn remove(&mut self, listener: &mut Listener, propagate: bool, wakers: &mut Vec<Handle>) -> (state:
        Option<State<T>>)
        requires
            old(self).wf(),
        ensures
            final(self).wf(),
            final(listener).key() is None,
            match state {
                None => {
                    &&& old(listener).key() is Some ==> !old(self)@.contains(old(listener).key().unwrap())
                    &&& final(self)@ == old(self)@
                    &&& final(wakers)@ == old(wakers)@
                },
                Some(taken) => {
                    let at = old(self)@.position(old(listener).key().unwrap());
                    let held = old(self)@.slots[at].state;
                    let rest = old(self)@.removed(at);
                    &&& old(listener).key() is Some
                    &&& old(self)@.contains(old(listener).key().unwrap())
                    &&& if propagate && held is Ready {
                        &&& taken is Done
                        &&& final(self)@ == rest.delivered(held->Ready_0)
                        &&& final(wakers)@ == old(wakers)@ + rest.next_woken()
                    } else {
                        &&& taken == held
                        &&& final(self)@ == rest
                        &&& final(wakers)@ == old(wakers)@
                    }
                },
            },
    {
        let key = match listener.entry {
            None => {
                return None;
            },
            Some(key) => key,
        };
        listener.entry = None;
        let present = key < self.slots.len() && self.slots[key].is_some();
        if !present {
            proof {
                if self@.contains(key) {
                    self.lemma_contains(key);
                }
            }
            return None;
        }
        let state = self.unlink(key);
        if propagate {
            match state {
                State::Ready(tag) => {
                    self.deliver(tag, wakers);
                    Some(State::Done)
                },
                other => Some(other),
            }
        } else {
            Some(state)
        }
    }

    /// Register a resumption handle with a listener.
    ///
    /// A listener that was notified is removed from the list and its payload
    /// returned. A listener that waits keeps waiting, with `task` as its
    /// handle.
    pub fn register(&mut self, listener: &mut Listener, task: Handle) -> (result: RegisterResult<T>)
        requires
            old(self).wf(),
        ensures
            final(self).wf(),
            match result {
                RegisterResult::NoTask => {
                    &&& old(listener).key() is Some ==> !old(self)@.contains(old(listener).key().unwrap())
                    &&& final(self)@ == old(self)@
                    &&& final(listener).key() == old(listener).key()
                },
                RegisterResult::Task => {
                    let at = old(self)@.position(old(listener).key().unwrap());
                    &&& old(listener).key() is Some
                    &&& old(self)@.contains(old(listener).key().unwrap())
                    &&& old(self)@.slots[at].state.waiting()
                    &&& final(self)@ == old(self)@.with_state(at, State::Listening(task))
                    &&& final(listener).key() == old(listener).key()
                },
                RegisterResult::Notified(payload) => {
                    let at = old(self)@.position(old(listener).key().unwrap());
                    &&& old(listener).key() is Some
                    &&& old(self)@.contains(old(listener).key().unwrap())
                    &&& old(self)@.slots[at].state == State::Ready(payload)
                    &&& final(self)@ == old(self)@.removed(at)
                    &&& final(listener).key() is None
                },
            },
    {
        let ghost before = *self;
        let key = match listener.entry {
            None => {
                return RegisterResult::NoTask;
            },
            Some(key) => key,
        };
        if key >= self.slots.len() {
            proof {
                if self@.contains(key) {
                    self.lemma_contains(key);
                }
            }
            return RegisterResult::NoTask;
        }
        let notified = match &self.slots[key] {
            None => {
                proof {
                    if self@.contains(key) {
                        self.lemma_contains(key);
                    }
                }
                return RegisterResult::NoTask;
            },
            Some(entry) => match &entry.state {
                State::Ready(_) => true,
                _ => false,
            },
        };
        let ghost at = before@.position(key);
        proof {
            before.lemma_position(key);
            assert(before.linked(at));
        }
        if notified {
            // We have been notified: leave the list and hand out the payload.
            listener.entry = None;
            match self.unlink(key) {
                State::Ready(tag) => RegisterResult::Notified(tag),
                _ => RegisterResult::NoTask,
            }
        } else {
            match &mut self.slots[key] {
                Some(entry) => {
                    let same = match &entry.state {
                        State::Listening(other) => *other == task,
                        _ => false,
                    };
                    if !same {
                        entry.state = State::Listening(task);
                    }
                },
                None => {},
            }
            proof {
                let order = self.order@;
                assert forall|i: int| 0 <= i < order.len() implies #[trigger] self.linked(i) by {
                    assert(before.linked(i));
                }
                assert forall|k: usize| #[trigger] self.occupied(k) implies order.contains(k) by {
                    assert(before.occupied(k));
                }
                assert(self@.slots =~= before@.with_state(at, State::Listening(task)).slots) by {
                    assert forall|i: int| 0 <= i < order.len() implies self@.slots[i]
                        == before@.with_state(at, State::Listening(task)).slots[i] by {
                        assert(before.linked(i));
                    }
                }
            }
            RegisterResult::Task
        }
    }

    /// Notify up to `n` waiting listeners, first come first served.
    ///
    /// Each listener notified gets a payload of its own from `generator`, and
    /// the handles of those that listened are added to `wakers` in the order
    /// in which they were notified. Returns how many listeners were notified.
    pub fn notify<F: Fn() -> T>(&mut self, n: usize, generator: F, wakers: &mut Vec<Handle>) -> (count:
        usize)
        requires
            old(self).wf(),
            call_requires(generator, ()),
        ensures
            final(self).wf(),
            count == if n <= old(self)@.len() - old(self)@.notified {
                n as int
            } else {
                old(self)@.len() - old(self)@.notified
            },
            old(self)@.notified_to(final(self)@, count as nat),
            forall|i: int|
                old(self)@.notified <= i < old(self)@.notified + count ==> call_ensures(
                    generator,
                    (),
                    (#[trigger] final(self)@.slots[i]).state->Ready_0,
                ),
            final(wakers)@ == old(wakers)@ + old(self)@.woken_by(count as nat),
    {
        let ghost before = self@;
        let ghost first = before.notified as int;
        let mut count: usize = 0;
        proof {
            self.lemma_view_wf();
            assert(before.slots.subrange(first, first) =~= Seq::empty());
            assert(wakers@ =~= old(wakers)@ + handles(before.slots.subrange(first, first)));
        }
        while count < n
            invariant
                self.wf(),
                call_requires(generator, ()),
                count <= n,
                first == before.notified,
                first + count <= before.slots.len(),
                self@.notified == first + count,
                self@.slots.len() == before.slots.len(),
                forall|i: int|
                    0 <= i < before.slots.len() ==> (#[trigger] self@.slots[i]).key
                        == before.slots[i].key,
                forall|i: int|
                    first <= i < first + count ==> (#[trigger] self@.slots[i]).state is Ready
                        && call_ensures(generator, (), self@.slots[i].state->Ready_0),
                forall|i: int|
                    0 <= i < before.slots.len() && !(first <= i < first + count)
                        ==> #[trigger] self@.slots[i] == before.slots[i],
                wakers@ == old(wakers)@ + handles(before.slots.subrange(first, first + count)),
            ensures
                count == n || first + count == before.slots.len(),
            decreases n - count,
        {
            if self.start.is_none() {
                proof {
                    self.lemma_start();
                }
                break ;
            }
            proof {
                self.lemma_start();
            }
            let ghost current = self@;
            let payload = generator();
            self.deliver(payload, wakers);
            proof {
                let upto = first + count;
                assert(before.slots.subrange(first, upto + 1).drop_last() =~= before.slots.subrange(
                    first,
                    upto,
                ));
                assert(before.slots.subrange(first, upto + 1).last() == before.slots[upto]);
                assert(current.slots[upto] == before.slots[upto]);
                assert(handles(before.slots.subrange(first, upto + 1)) =~= handles(
                    before.slots.subrange(first, upto),
                ) + current.next_woken());
            }
            count = count + 1;
        }
        count
    }

    /// Notify every waiting listener, first come first served, each with a
    /// clone of `payload`. The handles of those that listened are added to
    /// `wakers` in the order in which they were notified. Returns how many
    /// listeners were notified.
    pub fn notify_all(&mut self, payload: &T, wakers: &mut Vec<Handle>) -> (count: usize) where
        T: Clone,

        requires
            old(self).wf(),
        ensures
            final(self).wf(),
            count == old(self)@.waiting(),
            old(self)@.notified_to(final(self)@, count as nat),
            forall|i: int|
                old(self)@.notified <= i < old(self)@.len() ==> cloned(
                    *payload,
                    (#[trigger] final(self)@.slots[i]).state->Ready_0,
                ),
            final(wakers)@ == old(wakers)@ + old(self)@.woken_by(count as nat),
    {
        let ghost before = self@;
        let ghost first = before.notified as int;
        let mut count: usize = 0;
        proof {
            self.lemma_view_wf();
            assert(before.slots.subrange(first, first) =~= Seq::empty());
            assert(wakers@ =~= old(wakers)@ + handles(before.slots.subrange(first, first)));
        }
        while self.start.is_some()
            invariant
                self.wf(),
                first == before.notified,
                first + count <= before.slots.len(),
                self@.notified == first + count,
                self@.slots.len() == before.slots.len(),
                forall|i: int|
                    0 <= i < before.slots.len() ==> (#[trigger] self@.slots[i]).key
                        == before.slots[i].key,
                forall|i: int|
                    first <= i < first + count ==> (#[trigger] self@.slots[i]).state is Ready
                        && cloned(*payload, self@.slots[i].state->Ready_0),
                forall|i: int|
                    0 <= i < before.slots.len() && !(first <= i < first + count)
                        ==> #[trigger] self@.slots[i] == before.slots[i],
                wakers@ == old(wakers)@ + handles(before.slots.subrange(first, first + count)),
            ensures
                first + count == before.slots.len(),
            decreases before.slots.len() - first - count,
        {
            proof {
                self.lemma_start();
            }
            let ghost current = self@;
            self.deliver(payload.clone(), wakers);
            proof {
                let upto = first + count;
                assert(before.slots.subrange(first, upto + 1).drop_last() =~= before.slots.subrange(
                    first,
                    upto,
                ));
                assert(before.slots.subrange(first, upto + 1).last() == before.slots[upto]);
                assert(current.slots[upto] == before.slots[upto]);
                assert(handles(before.slots.subrange(first, upto + 1)) =~= handles(
                    before.slots.subrange(first, upto),
                ) + current.next_woken());
            }
            count = count + 1;
        }
        proof {
            self.lemma_start();
        }
        count
    }

    /// Whether a listener waits is what `start` says.
    proof fn lemma_start(&self)
        requires
            self.wf(),
        ensures
            self.start is None <==> self@.notified >= self@.slots.len(),
    {
    }

    /// The number of listeners in the list.
    pub fn len(&self) -> (n: usize)
        requires
            self.wf(),
        ensures
            n == self@.len(),
    {
        self.len
    }
}

/// A waiter list together with the listener of whoever polls the list
/// itself.
pub struct Waiters<T> {
    /// Table of listeners to wake up.
    table: Table<T>,
    /// A listener for pollers.
    poller: Listener,
}

impl<T> View for Waiters<T> {
    type V = Fifo<T>;

    closed spec fn view(&self) -> Fifo<T> {
        self.table@
    }
}

impl<T> Waiters<T> {
    pub closed spec fn wf(&self) -> bool {
        self.table.wf()
    }

    /// The key of the poller's own listener, if it is registered.
    pub closed spec fn poller(&self) -> Option<usize> {
        self.poller.key()
    }

    /// A well-formed list has a well-formed model.
    pub proof fn lemma_view_wf(&self)
        requires
            self.wf(),
        ensures
            self@.wf(),
    {
        self.table.lemma_view_wf();
    }

    pub fn new() -> (waiters: Waiters<T>)
        ensures
            waiters.wf(),
            waiters@.slots.len() == 0,
            waiters@.notified == 0,
            waiters.poller() is None,
    {
        Waiters { table: Table::new(), poller: Listener::new() }
    }

    /// Insert a listener at the tail of the list.
    pub fn insert(&mut self, listener: &mut Listener)
        requires
            old(self).wf(),
            old(listener).key() is None,
        ensures
            final(self).wf(),
            final(listener).key() is Some,
            !old(self)@.contains(final(listener).key().unwrap()),
            final(self)@ == old(self)@.inserted(final(listener).key().unwrap()),
            final(self).poller() == old(self).poller(),
    {
        self.table.insert(listener);
    }

    /// Remove a listener. A payload that it was notified with and has not
    /// consumed goes to the next waiting listener.
    pub fn remove(&mut self, listener: &mut Listener, wakers: &mut Vec<Handle>)
        requires
            old(self).wf(),
        ensures
            final(self).wf(),
            final(listener).key() is None,
            final(self).poller() == old(self).poller(),
            if old(listener).key() is Some && old(self)@.contains(old(listener).key().unwrap()) {
                let at = old(self)@.position(old(listener).key().unwrap());
                let held = old(self)@.slots[at].state;
                let rest = old(self)@.removed(at);
                if held is Ready {
                    &&& final(self)@ == rest.delivered(held->Ready_0)
                    &&& final(wakers)@ == old(wakers)@ + rest.next_woken()
                } else {
                    &&& final(self)@ == rest
                    &&& final(wakers)@ == old(wakers)@
                }
            } else {
                &&& final(self)@ == old(self)@
                &&& final(wakers)@ == old(wakers)@
            },
    {
        let _ = self.table.remove(listener, true, wakers);
    }

    /// Notify up to `n` waiting listeners, first come first served, each
    /// with a payload of its own from `generator`.
    pub fn notify<F: Fn() -> T>(&mut self, n: usize, generator: F, wakers: &mut Vec<Handle>) -> (count:
        usize)
        requires
            old(self).wf(),
            call_requires(generator, ()),
        ensures
            final(self).wf(),
            final(self).poller() == old(self).poller(),
            count == if n <= old(self)@.len() - old(self)@.notified {
                n as int
            } else {
                old(self)@.len() - old(self)@.notified
            },
            old(self)@.notified_to(final(self)@, count as nat),
            forall|i: int|
                old(self)@.notified <= i < old(self)@.notified + count ==> call_ensures(
                    generator,
                    (),
                    (#[trigger] final(self)@.slots[i]).state->Ready_0,
                ),
            final(wakers)@ == old(wakers)@ + old(self)@.woken_by(count as nat),
    {
        self.table.notify(n, generator, wakers)
    }

    /// Register a resumption handle with a listener.
    pub fn register(&mut self, listener: &mut Listener, task: Handle) -> (result: RegisterResult<T>)
        requires
            old(self).wf(),
        ensures
            final(self).wf(),
            final(self).poller() == old(self).poller(),
            match result {
                RegisterResult::NoTask => {
                    &&& old(listener).key() is Some ==> !old(self)@.contains(old(listener).key().unwrap())
                    &&& final(self)@ == old(self)@
                    &&& final(listener).key() == old(listener).key()
                },
                RegisterResult::Task => {
                    let at = old(self)@.position(old(listener).key().unwrap());
                    &&& old(listener).key() is Some
                    &&& old(self)@.contains(old(listener).key().unwrap())
                    &&& old(self)@.slots[at].state.waiting()
                    &&& final(self)@ == old(self)@.with_state(at, State::Listening(task))
                    &&& final(listener).key() == old(listener).key()
                },
                RegisterResult::Notified(payload) => {
                    let at = old(self)@.position(old(listener).key().unwrap());
                    &&& old(listener).key() is Some
                    &&& old(self)@.contains(old(listener).key().unwrap())
                    &&& old(self)@.slots[at].state == State::Ready(payload)
                    &&& final(self)@ == old(self)@.removed(at)
                    &&& final(listener).key() is None
                },
            },
    {
        self.table.register(listener, task)
    }

    /// Poll the list itself for the next event, with `task` as the handle
    /// to resume.
    ///
    /// The poller's listener joins the list on the first poll. A poll that
    /// finds it notified takes the payload and leaves the list; any other
    /// poll leaves it waiting with `task` as its handle.
    pub fn poll_internal(&mut self, task: Handle) -> (result: Poll<T>)
        requires
            old(self).wf(),
        ensures
            final(self).wf(),
            match result {
                Poll::Ready(payload) => {
                    let at = old(self)@.position(old(self).poller().unwrap());
                    &&& old(self).poller() is Some
                    &&& old(self)@.contains(old(self).poller().unwrap())
                    &&& old(self)@.slots[at].state == State::Ready(payload)
                    &&& final(self)@ == old(self)@.removed(at)
                    &&& final(self).poller() is None
                },
                Poll::Pending => if old(self).poller() is Some && old(self)@.contains(
                    old(self).poller().unwrap(),
                ) {
                    let at = old(self)@.position(old(self).poller().unwrap());
                    &&& old(self)@.slots[at].state.waiting()
                    &&& final(self)@ == old(self)@.with_state(at, State::Listening(task))
                    &&& final(self).poller() == old(self).poller()
                } else {
                    &&& final(self).poller() is Some
                    &&& !old(self)@.contains(final(self).poller().unwrap())
                    &&& final(self)@ == old(self)@.inserted(final(self).poller().unwrap()).with_state(
                        old(self)@.len() as int,
                        State::Listening(task),
                    )
                },
            },
    {
        match self.table.register(&mut self.poller, task) {
            RegisterResult::Notified(event) => Poll::Ready(event),
            RegisterResult::Task => Poll::Pending,
            RegisterResult::NoTask => {
                // Not in the list yet: join it and wait.
                self.poller = Listener::new();
                self.table.insert(&mut self.poller);
                let ghost joined = self.table@;
                let ghost key = self.poller.key().unwrap();
                proof {
                    assert(joined.slots[old(self)@.len() as int].key == key);
                    self.table.lemma_view_wf();
                }
                let _ = self.table.register(&mut self.poller, task);
                Poll::Pending
            },
        }
    }
}

/// One notification resumes exactly the listener that registered first.
///
/// Of `N >= 1` listeners, none of them notified yet, a `notify` for one
/// listener leaves the first registered listener ready, with a payload that
/// the generator returned, wakes its handle and no other, and leaves every
/// other listener as it was.
pub proof fn lemma_notify_resumes_first<T, F: Fn() -> T>(
    before: Fifo<T>,
    after: Fifo<T>,
    generator: F,
    payload: T,
)
    requires
        before.wf(),
        before.notified == 0,
        before.len() >= 1,
        before.notified_to(after, 1),
        call_ensures(generator, (), after.slots[0].state->Ready_0),
        forall|p: T| call_ensures(generator, (), p) ==> p == payload,
    ensures
        after.slots[0].key == before.slots[0].key,
        after.slots[0].state == State::Ready(payload),
        forall|i: int| 1 <= i < before.len() ==> after.slots[i] == before.slots[i],
        forall|i: int| 1 <= i < before.len() ==> (#[trigger] after.slots[i]).state.waiting(),
        before.woken_by(1) == match before.slots[0].state {
            State::Listening(h) => seq![h],
            _ => Seq::empty(),
        },
{
    let window = before.slots.subrange(0, 1);
    assert(window.drop_last() =~= Seq::empty());
    assert(handles(window.drop_last()) =~= Seq::empty());
    assert(window.last() == before.slots[0]);
    assert(after.slots[0].state is Ready);
    assert forall|i: int| 1 <= i < before.len() implies (#[trigger] after.slots[i]).state.waiting() by {
        assert(after.slots[i] == before.slots[i]);
    }
    match before.slots[0].state {
        State::Listening(h) => {
            assert(handles(window) =~= seq![h]);
        },
        _ => {
            assert(handles(window) =~= Seq::empty());
        },
    }
}

/// A notification is not lost with the listener that held it.
///
/// When a listener that was notified and has not consumed its payload is
/// removed with propagation, and another listener is waiting, the first
/// waiting listener holds that same payload afterwards, its handle is the one
/// woken if it listens, and the listeners keep their order.
pub proof fn lemma_removal_propagates<T>(list: Fifo<T>, at: int)
    requires
        list.wf(),
        0 <= at < list.len(),
        list.slots[at].state is Ready,
        list.notified < list.len(),
    ensures
        ({
            let payload = list.slots[at].state->Ready_0;
            let next = list.slots[list.notified as int];
            let rest = list.removed(at);
            let after = rest.delivered(payload);
            &&& after.wf()
            &&& after.len() == list.len() - 1
            &&& after.notified == list.notified
            &&& after.slots[list.notified - 1].key == next.key
            &&& after.slots[list.notified - 1].state == State::Ready(payload)
            &&& forall|i: int|
                list.notified <= i < after.len() ==> after.slots[i] == list.slots[i + 1]
            &&& rest.next_woken() == match next.state {
                State::Listening(h) => seq![h],
                _ => Seq::empty(),
            }
        }),
{
    assert(at < list.notified);
}

} // verus!
