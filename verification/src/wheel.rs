//! The timer wheel: pending deadlines in the order in which they fall due.
//!
//! A timer is known by its deadline and its id. Timers with the same
//! deadline are ordered by id, so the one that was inserted first fires
//! first.

use crate::{Handle, Nanos};
use vstd::prelude::*;

verus! {

/// One pending timer.
#[derive(Clone, Copy, Debug, PartialEq, Eq, Structural)]
pub struct Scheduled {
    /// When the timer falls due.
    pub deadline: Nanos,
    /// What tells timers with one deadline apart.
    pub id: usize,
    /// The handle to resume when the timer fires.
    pub waker: Handle,
}

/// `a` comes before `b`: it falls due earlier, or at the same time with a
/// smaller id.
pub open spec fn earlier(a: Scheduled, b: Scheduled) -> bool {
    a.deadline < b.deadline || (a.deadline == b.deadline && a.id < b.id)
}

/// The timer is the one known by `deadline` and `id`.
pub open spec fn known_as(t: Scheduled, deadline: Nanos, id: usize) -> bool {
    t.deadline == deadline && t.id == id
}

/// Every timer comes before the timers behind it.
pub open spec fn sorted(s: Seq<Scheduled>) -> bool {
    forall|i: int, j: int| 0 <= i < j < s.len() ==> earlier(s[i], s[j])
}

/// The wheel with `t` in its place. A timer known by the same deadline and
/// id gives way to `t`.
pub open spec fn insert_into(s: Seq<Scheduled>, t: Scheduled) -> Seq<Scheduled>
    decreases s.len(),
{
    if s.len() == 0 {
        seq![t]
    } else if earlier(t, s[0]) {
        seq![t] + s
    } else if known_as(s[0], t.deadline, t.id) {
        seq![t] + s.drop_first()
    } else {
        seq![s[0]] + insert_into(s.drop_first(), t)
    }
}

/// The wheel without the timers known by `deadline` and `id`.
pub open spec fn remove_from(s: Seq<Scheduled>, deadline: Nanos, id: usize) -> Seq<Scheduled>
    decreases s.len(),
{
    if s.len() == 0 {
        s
    } else if known_as(s[0], deadline, id) {
        remove_from(s.drop_first(), deadline, id)
    } else {
        seq![s[0]] + remove_from(s.drop_first(), deadline, id)
    }
}

/// The handle of the timer known by `deadline` and `id`, if the wheel holds
/// one.
pub open spec fn lookup(s: Seq<Scheduled>, deadline: Nanos, id: usize) -> Option<Handle>
    decreases s.len(),
{
    if s.len() == 0 {
        None
    } else if known_as(s[0], deadline, id) {
        Some(s[0].waker)
    } else {
        lookup(s.drop_first(), deadline, id)
    }
}

/// How many timers at the front of the wheel are due at `now`.
pub open spec fn due_count(s: Seq<Scheduled>, now: Nanos) -> nat
    decreases s.len(),
{
    if s.len() == 0 || s[0].deadline > now {
        0
    } else {
        1 + due_count(s.drop_first(), now)
    }
}

/// The handles of the timers, in order.
pub open spec fn wakers_of(s: Seq<Scheduled>) -> Seq<Handle> {
    s.map_values(|t: Scheduled| t.waker)
}

/// In a sorted wheel, inserting at the first position whose timer does not
/// come before `t` is what `insert_into` does.
proof fn lemma_insert_at(s: Seq<Scheduled>, t: Scheduled, at: int)
    requires
        sorted(s),
        0 <= at <= s.len(),
        forall|i: int| 0 <= i < at ==> earlier(#[trigger] s[i], t),
        at < s.len() ==> !earlier(s[at], t),
    ensures
        insert_into(s, t) == if at < s.len() && known_as(s[at], t.deadline, t.id) {
            s.update(at, t)
        } else {
            s.insert(at, t)
        },
    decreases at,
{
    if s.len() == 0 {
        assert(s.insert(0, t) =~= seq![t]);
    } else if at == 0 {
        if known_as(s[0], t.deadline, t.id) {
            assert(s.update(0, t) =~= seq![t] + s.drop_first());
        } else {
            assert(s.insert(0, t) =~= seq![t] + s);
        }
    } else {
        assert(earlier(s[0], t));
        let rest = s.drop_first();
        assert forall|i: int| 0 <= i < at - 1 implies earlier(#[trigger] rest[i], t) by {
            assert(rest[i] == s[i + 1]);
        }
        lemma_insert_at(rest, t, at - 1);
        if at < s.len() && known_as(s[at], t.deadline, t.id) {
            assert(s.update(at, t) =~= seq![s[0]] + rest.update(at - 1, t));
        } else {
            assert(s.insert(at, t) =~= seq![s[0]] + rest.insert(at - 1, t));
        }
    }
}

/// In a sorted wheel no timer but the one at `at` can be known by the
/// deadline and id of the timer at `at`.
proof fn lemma_remove_at(s: Seq<Scheduled>, deadline: Nanos, id: usize, at: int)
    requires
        sorted(s),
        0 <= at <= s.len(),
        forall|i: int| 0 <= i < at ==> !known_as(#[trigger] s[i], deadline, id),
        at < s.len() ==> known_as(s[at], deadline, id),
    ensures
        remove_from(s, deadline, id) == if at < s.len() {
            s.remove(at)
        } else {
            s
        },
        lookup(s, deadline, id) == if at < s.len() {
            Some(s[at].waker)
        } else {
            None
        },
    decreases s.len(),
{
    if s.len() == 0 {
    } else if at == 0 {
        let rest = s.drop_first();
        assert forall|i: int| 0 <= i < rest.len() implies !known_as(
            #[trigger] rest[i],
            deadline,
            id,
        ) by {
            assert(earlier(s[0], s[i + 1]));
        }
        lemma_remove_at(rest, deadline, id, rest.len() as int);
        assert(s.remove(0) =~= rest);
    } else {
        let rest = s.drop_first();
        assert forall|i: int| 0 <= i < at - 1 implies !known_as(
            #[trigger] rest[i],
            deadline,
            id,
        ) by {
            assert(rest[i] == s[i + 1]);
        }
        lemma_remove_at(rest, deadline, id, at - 1);
        if at < s.len() {
            assert(s.remove(at) =~= seq![s[0]] + rest.remove(at - 1));
        } else {
            assert(s =~= seq![s[0]] + rest);
        }
    }
}

/// In a sorted wheel, the first position whose timer is not due is the
/// number of due timers.
proof fn lemma_due_at(s: Seq<Scheduled>, now: Nanos, at: int)
    requires
        0 <= at <= s.len(),
        forall|i: int| 0 <= i < at ==> (#[trigger] s[i]).deadline <= now,
        at < s.len() ==> s[at].deadline > now,
    ensures
        due_count(s, now) == at,
    decreases at,
{
    if at > 0 {
        let rest = s.drop_first();
        assert forall|i: int| 0 <= i < at - 1 implies (#[trigger] rest[i]).deadline <= now by {
            assert(rest[i] == s[i + 1]);
        }
        lemma_due_at(rest, now, at - 1);
    }
}

/// Inserting keeps the wheel sorted and holds the new timer, the old ones
/// but for one known by the same deadline and id, and nothing else.
pub proof fn lemma_insert_into(s: Seq<Scheduled>, t: Scheduled)
    requires
        sorted(s),
    ensures
        sorted(insert_into(s, t)),
        forall|u: Scheduled|
            #![trigger insert_into(s, t).contains(u)]
            #![trigger s.contains(u)]
            insert_into(s, t).contains(u) <==> u == t || (s.contains(u) && !known_as(
                u,
                t.deadline,
                t.id,
            )),
    decreases s.len(),
{
    let r = insert_into(s, t);
    if s.len() == 0 {
        assert(r[0] == t);
        assert forall|u: Scheduled| r.contains(u) implies u == t by {
            let i = choose|i: int| 0 <= i < r.len() && r[i] == u;
        }
    } else if earlier(t, s[0]) {
        assert(r[0] == t);
        assert forall|i: int, j: int| 0 <= i < j < r.len() implies earlier(r[i], r[j]) by {
            if i == 0 {
                assert(r[j] == s[j - 1]);
                if j > 1 {
                    assert(earlier(s[0], s[j - 1]));
                }
            } else {
                assert(r[i] == s[i - 1] && r[j] == s[j - 1]);
            }
        }
        assert forall|u: Scheduled|
            r.contains(u) <==> u == t || (s.contains(u) && !known_as(u, t.deadline, t.id)) by {
            if r.contains(u) {
                let i = choose|i: int| 0 <= i < r.len() && r[i] == u;
                if i > 0 {
                    assert(s[i - 1] == u);
                    if i > 1 {
                        assert(earlier(s[0], s[i - 1]));
                    }
                }
            }
            if s.contains(u) {
                let i = choose|i: int| 0 <= i < s.len() && s[i] == u;
                assert(r[i + 1] == u);
            }
        }
    } else if known_as(s[0], t.deadline, t.id) {
        let rest = s.drop_first();
        assert(r[0] == t);
        assert forall|i: int, j: int| 0 <= i < j < r.len() implies earlier(r[i], r[j]) by {
            assert(r[j] == s[j]);
            assert(earlier(s[i], s[j]));
        }
        assert forall|u: Scheduled|
            r.contains(u) <==> u == t || (s.contains(u) && !known_as(u, t.deadline, t.id)) by {
            if r.contains(u) {
                let i = choose|i: int| 0 <= i < r.len() && r[i] == u;
                if i > 0 {
                    assert(s[i] == u);
                    assert(earlier(s[0], s[i]));
                }
            }
            if s.contains(u) && !known_as(u, t.deadline, t.id) {
                let i = choose|i: int| 0 <= i < s.len() && s[i] == u;
                assert(r[i] == u);
            }
        }
    } else {
        let rest = s.drop_first();
        let inner = insert_into(rest, t);
        assert forall|i: int, j: int| 0 <= i < j < rest.len() implies earlier(rest[i], rest[j]) by {
            assert(earlier(s[i + 1], s[j + 1]));
        }
        lemma_insert_into(rest, t);
        assert(r[0] == s[0]);
        assert forall|i: int| 0 <= i < inner.len() implies earlier(s[0], #[trigger] inner[i]) by {
            assert(inner.contains(inner[i]));
            if inner[i] != t {
                let k = choose|k: int| 0 <= k < rest.len() && rest[k] == inner[i];
                assert(earlier(s[0], s[k + 1]));
            }
        }
        assert forall|i: int, j: int| 0 <= i < j < r.len() implies earlier(r[i], r[j]) by {
            assert(r[j] == inner[j - 1]);
            if i > 0 {
                assert(r[i] == inner[i - 1]);
            }
        }
        assert forall|u: Scheduled|
            r.contains(u) <==> u == t || (s.contains(u) && !known_as(u, t.deadline, t.id)) by {
            if r.contains(u) {
                let i = choose|i: int| 0 <= i < r.len() && r[i] == u;
                if i > 0 {
                    assert(inner[i - 1] == u);
                    assert(inner.contains(u));
                    if u != t {
                        let k = choose|k: int| 0 <= k < rest.len() && rest[k] == u;
                        assert(s[k + 1] == u);
                    }
                } else {
                    assert(s[0] == u);
                }
            }
            if u == t || (s.contains(u) && !known_as(u, t.deadline, t.id)) {
                if u != t {
                    let k = choose|k: int| 0 <= k < s.len() && s[k] == u;
                    if k == 0 {
                        assert(r[0] == u);
                    } else {
                        assert(rest[k - 1] == u);
                        assert(rest.contains(u));
                        let m = choose|m: int| 0 <= m < inner.len() && inner[m] == u;
                        assert(r[m + 1] == u);
                    }
                } else {
                    assert(inner.contains(t));
                    let m = choose|m: int| 0 <= m < inner.len() && inner[m] == t;
                    assert(r[m + 1] == t);
                }
            }
        }
    }
}

/// Removing keeps the wheel sorted and holds the old timers but for those
/// known by the deadline and id.
pub proof fn lemma_remove_from(s: Seq<Scheduled>, deadline: Nanos, id: usize)
    requires
        sorted(s),
    ensures
        sorted(remove_from(s, deadline, id)),
        forall|u: Scheduled|
            #![trigger remove_from(s, deadline, id).contains(u)]
            #![trigger s.contains(u)]
            remove_from(s, deadline, id).contains(u) <==> s.contains(u) && !known_as(
                u,
                deadline,
                id,
            ),
    decreases s.len(),
{
    let r = remove_from(s, deadline, id);
    if s.len() == 0 {
    } else {
        let rest = s.drop_first();
        let inner = remove_from(rest, deadline, id);
        assert forall|i: int, j: int| 0 <= i < j < rest.len() implies earlier(rest[i], rest[j]) by {
            assert(earlier(s[i + 1], s[j + 1]));
        }
        lemma_remove_from(rest, deadline, id);
        assert forall|i: int| 0 <= i < inner.len() implies earlier(s[0], #[trigger] inner[i]) by {
            assert(inner.contains(inner[i]));
            let k = choose|k: int| 0 <= k < rest.len() && rest[k] == inner[i];
            assert(earlier(s[0], s[k + 1]));
        }
        if known_as(s[0], deadline, id) {
            assert forall|u: Scheduled|
                r.contains(u) <==> s.contains(u) && !known_as(u, deadline, id) by {
                if r.contains(u) {
                    let k = choose|k: int| 0 <= k < rest.len() && rest[k] == u;
                    assert(s[k + 1] == u);
                }
                if s.contains(u) && !known_as(u, deadline, id) {
                    let k = choose|k: int| 0 <= k < s.len() && s[k] == u;
                    assert(rest[k - 1] == u);
                }
            }
        } else {
            assert(r[0] == s[0]);
            assert forall|i: int, j: int| 0 <= i < j < r.len() implies earlier(r[i], r[j]) by {
                assert(r[j] == inner[j - 1]);
                if i > 0 {
                    assert(r[i] == inner[i - 1]);
                }
            }
            assert forall|u: Scheduled|
                r.contains(u) <==> s.contains(u) && !known_as(u, deadline, id) by {
                if r.contains(u) {
                    let i = choose|i: int| 0 <= i < r.len() && r[i] == u;
                    if i > 0 {
                        assert(inner[i - 1] == u);
                        assert(inner.contains(u));
                        let k = choose|k: int| 0 <= k < rest.len() && rest[k] == u;
                        assert(s[k + 1] == u);
                    } else {
                        assert(s[0] == u);
                    }
                }
                if s.contains(u) && !known_as(u, deadline, id) {
                    let k = choose|k: int| 0 <= k < s.len() && s[k] == u;
                    if k == 0 {
                        assert(r[0] == u);
                    } else {
                        assert(rest[k - 1] == u);
                        assert(rest.contains(u));
                        let m = choose|m: int| 0 <= m < inner.len() && inner[m] == u;
                        assert(r[m + 1] == u);
                    }
                }
            }
        }
    }
}

/// The timers due at `now` are at the front of a sorted wheel, and they are
/// all the wheel's timers whose deadline is not after `now`.
pub proof fn lemma_due_count(s: Seq<Scheduled>, now: Nanos)
    requires
        sorted(s),
    ensures
        due_count(s, now) <= s.len(),
        forall|i: int| 0 <= i < s.len() ==> ((#[trigger] s[i]).deadline <= now <==> i < due_count(s, now)),
    decreases s.len(),
{
    if s.len() == 0 {
    } else if s[0].deadline > now {
        assert forall|i: int| 0 <= i < s.len() implies (#[trigger] s[i]).deadline > now by {
            if i > 0 {
                assert(earlier(s[0], s[i]));
            }
        }
    } else {
        let rest = s.drop_first();
        assert forall|i: int, j: int| 0 <= i < j < rest.len() implies earlier(rest[i], rest[j]) by {
            assert(earlier(s[i + 1], s[j + 1]));
        }
        lemma_due_count(rest, now);
        assert forall|i: int| 0 <= i < s.len() implies ((#[trigger] s[i]).deadline <= now <==> i
            < due_count(s, now)) by {
            if i > 0 {
                assert(rest[i - 1] == s[i]);
            }
        }
    }
}

/// The timer wheel.
pub struct TimerWheel {
    timers: Vec<Scheduled>,
}

impl View for TimerWheel {
    type V = Seq<Scheduled>;

    closed spec fn view(&self) -> Seq<Scheduled> {
        self.timers@
    }
}

impl TimerWheel {
    /// The timers are in the order in which they fall due.
    pub closed spec fn wf(&self) -> bool {
        sorted(self.timers@)
    }

    /// A well-formed wheel is sorted.
    pub proof fn lemma_sorted(&self)
        requires
            self.wf(),
        ensures
            sorted(self@),
    {
    }

    /// An empty wheel.
    pub fn new() -> (wheel: TimerWheel)
        ensures
            wheel.wf(),
            wheel@.len() == 0,
    {
        TimerWheel { timers: Vec::new() }
    }

    /// The number of pending timers.
    pub fn len(&self) -> (n: usize)
        ensures
            n == self@.len(),
    {
        self.timers.len()
    }

    /// Put a timer on the wheel, in place of one known by the same deadline
    /// and id if there is one.
    pub fn insert(&mut self, timer: Scheduled)
        requires
            old(self).wf(),
        ensures
            final(self).wf(),
            final(self)@ == insert_into(old(self)@, timer),
    {
        let n = self.timers.len();
        let mut at: usize = 0;
        while at < n
            invariant
                n == self.timers@.len(),
                self.timers@ == old(self).timers@,
                at <= n,
                forall|i: int| 0 <= i < at ==> earlier(#[trigger] self.timers@[i], timer),
            ensures
                at <= n,
                forall|i: int| 0 <= i < at ==> earlier(#[trigger] self.timers@[i], timer),
                at < n ==> !earlier(self.timers@[at as int], timer),
            decreases n - at,
        {
            let here = self.timers[at];
            let before = here.deadline < timer.deadline || (here.deadline == timer.deadline
                && here.id < timer.id);
            if !before {
                break ;
            }
            at = at + 1;
        }
        proof {
            lemma_insert_at(old(self).timers@, timer, at as int);
            lemma_insert_into(old(self).timers@, timer);
        }
        let replace = at < n && self.timers[at].deadline == timer.deadline && self.timers[at].id
            == timer.id;
        if replace {
            self.timers[at] = timer;
        } else {
            self.timers.insert(at, timer);
        }
    }

    /// Take the timer known by `deadline` and `id` off the wheel, and return
    /// its handle if there was one.
    pub fn remove(&mut self, deadline: Nanos, id: usize) -> (waker: Option<Handle>)
        requires
            old(self).wf(),
        ensures
            final(self).wf(),
            final(self)@ == remove_from(old(self)@, deadline, id),
            waker == lookup(old(self)@, deadline, id),
    {
        let n = self.timers.len();
        let mut at: usize = 0;
        while at < n
            invariant
                n == self.timers@.len(),
                self.timers@ == old(self).timers@,
                at <= n,
                forall|i: int| 0 <= i < at ==> !known_as(#[trigger] self.timers@[i], deadline, id),
            ensures
                at <= n,
                forall|i: int| 0 <= i < at ==> !known_as(#[trigger] self.timers@[i], deadline, id),
                at < n ==> known_as(self.timers@[at as int], deadline, id),
            decreases n - at,
        {
            let here = self.timers[at];
            if here.deadline == deadline && here.id == id {
                break ;
            }
            at = at + 1;
        }
        proof {
            lemma_remove_at(old(self).timers@, deadline, id, at as int);
            lemma_remove_from(old(self).timers@, deadline, id);
        }
        if at < n {
            let timer = self.timers.remove(at);
            Some(timer.waker)
        } else {
            None
        }
    }

    /// The deadline of the timer that falls due first, if there is one.
    pub fn next_deadline(&self) -> (deadline: Option<Nanos>)
        ensures
            deadline == if self@.len() > 0 {
                Some(self@[0].deadline)
            } else {
                None
            },
    {
        if self.timers.len() > 0 {
            Some(self.timers[0].deadline)
        } else {
            None
        }
    }

    /// Take every timer whose deadline is at or before `now` off the wheel,
    /// add their handles to `wakers` in the order in which they fell due,
    /// and return the nearest deadline that remains.
    pub fn process(&mut self, now: Nanos, wakers: &mut Vec<Handle>) -> (next: Option<Nanos>)
        requires
            old(self).wf(),
        ensures
            final(self).wf(),
            final(self)@ == old(self)@.skip(due_count(old(self)@, now) as int),
            final(wakers)@ == old(wakers)@ + wakers_of(
                old(self)@.take(due_count(old(self)@, now) as int),
            ),
            next == if final(self)@.len() > 0 {
                Some(final(self)@[0].deadline)
            } else {
                None
            },
    {
        let n = self.timers.len();
        let mut due: usize = 0;
        proof {
            assert(wakers@ =~= old(wakers)@ + wakers_of(self.timers@.take(0)));
        }
        while due < n
            invariant
                n == self.timers@.len(),
                self.timers@ == old(self).timers@,
                due <= n,
                forall|i: int| 0 <= i < due ==> (#[trigger] self.timers@[i]).deadline <= now,
                wakers@ == old(wakers)@ + wakers_of(self.timers@.take(due as int)),
            ensures
                due <= n,
                forall|i: int| 0 <= i < due ==> (#[trigger] self.timers@[i]).deadline <= now,
                due < n ==> self.timers@[due as int].deadline > now,
                wakers@ == old(wakers)@ + wakers_of(self.timers@.take(due as int)),
            decreases n - due,
        {
            let here = self.timers[due];
            if here.deadline > now {
                break ;
            }
            wakers.push(here.waker);
            proof {
                assert(self.timers@.take(due + 1) =~= self.timers@.take(due as int).push(here));
                assert(wakers_of(self.timers@.take(due + 1)) =~= wakers_of(
                    self.timers@.take(due as int),
                ).push(here.waker));
            }
            due = due + 1;
        }
        proof {
            lemma_due_at(self.timers@, now, due as int);
        }
        let mut rest: Vec<Scheduled> = Vec::new();
        let mut i: usize = due;
        while i < n
            invariant
                n == self.timers@.len(),
                due <= i <= n,
                rest@ == self.timers@.subrange(due as int, i as int),
            decreases n - i,
        {
            rest.push(self.timers[i]);
            proof {
                assert(self.timers@.subrange(due as int, i + 1) =~= self.timers@.subrange(
                    due as int,
                    i as int,
                ).push(self.timers@[i as int]));
            }
            i = i + 1;
        }
        proof {
            assert(rest@ =~= self.timers@.skip(due as int));
        }
        self.timers = rest;
        self.next_deadline()
    }
}

/// A timer that was taken off the wheel does not fire.
///
/// After the timer known by `deadline` and `id` was removed, the wheel holds
/// no timer known by them, so no later `process` hands one out, whatever the
/// time.
pub proof fn lemma_cancelled_never_fires(s: Seq<Scheduled>, deadline: Nanos, id: usize, now: Nanos)
    requires
        sorted(s),
    ensures
        ({
            let rest = remove_from(s, deadline, id);
            let fired = rest.take(due_count(rest, now) as int);
            &&& forall|i: int| 0 <= i < rest.len() ==> !known_as(#[trigger] rest[i], deadline, id)
            &&& forall|i: int| 0 <= i < fired.len() ==> !known_as(#[trigger] fired[i], deadline, id)
        }),
{
    let rest = remove_from(s, deadline, id);
    lemma_remove_from(s, deadline, id);
    lemma_due_count(rest, now);
    assert forall|i: int| 0 <= i < rest.len() implies !known_as(#[trigger] rest[i], deadline, id) by {
        assert(rest.contains(rest[i]));
    }
}

/// A timer whose deadline has come fires, and one whose deadline has not
/// come stays.
///
/// `process` at `now` hands out exactly the timers of the wheel whose
/// deadline is at or before `now`, in the order of the wheel.
pub proof fn lemma_process_fires_due(s: Seq<Scheduled>, now: Nanos)
    requires
        sorted(s),
    ensures
        ({
            let k = due_count(s, now) as int;
            &&& 0 <= k <= s.len()
            &&& forall|t: Scheduled| s.take(k).contains(t) <==> s.contains(t) && t.deadline <= now
            &&& forall|t: Scheduled| s.skip(k).contains(t) <==> s.contains(t) && t.deadline > now
            &&& sorted(s.skip(k))
        }),
{
    let k = due_count(s, now) as int;
    lemma_due_count(s, now);
    assert forall|t: Scheduled| s.take(k).contains(t) <==> s.contains(t) && t.deadline <= now by {
        if s.take(k).contains(t) {
            let i = choose|i: int| 0 <= i < k && s.take(k)[i] == t;
            assert(s[i] == t);
        }
        if s.contains(t) && t.deadline <= now {
            let i = choose|i: int| 0 <= i < s.len() && s[i] == t;
            assert(s.take(k)[i] == t);
        }
    }
    assert forall|t: Scheduled| s.skip(k).contains(t) <==> s.contains(t) && t.deadline > now by {
        if s.skip(k).contains(t) {
            let i = choose|i: int| 0 <= i < s.len() - k && s.skip(k)[i] == t;
            assert(s[i + k] == t);
        }
        if s.contains(t) && t.deadline > now {
            let i = choose|i: int| 0 <= i < s.len() && s[i] == t;
            assert(s.skip(k)[i - k] == t);
        }
    }
    assert forall|i: int, j: int| 0 <= i < j < s.skip(k).len() implies earlier(
        s.skip(k)[i],
        s.skip(k)[j],
    ) by {
        assert(earlier(s[i + k], s[j + k]));
    }
}

} // verus!
