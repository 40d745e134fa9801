use vstd::prelude::*;

verus! {

/// The token that the system returned for one hook registration.
#[derive(Clone, Copy, Debug, PartialEq, Eq, Structural)]
pub struct EventHandle(pub isize);

/// The registration table of one thread: it maps each hook token to the
/// callback registered with it. Several tokens may share one callback,
/// which is dropped when the last of them is unregistered.
pub struct EventHook<C> {
    entries: Vec<(isize, usize)>,
    callbacks: Vec<Option<C>>,
    routes: Ghost<Map<isize, usize>>,
}

impl<C> EventHook<C> {
    /// The table's structure, where slot `spare` may be held without any
    /// token routed to it.
    closed spec fn inv(&self, spare: int) -> bool {
        let e = self.entries@;
        let m = self.routes@;
        &&& forall|i: int, j: int|
            0 <= i < e.len() && 0 <= j < e.len() && i != j ==> (#[trigger] e[i]).0 != (
            #[trigger] e[j]).0
        &&& forall|i: int|
            0 <= i < e.len() ==> m.contains_key((#[trigger] e[i]).0) && m[e[i].0] == e[i].1
        &&& forall|t: isize| #[trigger]
            m.contains_key(t) ==> exists|i: int| 0 <= i < e.len() && (#[trigger] e[i]).0 == t
        &&& forall|t: isize| #[trigger]
            m.contains_key(t) ==> m[t] < self.callbacks@.len() && self.callbacks@[m[t] as int] is Some
        &&& forall|s: int|
            0 <= s < self.callbacks@.len() && s != spare && (#[trigger] self.callbacks@[s]) is Some
                ==> exists|t: isize| #[trigger] m.contains_key(t) && m[t] == s
    }

    /// Well formed: every token leads to a live callback, and every live
    /// callback is reached by some token.
    pub closed spec fn wf(&self) -> bool {
        self.inv(-1)
    }

    /// The callback that a notification carrying each token is handed to.
    pub closed spec fn handlers(&self) -> Map<isize, C> {
        Map::new(
            |t: isize| self.routes@.contains_key(t),
            |t: isize| self.callbacks@[self.routes@[t] as int]->Some_0,
        )
    }

    /// Which callback object a registered token leads to; tokens with the
    /// same slot share one callback.
    pub closed spec fn slot(&self, t: isize) -> usize {
        self.routes@[t]
    }


    pub fn new() -> (r: EventHook<C>)
        ensures
            r.wf(),
            r.handlers() == Map::<isize, C>::empty(),
    {
        let r = EventHook { entries: Vec::new(), callbacks: Vec::new(), routes: Ghost(Map::empty()) };
        assert(r.handlers() =~= Map::<isize, C>::empty());
        r
    }

    fn position(&self, token: isize) -> (r: Option<usize>)
        requires
            exists|s: int| self.inv(s),
        ensures
            r matches Some(i) ==> i < self.entries@.len() && self.entries@[i as int].0 == token,
            r is None ==> !self.routes@.contains_key(token),
    {
        let mut i: usize = 0;
        while i < self.entries.len()
            invariant
                i <= self.entries@.len(),
                exists|s: int| self.inv(s),
                forall|j: int| 0 <= j < i ==> (#[trigger] self.entries@[j]).0 != token,
            decreases self.entries@.len() - i,
        {
            if self.entries[i].0 == token {
                return Some(i);
            }
            i = i + 1;
        }
        None
    }

    /// Whether some token still leads to `slot`.
    fn referenced(&self, slot: usize) -> (r: bool)
        requires
            exists|s: int| self.inv(s),
        ensures
            r == exists|t: isize| #[trigger] self.routes@.contains_key(t) && self.routes@[t] == slot,
    {
        let mut i: usize = 0;
        while i < self.entries.len()
            invariant
                i <= self.entries@.len(),
                exists|s: int| self.inv(s),
                forall|j: int| 0 <= j < i ==> (#[trigger] self.entries@[j]).1 != slot,
            decreases self.entries@.len() - i,
        {
            if self.entries[i].1 == slot {
                assert(self.routes@.contains_key(self.entries@[i as int].0));
                return true;
            }
            i = i + 1;
        }
        assert forall|t: isize| #[trigger] self.routes@.contains_key(t) implies self.routes@[t]
            != slot by {
            let s = choose|s: int| self.inv(s);
            let j = choose|j: int| 0 <= j < self.entries@.len() && (#[trigger] self.entries@[j]).0 == t;
            assert(self.entries@[j].1 != slot);
        }
        false
    }

    /// Drops the callback in `slot` if no token leads to it any more.
    fn release(&mut self, slot: usize)
        requires
            old(self).inv(slot as int),
        ensures
            final(self).wf(),
            final(self).routes@ == old(self).routes@,
            final(self).entries@ == old(self).entries@,
            final(self).callbacks@.len() == old(self).callbacks@.len(),
            forall|t: isize| #[trigger]
                final(self).routes@.contains_key(t) ==> final(self).callbacks@[final(self).routes@[t] as int] == old(self).callbacks@[old(self).routes@[t] as int],
    {
        if slot < self.callbacks.len() && !self.referenced(slot) {
            self.callbacks.set(slot, None);
            assert forall|t: isize| #[trigger] self.routes@.contains_key(t) implies self.routes@[t]
                < self.callbacks@.len() && self.callbacks@[self.routes@[t] as int] is Some by {
                assert(self.routes@[t] != slot);
            }
        }
    }

    /// Routes `token` to the live callback in `slot`, replacing whatever it
    /// led to before.
    fn attach(&mut self, token: isize, slot: usize)
        requires
            old(self).inv(slot as int),
            slot < old(self).callbacks@.len(),
            old(self).callbacks@[slot as int] is Some,
        ensures
            final(self).wf(),
            final(self).routes@ == old(self).routes@.insert(token, slot),
            final(self).callbacks@.len() == old(self).callbacks@.len(),
            forall|t: isize| #[trigger]
                final(self).routes@.contains_key(t) ==> final(self).callbacks@[final(self).routes@[t] as int] == old(self).callbacks@[final(self).routes@[t] as int],
    {
        let ghost m0 = self.routes@;
        let ghost e0 = self.entries@;
        match self.position(token) {
            Some(i) => {
                let prev = self.entries[i].1;
                self.entries.set(i, (token, slot));
                self.routes = Ghost(m0.insert(token, slot));
                proof {
                    let e = self.entries@;
                    let m = self.routes@;
                    assert forall|j: int| 0 <= j < e.len() implies m.contains_key((#[trigger] e[j]).0)
                        && m[e[j].0] == e[j].1 by {
                        if j != i {
                            assert(e0[j].0 != e0[i as int].0);
                        }
                    }
                    assert forall|t: isize| #[trigger] m.contains_key(t) implies exists|j: int|
                        0 <= j < e.len() && (#[trigger] e[j]).0 == t by {
                        if t != token {
                            let j = choose|j: int| 0 <= j < e0.len() && (#[trigger] e0[j]).0 == t;
                            assert(e[j].0 == t);
                        } else {
                            assert(e[i as int].0 == t);
                        }
                    }
                    assert forall|s: int|
                        0 <= s < self.callbacks@.len() && s != prev && (
                        #[trigger] self.callbacks@[s]) is Some implies exists|t: isize| #[trigger]
                        m.contains_key(t) && m[t] == s by {
                        if s == slot {
                            assert(m.contains_key(token));
                        } else {
                            let t = choose|t: isize| #[trigger] m0.contains_key(t) && m0[t] == s;
                            assert(t != token);
                            assert(m.contains_key(t));
                        }
                    }
                }
                self.release(prev);
            },
            None => {
                self.entries.push((token, slot));
                self.routes = Ghost(m0.insert(token, slot));
                proof {
                    let e = self.entries@;
                    let m = self.routes@;
                    let n = e.len() - 1;
                    assert forall|a: int, b: int|
                        0 <= a < e.len() && 0 <= b < e.len() && a != b implies (#[trigger] e[a]).0
                        != (#[trigger] e[b]).0 by {
                        if a != n && b != n {
                            assert(e0[a].0 != e0[b].0);
                        } else if a == n {
                            assert(m0.contains_key(e0[b].0));
                        } else {
                            assert(m0.contains_key(e0[a].0));
                        }
                    }
                    assert forall|j: int| 0 <= j < e.len() implies m.contains_key((#[trigger] e[j]).0)
                        && m[e[j].0] == e[j].1 by {
                        if j != n {
                            assert(m0.contains_key(e0[j].0));
                        }
                    }
                    assert forall|t: isize| #[trigger] m.contains_key(t) implies exists|j: int|
                        0 <= j < e.len() && (#[trigger] e[j]).0 == t by {
                        if t != token {
                            let j = choose|j: int| 0 <= j < e0.len() && (#[trigger] e0[j]).0 == t;
                            assert(e[j].0 == t);
                        } else {
                            assert(e[n].0 == t);
                        }
                    }
                    assert forall|s: int|
                        0 <= s < self.callbacks@.len() && s != -1 && (
                        #[trigger] self.callbacks@[s]) is Some implies exists|t: isize| #[trigger]
                        m.contains_key(t) && m[t] == s by {
                        if s == slot {
                            assert(m.contains_key(token));
                        } else {
                            let t = choose|t: isize| #[trigger] m0.contains_key(t) && m0[t] == s;
                            assert(m.contains_key(t));
                        }
                    }
                }
            },
        }
    }

    /// Adds a callback in a new slot that no token leads to yet.
    fn add_callback(&mut self, cb: C) -> (slot: usize)
        requires
            old(self).wf(),
        ensures
            final(self).inv(slot as int),
            slot == old(self).callbacks@.len(),
            final(self).callbacks@ == old(self).callbacks@.push(Some(cb)),
            final(self).routes@ == old(self).routes@,
            final(self).entries@ == old(self).entries@,
    {
        let slot = self.callbacks.len();
        self.callbacks.push(Some(cb));
        proof {
            let m = self.routes@;
            let c0 = old(self).callbacks@;
            assert forall|t: isize| #[trigger] m.contains_key(t) implies m[t] < self.callbacks@.len()
                && self.callbacks@[m[t] as int] is Some by {
                assert(c0[m[t] as int] is Some);
                assert(self.callbacks@[m[t] as int] == c0[m[t] as int]);
            }
            assert forall|s: int|
                0 <= s < self.callbacks@.len() && s != slot && (#[trigger] self.callbacks@[s]) is Some
                    implies exists|t: isize| #[trigger] m.contains_key(t) && m[t] == s by {
                assert(self.callbacks@[s] == c0[s]);
                assert(c0[s] is Some);
            }
            let e = self.entries@;
            assert(forall|i: int, j: int|
                0 <= i < e.len() && 0 <= j < e.len() && i != j ==> (#[trigger] e[i]).0 != (
                #[trigger] e[j]).0);
            assert(forall|i: int|
                0 <= i < e.len() ==> m.contains_key((#[trigger] e[i]).0) && m[e[i].0] == e[i].1);
            assert(forall|t: isize| #[trigger]
                m.contains_key(t) ==> exists|i: int| 0 <= i < e.len() && (#[trigger] e[i]).0 == t);
        }
        slot
    }

    /// Records one registration: notifications that carry the token of
    /// `handle` go to `cb` from now on.
    pub fn register(&mut self, handle: &EventHandle, cb: C)
        requires
            old(self).wf(),
        ensures
            final(self).wf(),
            final(self).handlers() == old(self).handlers().insert(handle.0, cb),
    {
        let slot = self.add_callback(cb);
        let ghost c1 = self.callbacks@;
        self.attach(handle.0, slot);
        assert(self.handlers() =~= old(self).handlers().insert(handle.0, cb)) by {
            assert forall|t: isize| #[trigger] self.routes@.contains_key(t) && t != handle.0 implies
                self.callbacks@[self.routes@[t] as int] == old(self).callbacks@[old(self).routes@[t] as int] by {
                assert(c1[self.routes@[t] as int] == old(self).callbacks@[old(self).routes@[t] as int]);
            }
        }
    }

    /// Records several registrations that share one callback: a
    /// notification carrying any of their tokens goes to `cb`. With no
    /// handles nothing is recorded.
    pub fn register_ranges(&mut self, handles: &Vec<EventHandle>, cb: C)
        requires
            old(self).wf(),
        ensures
            final(self).wf(),
            final(self).handlers() == old(self).handlers().union_prefer_right(
                Map::new(
                    |t: isize| exists|i: int| 0 <= i < handles@.len() && (#[trigger] handles@[i]).0 == t,
                    |t: isize| cb,
                ),
            ),
            forall|i: int, j: int|
                0 <= i < handles@.len() && 0 <= j < handles@.len() ==> final(self).slot(
                    (#[trigger] handles@[i]).0,
                ) == final(self).slot((#[trigger] handles@[j]).0),
    {
        if handles.len() == 0 {
            assert(self.handlers() =~= old(self).handlers().union_prefer_right(
                Map::new(
                    |t: isize| exists|i: int| 0 <= i < handles@.len() && (#[trigger] handles@[i]).0 == t,
                    |t: isize| cb,
                ),
            ));
            return;
        }
        let slot = self.add_callback(cb);
        let mut i: usize = 0;
        while i < handles.len()
            invariant
                0 <= i <= handles@.len(),
                handles@.len() > 0,
                slot == old(self).callbacks@.len(),
                self.callbacks@.len() == slot + 1,
                self.callbacks@[slot as int] == Some(cb),
                i == 0 ==> self.inv(slot as int),
                i > 0 ==> self.wf(),
                forall|t: isize| #[trigger]
                    self.routes@.contains_key(t) ==> (if exists|j: int|
                        0 <= j < i && (#[trigger] handles@[j]).0 == t {
                        self.routes@[t] == slot
                    } else {
                        old(self).routes@.contains_key(t) && self.routes@[t] != slot
                            && self.callbacks@[self.routes@[t] as int] == old(self).callbacks@[old(self).routes@[t] as int]
                    }),
                forall|t: isize|
                    #![trigger old(self).routes@.contains_key(t)]
                    #![trigger self.routes@.contains_key(t)]
                    old(self).routes@.contains_key(t) || (exists|j: int|
                        0 <= j < i && (#[trigger] handles@[j]).0 == t) ==> self.routes@.contains_key(
                        t,
                    ),
            decreases handles@.len() - i,
        {
            let ghost before = self.routes@;
            let ghost c0 = self.callbacks@;
            let token = handles[i].0;
            proof {
                if i > 0 {
                    assert(self.inv(slot as int));
                }
            }
            self.attach(token, slot);
            proof {
                assert(self.routes@.contains_key(token));
                assert(self.callbacks@[slot as int] == c0[slot as int]);
                assert forall|t: isize| #[trigger] self.routes@.contains_key(t) implies (if exists|j: int|
                    0 <= j < i + 1 && (#[trigger] handles@[j]).0 == t {
                    self.routes@[t] == slot
                } else {
                    old(self).routes@.contains_key(t) && self.routes@[t] != slot
                        && self.callbacks@[self.routes@[t] as int] == old(self).callbacks@[old(self).routes@[t] as int]
                }) by {
                    if t == token {
                        assert(handles@[i as int].0 == t);
                    } else {
                        assert(before.contains_key(t));
                        if exists|j: int| 0 <= j < i + 1 && (#[trigger] handles@[j]).0 == t {
                            let j = choose|j: int| 0 <= j < i + 1 && (#[trigger] handles@[j]).0 == t;
                            assert(j < i);
                        }
                    }
                }
                assert forall|t: isize|
                    old(self).routes@.contains_key(t) || (exists|j: int|
                        0 <= j < i + 1 && (#[trigger] handles@[j]).0 == t) implies #[trigger] self.routes@.contains_key(
                    t,
                ) by {
                    if t != token {
                        if exists|j: int| 0 <= j < i + 1 && (#[trigger] handles@[j]).0 == t {
                            let j = choose|j: int| 0 <= j < i + 1 && (#[trigger] handles@[j]).0 == t;
                            assert(j < i);
                        }
                        assert(before.contains_key(t));
                    }
                }
            }
            i = i + 1;
        }
        let ghost added = Map::new(
            |t: isize| exists|i: int| 0 <= i < handles@.len() && (#[trigger] handles@[i]).0 == t,
            |t: isize| cb,
        );
        assert(self.handlers() =~= old(self).handlers().union_prefer_right(added));
        assert forall|a: int, b: int|
            0 <= a < handles@.len() && 0 <= b < handles@.len() implies self.slot(
            (#[trigger] handles@[a]).0,
        ) == self.slot((#[trigger] handles@[b]).0) by {
            assert(self.routes@.contains_key(handles@[a].0));
            assert(self.routes@.contains_key(handles@[b].0));
        }
    }

    /// Forgets the registration of `handle`. Its callback is dropped when
    /// no other token leads to it.
    pub fn unregister(&mut self, handle: &EventHandle)
        requires
            old(self).wf(),
        ensures
            final(self).wf(),
            final(self).handlers() == old(self).handlers().remove(handle.0),
    {
        let token = handle.0;
        let ghost m0 = self.routes@;
        let ghost e0 = self.entries@;
        match self.position(token) {
            Some(i) => {
                let slot = self.entries[i].1;
                self.entries.swap_remove(i);
                self.routes = Ghost(m0.remove(token));
                proof {
                    let e = self.entries@;
                    let m = self.routes@;
                    let last = e0.len() - 1;
                    assert forall|j: int| 0 <= j < e.len() implies e[j] == (if j == i { e0[last] } else { e0[j] }) by {}
                    assert forall|a: int, b: int|
                        0 <= a < e.len() && 0 <= b < e.len() && a != b implies (#[trigger] e[a]).0
                        != (#[trigger] e[b]).0 by {
                        let a0 = if a == i { last } else { a };
                        let b0 = if b == i { last } else { b };
                        assert(e0[a0].0 != e0[b0].0);
                    }
                    assert forall|j: int| 0 <= j < e.len() implies m.contains_key((#[trigger] e[j]).0)
                        && m[e[j].0] == e[j].1 by {
                        let j0 = if j == i { last } else { j };
                        assert(e0[j0].0 != e0[i as int].0);
                        assert(m0.contains_key(e0[j0].0));
                    }
                    assert forall|t: isize| #[trigger] m.contains_key(t) implies exists|j: int|
                        0 <= j < e.len() && (#[trigger] e[j]).0 == t by {
                        let j0 = choose|j: int| 0 <= j < e0.len() && (#[trigger] e0[j]).0 == t;
                        assert(j0 != i);
                        if j0 == last {
                            assert(e[i as int].0 == t);
                        } else {
                            assert(e[j0].0 == t);
                        }
                    }
                    assert forall|t: isize| #[trigger] m.contains_key(t) implies m[t] < self.callbacks@.len()
                        && self.callbacks@[m[t] as int] is Some by {
                        assert(m0.contains_key(t));
                    }
                    assert forall|s: int|
                        0 <= s < self.callbacks@.len() && s != slot && (
                        #[trigger] self.callbacks@[s]) is Some implies exists|t: isize| #[trigger]
                        m.contains_key(t) && m[t] == s by {
                        let t = choose|t: isize| #[trigger] m0.contains_key(t) && m0[t] == s;
                        assert(t != token);
                        assert(m.contains_key(t));
                    }
                }
                self.release(slot);
                assert(self.handlers() =~= old(self).handlers().remove(handle.0));
            },
            None => {
                assert(self.handlers() =~= old(self).handlers().remove(handle.0));
            },
        }
    }

    /// Whether a notification carrying `token` would be dispatched.
    pub fn is_registered(&self, token: isize) -> (r: bool)
        requires
            self.wf(),
        ensures
            r == self.handlers().contains_key(token),
    {
        self.position(token).is_some()
    }

    /// The callback for a notification carrying `token`; none for a token
    /// that was never registered or was unregistered since.
    pub fn dispatch(&self, token: isize) -> (r: Option<&C>)
        requires
            self.wf(),
        ensures
            r matches Some(c) ==> self.handlers().contains_key(token) && *c == self.handlers()[token],
            r is None ==> !self.handlers().contains_key(token),
    {
        match self.position(token) {
            Some(i) => {
                let slot = self.entries[i].1;
                match &self.callbacks[slot] {
                    Some(c) => Some(c),
                    None => None,
                }
            },
            None => None,
        }
    }
}

} // verus!
