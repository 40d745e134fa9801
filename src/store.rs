use vstd::prelude::*;

use crate::geometry::WindowDisplay;
use crate::window::{IdentityView, WindowIdentity};

verus! {

/// The key of a stored placement: a layout id and a window identity.
pub type PlacementKey = (usize, IdentityView);

/// What a map holds under a key, if anything.
pub open spec fn entry_of(m: Map<PlacementKey, WindowDisplay>, k: PlacementKey) -> Option<
    WindowDisplay,
> {
    if m.contains_key(k) {
        Some(m[k])
    } else {
        None
    }
}

/// Placements captured under one layout are independent of those under
/// another: recording a window under `t1` leaves what a lookup under a
/// different `t2` finds for the same window as it was.
pub proof fn lemma_key_isolation(
    m: Map<PlacementKey, WindowDisplay>,
    t1: usize,
    t2: usize,
    identity: IdentityView,
    display: WindowDisplay,
)
    requires
        t1 != t2,
    ensures
        entry_of(m.insert((t1, identity), display), (t2, identity)) == entry_of(m, (t2, identity)),
{
}

struct PlacementRecord {
    topology: usize,
    identity: WindowIdentity,
    display: WindowDisplay,
}

spec fn key_of(r: PlacementRecord) -> PlacementKey {
    (r.topology, r.identity@)
}

/// The latest placement captured for each (layout, window) pair. A new
/// capture replaces the old one: no history is kept.
pub struct PlacementStore {
    records: Vec<PlacementRecord>,
    model: Ghost<Map<PlacementKey, WindowDisplay>>,
}

impl View for PlacementStore {
    type V = Map<PlacementKey, WindowDisplay>;

    closed spec fn view(&self) -> Map<PlacementKey, WindowDisplay> {
        self.model@
    }
}

impl PlacementStore {
    /// One record per key, and the records hold exactly the model.
    pub closed spec fn wf(&self) -> bool {
        &&& forall|i: int, j: int|
            0 <= i < self.records@.len() && 0 <= j < self.records@.len() && i != j ==> key_of(
                #[trigger] self.records@[i],
            ) != key_of(#[trigger] self.records@[j])
        &&& forall|i: int|
            0 <= i < self.records@.len() ==> self.model@.contains_key(
                key_of(#[trigger] self.records@[i]),
            ) && self.model@[key_of(self.records@[i])] == self.records@[i].display
        &&& forall|k: PlacementKey| #[trigger]
            self.model@.contains_key(k) ==> exists|i: int|
                0 <= i < self.records@.len() && key_of(#[trigger] self.records@[i]) == k
    }

    pub fn new() -> (r: PlacementStore)
        ensures
            r.wf(),
            r@ == Map::<PlacementKey, WindowDisplay>::empty(),
    {
        PlacementStore { records: Vec::new(), model: Ghost(Map::empty()) }
    }

    /// The number of records held.
    pub fn len(&self) -> (r: usize)
        requires
            self.wf(),
        ensures
            r == self@.len(),
    {
        proof {
            self.lemma_len();
        }
        self.records.len()
    }

    proof fn lemma_len(&self)
        requires
            self.wf(),
        ensures
            self.records@.len() == self@.len(),
    {
        let keys = self.records@.map_values(|r: PlacementRecord| key_of(r));
        assert forall|i: int, j: int| 0 <= i < keys.len() && 0 <= j < keys.len() && i != j implies keys[i]
            != keys[j] by {
            assert(key_of(self.records@[i]) != key_of(self.records@[j]));
        }
        keys.unique_seq_to_set();
        assert(keys.to_set() =~= self@.dom()) by {
            assert forall|k: PlacementKey| self@.dom().contains(k) implies keys.to_set().contains(
                k,
            ) by {
                let i = choose|i: int|
                    0 <= i < self.records@.len() && key_of(#[trigger] self.records@[i]) == k;
                assert(keys[i] == k);
            }
            assert forall|k: PlacementKey| keys.to_set().contains(k) implies self@.dom().contains(
                k,
            ) by {
                let i = choose|i: int| 0 <= i < keys.len() && keys[i] == k;
                assert(key_of(self.records@[i]) == k);
            }
        }
    }

    fn position(&self, topology: usize, identity: &WindowIdentity) -> (r: Option<usize>)
        requires
            self.wf(),
        ensures
            r matches Some(i) ==> i < self.records@.len() && key_of(self.records@[i as int]) == (
                topology,
                identity@,
            ),
            r is None ==> !self@.contains_key((topology, identity@)),
    {
        let mut i: usize = 0;
        while i < self.records.len()
            invariant
                self.wf(),
                i <= self.records@.len(),
                forall|j: int| 0 <= j < i ==> key_of(#[trigger] self.records@[j]) != (topology, identity@),
            decreases self.records@.len() - i,
        {
            let rec = &self.records[i];
            if rec.topology == topology && rec.identity.same_as(identity) {
                return Some(i);
            }
            i = i + 1;
        }
        None
    }

    /// The placement captured for this window under this layout, if any.
    /// Only an exact match of all four key parts counts.
    pub fn lookup(&self, topology: usize, identity: &WindowIdentity) -> (r: Option<WindowDisplay>)
        requires
            self.wf(),
        ensures
            r == entry_of(self@, (topology, identity@)),
    {
        match self.position(topology, identity) {
            Some(i) => Some(self.records[i].display),
            None => None,
        }
    }

    /// Records a placement, replacing any earlier one under the same key.
    pub fn upsert(&mut self, topology: usize, identity: &WindowIdentity, display: WindowDisplay)
        requires
            old(self).wf(),
        ensures
            final(self).wf(),
            final(self)@ == old(self)@.insert((topology, identity@), display),
    {
        let ghost k = (topology, identity@);
        match self.position(topology, identity) {
            Some(i) => {
                let rec = PlacementRecord { topology, identity: identity.copied(), display };
                self.records.set(i, rec);
                self.model = Ghost(self.model@.insert(k, display));
                assert forall|j: int| 0 <= j < self.records@.len() implies self.model@.contains_key(
                    key_of(#[trigger] self.records@[j]),
                ) && self.model@[key_of(self.records@[j])] == self.records@[j].display by {
                    if j != i {
                        assert(key_of(old(self).records@[j]) != key_of(old(self).records@[i as int]));
                    }
                }
                assert forall|k2: PlacementKey| #[trigger] self.model@.contains_key(k2) implies exists|j: int|
                    0 <= j < self.records@.len() && key_of(#[trigger] self.records@[j]) == k2 by {
                    if k2 != k {
                        let j = choose|j: int|
                            0 <= j < old(self).records@.len() && key_of(#[trigger] old(self).records@[j]) == k2;
                        assert(key_of(self.records@[j]) == k2);
                    } else {
                        assert(key_of(self.records@[i as int]) == k2);
                    }
                }
            },
            None => {
                let rec = PlacementRecord { topology, identity: identity.copied(), display };
                self.records.push(rec);
                self.model = Ghost(self.model@.insert(k, display));
                let ghost n: int = self.records@.len() - 1;
                assert forall|a: int, b: int|
                    0 <= a < self.records@.len() && 0 <= b < self.records@.len() && a != b implies key_of(
                    #[trigger] self.records@[a],
                ) != key_of(#[trigger] self.records@[b]) by {
                    if a != n && b != n {
                        assert(key_of(old(self).records@[a]) != key_of(old(self).records@[b]));
                    } else if a == n {
                        assert(old(self)@.contains_key(key_of(old(self).records@[b])));
                    } else {
                        assert(old(self)@.contains_key(key_of(old(self).records@[a])));
                    }
                }
                assert forall|j: int| 0 <= j < self.records@.len() implies self.model@.contains_key(
                    key_of(#[trigger] self.records@[j]),
                ) && self.model@[key_of(self.records@[j])] == self.records@[j].display by {
                    if j != n {
                        assert(old(self)@.contains_key(key_of(old(self).records@[j])));
                    }
                }
                assert forall|k2: PlacementKey| #[trigger] self.model@.contains_key(k2) implies exists|j: int|
                    0 <= j < self.records@.len() && key_of(#[trigger] self.records@[j]) == k2 by {
                    if k2 != k {
                        let j = choose|j: int|
                            0 <= j < old(self).records@.len() && key_of(#[trigger] old(self).records@[j]) == k2;
                        assert(key_of(self.records@[j]) == k2);
                    } else {
                        assert(key_of(self.records@[n]) == k2);
                    }
                }
            },
        }
    }
}

} // verus!
