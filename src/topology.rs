use vstd::prelude::*;

use crate::geometry::Rect;
use crate::monitor::{MonitorInfo, OsError};

verus! {

/// Every query of the sequence succeeded.
pub open spec fn all_ok(monitors: Seq<Result<MonitorInfo, OsError>>) -> bool {
    forall|i: int| 0 <= i < monitors.len() ==> (#[trigger] monitors[i]) is Ok
}

/// `e` is the error of the first query that failed.
pub open spec fn first_error(monitors: Seq<Result<MonitorInfo, OsError>>, e: OsError) -> bool {
    exists|i: int|
        0 <= i < monitors.len() && #[trigger] monitors[i] == Err::<MonitorInfo, OsError>(e)
            && all_ok(monitors.take(i))
}

/// The layout that a set of successful queries describes: the monitors'
/// virtual-screen rectangles, in the order in which they were enumerated.
pub open spec fn layout_of(monitors: Seq<Result<MonitorInfo, OsError>>) -> Seq<Rect> {
    monitors.map_values(|m: Result<MonitorInfo, OsError>| m->Ok_0.rect)
}

/// Builds the layout from the per-monitor queries, in enumeration order.
/// A single failed query fails the whole layout: no partial layout exists.
pub fn topology_of(monitors: &Vec<Result<MonitorInfo, OsError>>) -> (r: Result<Vec<Rect>, OsError>)
    ensures
        r is Ok <==> all_ok(monitors@),
        r matches Ok(rects) ==> rects@ == layout_of(monitors@),
        r matches Err(e) ==> first_error(monitors@, e),
{
    let mut rects: Vec<Rect> = Vec::new();
    let mut i: usize = 0;
    while i < monitors.len()
        invariant
            i <= monitors@.len(),
            all_ok(monitors@.take(i as int)),
            rects@ == layout_of(monitors@.take(i as int)),
        decreases monitors@.len() - i,
    {
        match &monitors[i] {
            Ok(info) => {
                rects.push(info.rect);
            },
            Err(e) => {
                assert(monitors@[i as int] == Err::<MonitorInfo, OsError>(*e));
                return Err(*e);
            },
        }
        i = i + 1;
        assert(monitors@.take(i as int) == monitors@.take(i - 1).push(monitors@[i - 1]));
        assert(layout_of(monitors@.take(i as int)) =~= rects@);
    }
    assert(monitors@.take(i as int) == monitors@);
    Ok(rects)
}

/// Whether two layouts hold the same rectangles in the same order.
pub fn same_layout(a: &Vec<Rect>, b: &Vec<Rect>) -> (r: bool)
    ensures
        r == (a@ == b@),
{
    if a.len() != b.len() {
        return false;
    }
    let mut i: usize = 0;
    while i < a.len()
        invariant
            a@.len() == b@.len(),
            i <= a@.len(),
            forall|j: int| 0 <= j < i ==> a@[j] == b@[j],
        decreases a@.len() - i,
    {
        if a[i] != b[i] {
            return false;
        }
        i = i + 1;
    }
    assert(a@ =~= b@);
    true
}

/// No layout occurs twice in the sequence.
pub open spec fn no_duplicates(layouts: Seq<Seq<Rect>>) -> bool {
    forall|i: int, j: int|
        0 <= i < layouts.len() && 0 <= j < layouts.len() && i != j ==> layouts[i] != layouts[j]
}

/// The layouts after `l` was added where it was not held yet.
pub open spec fn interned(layouts: Seq<Seq<Rect>>, l: Seq<Rect>) -> Seq<Seq<Rect>> {
    if layouts.contains(l) {
        layouts
    } else {
        layouts.push(l)
    }
}

/// Fingerprinting an unchanged layout twice gives the same id both times:
/// the second registration changes nothing, no layout is held twice, and
/// the id under which the layout is held is unique.
pub proof fn lemma_intern_idempotent(layouts: Seq<Seq<Rect>>, l: Seq<Rect>, i: int, j: int)
    requires
        no_duplicates(layouts),
        0 <= i < interned(layouts, l).len(),
        0 <= j < interned(interned(layouts, l), l).len(),
        interned(layouts, l)[i] == l,
        interned(interned(layouts, l), l)[j] == l,
    ensures
        interned(interned(layouts, l), l) == interned(layouts, l),
        no_duplicates(interned(layouts, l)),
        i == j,
{
    let once = interned(layouts, l);
    if !layouts.contains(l) {
        assert forall|a: int, b: int|
            0 <= a < once.len() && 0 <= b < once.len() && a != b implies once[a] != once[b] by {
            if a == layouts.len() {
                assert(layouts[b] != l);
            } else if b == layouts.len() {
                assert(layouts[a] != l);
            }
        }
    }
    assert(once.contains(l)) by {
        assert(once[i] == l);
    }
}

/// The layouts seen so far. A layout's id is its position; each layout is
/// held once, so equal layouts always get the same id.
pub struct TopologyStore {
    layouts: Vec<Vec<Rect>>,
}

impl View for TopologyStore {
    type V = Seq<Seq<Rect>>;

    closed spec fn view(&self) -> Seq<Seq<Rect>> {
        self.layouts@.map_values(|l: Vec<Rect>| l@)
    }
}

impl TopologyStore {
    /// No layout is held twice.
    pub open spec fn wf(&self) -> bool {
        no_duplicates(self@)
    }

    pub fn new() -> (r: TopologyStore)
        ensures
            r.wf(),
            r@ == Seq::<Seq<Rect>>::empty(),
    {
        let r = TopologyStore { layouts: Vec::new() };
        assert(r@ =~= Seq::<Seq<Rect>>::empty());
        r
    }

    /// The number of layouts held.
    pub fn len(&self) -> (r: usize)
        ensures
            r == self@.len(),
    {
        self.layouts.len()
    }

    /// The layout with id `id`, if there is one.
    pub fn layout(&self, id: usize) -> (r: Option<&Vec<Rect>>)
        ensures
            id < self@.len() ==> (r matches Some(l) && l@ == self@[id as int]),
            id >= self@.len() ==> r is None,
    {
        if id < self.layouts.len() {
            Some(&self.layouts[id])
        } else {
            None
        }
    }

    /// The id of a layout, if it is held.
    pub fn find(&self, rects: &Vec<Rect>) -> (r: Option<usize>)
        requires
            self.wf(),
        ensures
            r matches Some(id) ==> id < self@.len() && self@[id as int] == rects@,
            r is None ==> !self@.contains(rects@),
    {
        let mut i: usize = 0;
        while i < self.layouts.len()
            invariant
                i <= self@.len(),
                self@.len() == self.layouts@.len(),
                forall|j: int| 0 <= j < i ==> self@[j] != rects@,
            decreases self@.len() - i,
        {
            if same_layout(&self.layouts[i], rects) {
                return Some(i);
            }
            i = i + 1;
        }
        None
    }

    /// Returns the id of the layout, adding it first if it is new.
    pub fn intern(&mut self, rects: Vec<Rect>) -> (r: usize)
        requires
            old(self).wf(),
        ensures
            final(self).wf(),
            r < final(self)@.len(),
            final(self)@[r as int] == rects@,
            final(self)@ == interned(old(self)@, rects@),
            old(self)@.is_prefix_of(final(self)@),
    {
        match self.find(&rects) {
            Some(id) => id,
            None => {
                let id = self.layouts.len();
                let ghost before = self@;
                self.layouts.push(rects);
                assert(self@ =~= before.push(rects@));
                id
            },
        }
    }
}

} // verus!
