use vstd::prelude::*;

use crate::geometry::{Rect, WindowDisplay, SW_MAXIMIZE, SW_SHOWNORMAL};
use crate::monitor::{MonitorInfo, OsError};
use crate::store::{entry_of, PlacementKey, PlacementStore};
use crate::topology::{
    all_ok, first_error, interned, layout_of, no_duplicates, topology_of, TopologyStore,
};
use crate::window::{IdentityView, ResolvedWindow, WindowIdentity};

verus! {

/// The context that every capture and restore reads.
#[derive(Clone, Copy, Debug, Default, PartialEq, Eq, Structural)]
pub struct AppData {
    /// The current display topology index
    pub active_topology: Option<usize>,
}

/// The placement calls that bring a window back to a stored placement, in
/// order. Nothing is stored: no call. A maximized placement is applied in
/// the normal state first and maximized afterwards, since the window
/// manager ignores a maximized placement applied directly.
pub open spec fn restore_plan(stored: Option<WindowDisplay>) -> Seq<WindowDisplay> {
    match stored {
        None => Seq::empty(),
        Some(d) => if d.show == SW_MAXIMIZE {
            seq![d.spec_with_show(SW_SHOWNORMAL), d]
        } else {
            seq![d]
        },
    }
}

/// The store after capturing each resolved window of the batch in turn,
/// under layout `t`. Windows that failed to resolve change nothing.
pub open spec fn captured_all(
    m: Map<PlacementKey, WindowDisplay>,
    t: usize,
    windows: Seq<Result<ResolvedWindow, OsError>>,
) -> Map<PlacementKey, WindowDisplay>
    decreases windows.len(),
{
    if windows.len() == 0 {
        m
    } else {
        let before = captured_all(m, t, windows.drop_last());
        match windows.last() {
            Ok(w) => before.insert((t, w.identity@), w.placement),
            Err(_) => before,
        }
    }
}

/// The placement calls for one window of a restore pass under layout `t`.
/// A window whose identity could not be resolved gets none.
pub open spec fn planned_for(
    m: Map<PlacementKey, WindowDisplay>,
    t: usize,
    window: Result<WindowIdentity, OsError>,
) -> Seq<WindowDisplay> {
    match window {
        Ok(id) => restore_plan(entry_of(m, (t, id@))),
        Err(_) => Seq::empty(),
    }
}

/// Capturing a placement that is not maximized and then restoring the same
/// window under the same layout applies exactly that placement, once.
pub proof fn lemma_round_trip(
    m: Map<PlacementKey, WindowDisplay>,
    t: usize,
    identity: IdentityView,
    display: WindowDisplay,
)
    requires
        display.show != SW_MAXIMIZE,
    ensures
        restore_plan(entry_of(m.insert((t, identity), display), (t, identity))) == seq![display],
{
}

/// Restoring a stored maximized placement takes exactly two placement
/// calls: the placement shown normally, then the stored placement itself.
pub proof fn lemma_maximized_two_step(
    m: Map<PlacementKey, WindowDisplay>,
    t: usize,
    identity: IdentityView,
)
    requires
        m.contains_key((t, identity)),
        m[(t, identity)].show == SW_MAXIMIZE,
    ensures
        restore_plan(entry_of(m, (t, identity))).len() == 2,
        restore_plan(entry_of(m, (t, identity)))[0] == m[(t, identity)].spec_with_show(
            SW_SHOWNORMAL,
        ),
        restore_plan(entry_of(m, (t, identity)))[0].show == SW_SHOWNORMAL,
        restore_plan(entry_of(m, (t, identity)))[1] == m[(t, identity)],
{
}

/// A window with nothing captured under the layout gets no placement call.
pub proof fn lemma_unknown_window_untouched(
    m: Map<PlacementKey, WindowDisplay>,
    t: usize,
    identity: IdentityView,
)
    requires
        !m.contains_key((t, identity)),
    ensures
        restore_plan(entry_of(m, (t, identity))) == Seq::<WindowDisplay>::empty(),
{
}

/// A window of a capture pass that failed to resolve has no effect: the
/// pass ends as if it had not been in the batch.
pub proof fn lemma_failed_window_skipped(
    m: Map<PlacementKey, WindowDisplay>,
    t: usize,
    windows: Seq<Result<ResolvedWindow, OsError>>,
    i: int,
)
    requires
        0 <= i < windows.len(),
        windows[i] is Err,
    ensures
        captured_all(m, t, windows) == captured_all(m, t, windows.remove(i)),
    decreases windows.len(),
{
    if i == windows.len() - 1 {
        assert(windows.remove(i) =~= windows.drop_last());
    } else {
        let rest = windows.drop_last();
        lemma_failed_window_skipped(m, t, rest, i);
        assert(windows.remove(i).drop_last() =~= rest.remove(i));
        assert(windows.remove(i).last() == windows.last());
    }
}

/// Every window of a capture pass that resolved is captured, whatever
/// happened to the others: after the pass the store holds its placement,
/// unless a later window of the same pass has the same identity.
pub proof fn lemma_resolved_window_captured(
    m: Map<PlacementKey, WindowDisplay>,
    t: usize,
    windows: Seq<Result<ResolvedWindow, OsError>>,
    i: int,
)
    requires
        0 <= i < windows.len(),
        windows[i] is Ok,
        forall|j: int|
            i < j < windows.len() && (#[trigger] windows[j]) is Ok ==> windows[j]->Ok_0.identity@
                != windows[i]->Ok_0.identity@,
    ensures
        captured_all(m, t, windows).contains_key((t, windows[i]->Ok_0.identity@)),
        captured_all(m, t, windows)[(t, windows[i]->Ok_0.identity@)] == windows[i]->Ok_0.placement,
    decreases windows.len(),
{
    if i < windows.len() - 1 {
        let rest = windows.drop_last();
        assert forall|j: int|
            i < j < rest.len() && (#[trigger] rest[j]) is Ok implies rest[j]->Ok_0.identity@
                != rest[i]->Ok_0.identity@ by {
            assert(rest[j] == windows[j]);
        }
        lemma_resolved_window_captured(m, t, rest, i);
        let last = windows.len() - 1;
        assert(windows[last] == windows.last());
    }
}

/// The capture and restore engine: the layouts seen, the placements
/// captured under each of them, and the layout that is active now.
pub struct PlacementEngine {
    data: AppData,
    topologies: TopologyStore,
    placements: PlacementStore,
}

impl PlacementEngine {
    pub closed spec fn wf(&self) -> bool {
        self.topologies.wf() && self.placements.wf()
    }

    /// The layouts seen so far; a layout's id is its position.
    pub closed spec fn layouts(&self) -> Seq<Seq<Rect>> {
        self.topologies@
    }

    /// The captured placements.
    pub closed spec fn placements(&self) -> Map<PlacementKey, WindowDisplay> {
        self.placements@
    }

    /// The active layout's id, once one is set.
    pub closed spec fn active(&self) -> Option<usize> {
        self.data.active_topology
    }

    pub proof fn lemma_wf_layouts(&self)
        requires
            self.wf(),
        ensures
            no_duplicates(self.layouts()),
    {
    }

    pub fn new() -> (r: PlacementEngine)
        ensures
            r.wf(),
            r.layouts() == Seq::<Seq<Rect>>::empty(),
            r.placements() == Map::<PlacementKey, WindowDisplay>::empty(),
            r.active() is None,
    {
        PlacementEngine {
            data: AppData { active_topology: None },
            topologies: TopologyStore::new(),
            placements: PlacementStore::new(),
        }
    }

    pub fn active_topology(&self) -> (r: Option<usize>)
        ensures
            r == self.active(),
    {
        self.data.active_topology
    }

    pub fn set_active_topology(&mut self, id: usize)
        ensures
            final(self).active() == Some(id),
            final(self).layouts() == old(self).layouts(),
            final(self).placements() == old(self).placements(),
            final(self).wf() == old(self).wf(),
    {
        self.data.active_topology = Some(id);
    }

    /// The number of layouts seen so far.
    pub fn topology_count(&self) -> (r: usize)
        ensures
            r == self.layouts().len(),
    {
        self.topologies.len()
    }

    /// The number of placements held.
    pub fn placement_count(&self) -> (r: usize)
        requires
            self.wf(),
        ensures
            r == self.placements().len(),
    {
        self.placements.len()
    }

    /// Fingerprints the layout that the per-monitor queries describe and
    /// returns its id, registering the layout first when it is new. Any
    /// failed query fails the whole call and nothing is registered.
    pub fn capture_topology(&mut self, monitors: &Vec<Result<MonitorInfo, OsError>>) -> (r: Result<
        usize,
        OsError,
    >)
        requires
            old(self).wf(),
        ensures
            final(self).wf(),
            r is Ok <==> all_ok(monitors@),
            r matches Ok(id) ==> final(self).layouts() == interned(
                old(self).layouts(),
                layout_of(monitors@),
            ) && id < final(self).layouts().len() && final(self).layouts()[id as int]
                == layout_of(monitors@),
            r matches Err(e) ==> first_error(monitors@, e) && final(self).layouts() == old(
                self,
            ).layouts(),
            final(self).placements() == old(self).placements(),
            final(self).active() == old(self).active(),
            old(self).layouts().is_prefix_of(final(self).layouts()),
    {
        match topology_of(monitors) {
            Ok(rects) => Ok(self.topologies.intern(rects)),
            Err(e) => Err(e),
        }
    }

    /// Handles a change of the display configuration: fingerprints the new
    /// layout and makes it the active one. On failure the active layout
    /// stays as it was.
    pub fn switch_topology(&mut self, monitors: &Vec<Result<MonitorInfo, OsError>>) -> (r: Result<
        usize,
        OsError,
    >)
        requires
            old(self).wf(),
        ensures
            final(self).wf(),
            r is Ok <==> all_ok(monitors@),
            r matches Ok(id) ==> final(self).layouts() == interned(
                old(self).layouts(),
                layout_of(monitors@),
            ) && id < final(self).layouts().len() && final(self).layouts()[id as int]
                == layout_of(monitors@) && final(self).active() == Some(id),
            r matches Err(e) ==> first_error(monitors@, e) && final(self).layouts() == old(
                self,
            ).layouts() && final(self).active() == old(self).active(),
            final(self).placements() == old(self).placements(),
            old(self).layouts().is_prefix_of(final(self).layouts()),
    {
        let r = self.capture_topology(monitors);
        if let Ok(id) = r {
            self.data.active_topology = Some(id);
        }
        r
    }

    /// The placement captured for a window under a layout, if any.
    pub fn find_window(&self, topology: usize, identity: &WindowIdentity) -> (r: Option<
        WindowDisplay,
    >)
        requires
            self.wf(),
        ensures
            r == entry_of(self.placements(), (topology, identity@)),
    {
        self.placements.lookup(topology, identity)
    }

    /// Records the placement of an eligible window under the active layout.
    /// A window that could not be resolved is reported back and changes
    /// nothing.
    pub fn capture_window(&mut self, window: &Result<ResolvedWindow, OsError>) -> (r: Result<
        (),
        OsError,
    >)
        requires
            old(self).wf(),
            old(self).active() is Some,
        ensures
            final(self).wf(),
            final(self).layouts() == old(self).layouts(),
            final(self).active() == old(self).active(),
            final(self).placements() == captured_all(
                old(self).placements(),
                old(self).active()->Some_0,
                seq![*window],
            ),
            match window {
                Ok(w) => r is Ok && final(self).placements() == old(self).placements().insert(
                    (old(self).active()->Some_0, w.identity@),
                    w.placement,
                ),
                Err(e) => r == Err::<(), OsError>(*e) && final(self).placements() == old(
                    self,
                ).placements(),
            },
    {
        let t = self.data.active_topology.unwrap();
        proof {
            let s = seq![*window];
            assert(s.drop_last() =~= Seq::<Result<ResolvedWindow, OsError>>::empty());
            assert(captured_all(self.placements(), t, s.drop_last()) == self.placements());
        }
        match window {
            Ok(w) => {
                self.placements.upsert(t, &w.identity, w.placement);
                Ok(())
            },
            Err(e) => Err(*e),
        }
    }

    /// Captures every window of a batch under the active layout. A window
    /// that failed to resolve is skipped; the others are captured all the
    /// same, in order.
    pub fn capture_windows(&mut self, windows: &Vec<Result<ResolvedWindow, OsError>>)
        requires
            old(self).wf(),
            old(self).active() is Some,
        ensures
            final(self).wf(),
            final(self).layouts() == old(self).layouts(),
            final(self).active() == old(self).active(),
            final(self).placements() == captured_all(
                old(self).placements(),
                old(self).active()->Some_0,
                windows@,
            ),
    {
        let ghost t = self.active()->Some_0;
        let mut i: usize = 0;
        while i < windows.len()
            invariant
                self.wf(),
                i <= windows@.len(),
                self.layouts() == old(self).layouts(),
                self.active() == old(self).active(),
                self.active() == Some(t),
                self.placements() == captured_all(old(self).placements(), t, windows@.take(i as int)),
            decreases windows@.len() - i,
        {
            let _ = self.capture_window(&windows[i]);
            proof {
                let next = windows@.take(i + 1);
                assert(next.drop_last() =~= windows@.take(i as int));
                assert(next.last() == windows@[i as int]);
            }
            i = i + 1;
        }
        assert(windows@.take(i as int) =~= windows@);
    }

    /// The placement calls that restore a window under the active layout:
    /// none when nothing was captured for it there; for a maximized
    /// placement the same placement twice, shown normally first.
    pub fn restore_window(&self, window: &Result<WindowIdentity, OsError>) -> (r: Result<
        Vec<WindowDisplay>,
        OsError,
    >)
        requires
            self.wf(),
            self.active() is Some,
        ensures
            match window {
                Ok(id) => r matches Ok(plan) && plan@ == restore_plan(
                    entry_of(self.placements(), (self.active()->Some_0, id@)),
                ),
                Err(e) => r == Err::<Vec<WindowDisplay>, OsError>(*e),
            },
    {
        let t = self.data.active_topology.unwrap();
        match window {
            Ok(id) => {
                let mut plan: Vec<WindowDisplay> = Vec::new();
                match self.placements.lookup(t, id) {
                    Some(d) => {
                        if d.is_maximized() {
                            plan.push(d.with_show(SW_SHOWNORMAL));
                        }
                        plan.push(d);
                    },
                    None => {},
                }
                assert(plan@ =~= restore_plan(entry_of(self.placements(), (t, id@))));
                Ok(plan)
            },
            Err(e) => Err(*e),
        }
    }

    /// The placement calls for every window of a restore pass, one list per
    /// window and in the same order. A window that failed to resolve gets an
    /// empty list and does not affect the others.
    pub fn restore_windows(&self, windows: &Vec<Result<WindowIdentity, OsError>>) -> (r: Vec<
        Vec<WindowDisplay>,
    >)
        requires
            self.wf(),
            self.active() is Some,
        ensures
            r@.len() == windows@.len(),
            forall|i: int|
                0 <= i < windows@.len() ==> (#[trigger] r@[i])@ == planned_for(
                    self.placements(),
                    self.active()->Some_0,
                    windows@[i],
                ),
    {
        let mut plans: Vec<Vec<WindowDisplay>> = Vec::new();
        let mut i: usize = 0;
        while i < windows.len()
            invariant
                i <= windows@.len(),
                plans@.len() == i,
                self.wf(),
                self.active() is Some,
                forall|j: int|
                    0 <= j < i ==> (#[trigger] plans@[j])@ == planned_for(
                        self.placements(),
                        self.active()->Some_0,
                        windows@[j],
                    ),
            decreases windows@.len() - i,
        {
            let plan = match self.restore_window(&windows[i]) {
                Ok(plan) => plan,
                Err(_) => Vec::new(),
            };
            plans.push(plan);
            i = i + 1;
        }
        plans
    }
}

} // verus!
