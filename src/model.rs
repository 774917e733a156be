//! Row models and the notification hub through which a model tells its
//! observers what changed.
//!
//! Observers come in two kinds. A peer (a repeater) is registered with
//! [`ModelNotify::attach_peer`] and receives every event in order through a
//! queue of its own. A property tracker is a pull-based reader: it is marked
//! dirty when a row count or row data it depends on changes.
//!
//! A model is handed by `&mut` to every operation that observes it; there is
//! no shared, reference-counted model handle compared by identity. Such a
//! handle would have to give out exclusive access to the hub through a
//! shared pointer, which these contracts cannot follow. For the same reason
//! every model owns a hub: a constant model (a number of rows, or a flag
//! for zero or one row) is a `VecModel` that is never written.

use vstd::prelude::*;

verus! {

/// One change of a model, as delivered to its peers.
#[derive(Clone, Copy, Debug, PartialEq, Eq, Structural)]
pub enum ModelEvent {
    /// The data of the row changed.
    RowChanged(usize),
    /// `count` rows were inserted at `index`.
    RowsAdded(usize, usize),
    /// `count` rows starting at `index` were removed.
    RowsRemoved(usize, usize),
}

/// The handle of a peer registration in a [`ModelNotify`].
#[derive(Clone, Copy, Debug, PartialEq, Eq, Structural)]
pub struct ModelPeer {
    pub id: usize,
}

/// The handle of a dependency-tracked reader registered in a [`ModelNotify`].
#[derive(Clone, Copy, Debug, PartialEq, Eq, Structural)]
pub struct PropertyTracker {
    pub id: usize,
}

/// What a tracked reader depends on, and whether a dependency changed since
/// it last started an evaluation.
#[derive(Clone, Copy, Debug, PartialEq, Eq, Structural)]
pub struct TrackerState {
    pub dirty: bool,
    pub on_row_count: bool,
    pub on_row_data: bool,
}

/// The tracker after the row count cell (`count_cell`) and/or the row data
/// cell (`data_cell`) were marked dirty.
pub open spec fn marked(t: TrackerState, count_cell: bool, data_cell: bool) -> TrackerState {
    TrackerState {
        dirty: t.dirty || (count_cell && t.on_row_count) || (data_cell && t.on_row_data),
        on_row_count: t.on_row_count,
        on_row_data: t.on_row_data,
    }
}

/// Every tracker after the given cells were marked dirty.
pub open spec fn mark_all(ts: Seq<TrackerState>, count_cell: bool, data_cell: bool) -> Seq<
    TrackerState,
> {
    ts.map_values(|t: TrackerState| marked(t, count_cell, data_cell))
}

/// Every live peer's queue with `e` appended.
pub open spec fn enqueue_all(live: Seq<bool>, qs: Seq<Seq<ModelEvent>>, e: ModelEvent) -> Seq<
    Seq<ModelEvent>,
> {
    Seq::new(qs.len(), |i: int| if live[i] { qs[i].push(e) } else { qs[i] })
}

/// Strictly increasing, hence also free of duplicates.
pub open spec fn strictly_sorted(s: Seq<usize>) -> bool {
    forall|i: int, j: int| 0 <= i < j < s.len() ==> s[i] < s[j]
}

/// Where `x` stands in the strictly sorted `v`: `Ok` with its index, or
/// `Err` with the index at which inserting it keeps `v` sorted.
fn search_sorted(v: &Vec<usize>, x: usize) -> (r: Result<usize, usize>)
    requires
        strictly_sorted(v@),
    ensures
        r matches Ok(i) ==> i < v@.len() && v@[i as int] == x,
        r matches Err(i) ==> i <= v@.len() && (forall|k: int| 0 <= k < i ==> v@[k] < x) && (
        forall|k: int| i <= k < v@.len() ==> v@[k] > x),
{
    let mut lo: usize = 0;
    let mut hi: usize = v.len();
    while lo < hi
        invariant
            strictly_sorted(v@),
            lo <= hi <= v@.len(),
            forall|k: int| 0 <= k < lo ==> v@[k] < x,
            forall|k: int| hi <= k < v@.len() ==> v@[k] > x,
        decreases hi - lo,
    {
        let mid = lo + (hi - lo) / 2;
        if v[mid] == x {
            return Ok(mid);
        } else if v[mid] < x {
            lo = mid + 1;
        } else {
            hi = mid;
        }
    }
    Err(lo)
}

fn mark_trackers(ts: &mut Vec<TrackerState>, count_cell: bool, data_cell: bool)
    ensures
        final(ts)@ == mark_all(old(ts)@, count_cell, data_cell),
{
    let n = ts.len();
    let mut i: usize = 0;
    while i < n
        invariant
            n == ts@.len() == old(ts)@.len(),
            i <= n,
            forall|k: int| 0 <= k < i ==> ts@[k] == marked(old(ts)@[k], count_cell, data_cell),
            forall|k: int| i <= k < n ==> ts@[k] == old(ts)@[k],
        decreases n - i,
    {
        let t = ts[i];
        let m = TrackerState {
            dirty: t.dirty || (count_cell && t.on_row_count) || (data_cell && t.on_row_data),
            on_row_count: t.on_row_count,
            on_row_data: t.on_row_data,
        };
        ts.set(i, m);
        i = i + 1;
    }
    assert(ts@ =~= mark_all(old(ts)@, count_cell, data_cell));
}

fn enqueue(live: &Vec<bool>, qs: &mut Vec<Vec<ModelEvent>>, e: ModelEvent)
    requires
        live@.len() == old(qs)@.len(),
    ensures
        final(qs)@.map_values(|q: Vec<ModelEvent>| q@) == enqueue_all(
            live@,
            old(qs)@.map_values(|q: Vec<ModelEvent>| q@),
            e,
        ),
        final(qs)@.len() == old(qs)@.len(),
        forall|k: int| 0 <= k < live@.len() && !live@[k] ==> final(qs)@[k] == old(qs)@[k],
{
    let n = qs.len();
    let mut i: usize = 0;
    while i < n
        invariant
            n == qs@.len() == old(qs)@.len() == live@.len(),
            i <= n,
            forall|k: int| 0 <= k < i ==> qs@[k]@ == (if live@[k] { old(qs)@[k]@.push(e) } else { old(qs)@[k]@ }),
            forall|k: int| 0 <= k < i && !live@[k] ==> qs@[k] == old(qs)@[k],
            forall|k: int| i <= k < n ==> qs@[k] == old(qs)@[k],
        decreases n - i,
    {
        if live[i] {
            qs[i].push(e);
        }
        i = i + 1;
    }
    assert(qs@.map_values(|q: Vec<ModelEvent>| q@) =~= enqueue_all(
        live@,
        old(qs)@.map_values(|q: Vec<ModelEvent>| q@),
        e,
    ));
}

/// `b` is the hub `a` after it dispatched `e`.
pub open spec fn after_event(a: ModelNotify, b: ModelNotify, e: ModelEvent) -> bool {
    &&& b.wf()
    &&& b.is_allocated() == a.is_allocated()
    &&& b.live() == a.live()
    &&& b.queues() == enqueue_all(a.live(), a.queues(), e)
    &&& match e {
        ModelEvent::RowChanged(row) => {
            &&& b.tracked_row_set() == a.tracked_row_set()
            &&& b.trackers() == mark_all(a.trackers(), false, a.tracked_row_set().contains(row))
        },
        _ => {
            &&& b.tracked_row_set() == Set::<usize>::empty()
            &&& b.trackers() == mark_all(a.trackers(), true, true)
        },
    }
}

struct ModelNotifyInner {
    /// Sorted rows that a tracker asked to be notified about.
    tracked_rows: Vec<usize>,
    trackers: Vec<TrackerState>,
    peer_live: Vec<bool>,
    peer_queues: Vec<Vec<ModelEvent>>,
}

/// Dispatches the changes of a model to its peers and trackers.
///
/// Nothing is allocated until an observer registers: a model that nobody
/// observes pays for no bookkeeping.
pub struct ModelNotify {
    inner: Option<ModelNotifyInner>,
}

impl ModelNotify {
    /// Whether the hub was allocated.
    pub closed spec fn is_allocated(&self) -> bool {
        self.inner is Some
    }

    /// The rows that some tracker follows individually.
    pub closed spec fn tracked_row_set(&self) -> Set<usize> {
        match self.inner {
            Some(i) => i.tracked_rows@.to_set(),
            None => Set::empty(),
        }
    }

    /// The registered trackers, by handle.
    pub closed spec fn trackers(&self) -> Seq<TrackerState> {
        match self.inner {
            Some(i) => i.trackers@,
            None => Seq::empty(),
        }
    }

    /// For each peer registration, whether it is still attached.
    pub closed spec fn live(&self) -> Seq<bool> {
        match self.inner {
            Some(i) => i.peer_live@,
            None => Seq::empty(),
        }
    }

    /// For each peer registration, the events it has not taken yet.
    pub closed spec fn queues(&self) -> Seq<Seq<ModelEvent>> {
        match self.inner {
            Some(i) => i.peer_queues@.map_values(|q: Vec<ModelEvent>| q@),
            None => Seq::empty(),
        }
    }

    /// The internal invariant: tracked rows sorted, one queue per peer, and
    /// revoked peers hold no events.
    pub closed spec fn wf(&self) -> bool {
        match self.inner {
            Some(i) => {
                &&& strictly_sorted(i.tracked_rows@)
                &&& i.peer_live@.len() == i.peer_queues@.len()
                &&& forall|k: int|
                    0 <= k < i.peer_live@.len() && !i.peer_live@[k] ==> i.peer_queues@[k]@.len()
                        == 0
            },
            None => true,
        }
    }

    /// One queue per peer, and a revoked peer holds no event.
    pub proof fn lemma_wf_queues(&self)
        requires
            self.wf(),
        ensures
            self.queues().len() == self.live().len(),
            forall|k: int|
                0 <= k < self.live().len() && !self.live()[k] ==> self.queues()[k].len() == 0,
    {
    }

    /// A hub with no observer; nothing is allocated.
    pub fn new() -> (r: Self)
        ensures
            r.wf(),
            !r.is_allocated(),
            r.tracked_row_set() == Set::<usize>::empty(),
            r.trackers() == Seq::<TrackerState>::empty(),
            r.live() == Seq::<bool>::empty(),
            r.queues() == Seq::<Seq<ModelEvent>>::empty(),
    {
        ModelNotify { inner: None }
    }

    fn ensure_allocated(&mut self)
        requires
            old(self).wf(),
        ensures
            final(self).wf(),
            final(self).is_allocated(),
            final(self).tracked_row_set() == old(self).tracked_row_set(),
            final(self).trackers() == old(self).trackers(),
            final(self).live() == old(self).live(),
            final(self).queues() == old(self).queues(),
    {
        if self.inner.is_none() {
            let inner = ModelNotifyInner {
                tracked_rows: Vec::new(),
                trackers: Vec::new(),
                peer_live: Vec::new(),
                peer_queues: Vec::new(),
            };
            proof {
                assert(inner.tracked_rows@.to_set() =~= Set::<usize>::empty());
                assert(inner.peer_queues@.map_values(|q: Vec<ModelEvent>| q@) =~= Seq::<
                    Seq<ModelEvent>,
                >::empty());
            }
            self.inner = Some(inner);
        }
    }
}


impl ModelNotify {
    /// Tells the observers that the data of `row` changed: trackers that
    /// follow row data become dirty if `row` is a tracked row, and every
    /// attached peer receives the event.
    pub fn row_changed(&mut self, row: usize)
        requires
            old(self).wf(),
        ensures
            after_event(*old(self), *final(self), ModelEvent::RowChanged(row)),
    {
        if let Some(inner) = &mut self.inner {
            let found = search_sorted(&inner.tracked_rows, row);
            let is_tracked = found.is_ok();
            proof {
                if is_tracked {
                    let k = found->Ok_0;
                    assert(inner.tracked_rows@.contains(row)) by {
                        assert(inner.tracked_rows@[k as int] == row);
                    }
                } else {
                    assert(!inner.tracked_rows@.contains(row));
                }
            }
            mark_trackers(&mut inner.trackers, false, is_tracked);
            enqueue(&inner.peer_live, &mut inner.peer_queues, ModelEvent::RowChanged(row));
        } else {
            proof {
                assert(mark_all(Seq::<TrackerState>::empty(), false, false) =~= Seq::<
                    TrackerState,
                >::empty());
                assert(enqueue_all(
                    Seq::<bool>::empty(),
                    Seq::<Seq<ModelEvent>>::empty(),
                    ModelEvent::RowChanged(row),
                ) =~= Seq::<Seq<ModelEvent>>::empty());
            }
        }
    }

    /// Marks both cells dirty, forgets every tracked row (indices shifted)
    /// and hands `e` to every attached peer.
    fn shape_changed(&mut self, e: ModelEvent)
        requires
            old(self).wf(),
        ensures
            final(self).wf(),
            final(self).is_allocated() == old(self).is_allocated(),
            final(self).tracked_row_set() == Set::<usize>::empty(),
            final(self).trackers() == mark_all(old(self).trackers(), true, true),
            final(self).live() == old(self).live(),
            final(self).queues() == enqueue_all(old(self).live(), old(self).queues(), e),
    {
        if let Some(inner) = &mut self.inner {
            mark_trackers(&mut inner.trackers, true, true);
            inner.tracked_rows.clear();
            enqueue(&inner.peer_live, &mut inner.peer_queues, e);
            proof {
                assert(inner.tracked_rows@.to_set() =~= Set::<usize>::empty());
            }
        } else {
            proof {
                assert(mark_all(Seq::<TrackerState>::empty(), true, true) =~= Seq::<
                    TrackerState,
                >::empty());
                assert(enqueue_all(Seq::<bool>::empty(), Seq::<Seq<ModelEvent>>::empty(), e)
                    =~= Seq::<Seq<ModelEvent>>::empty());
            }
        }
    }

    /// Tells the observers that `count` rows were inserted at `index`: every
    /// tracker that follows the row count or row data becomes dirty, the
    /// tracked rows are forgotten, and every attached peer receives the event.
    pub fn row_added(&mut self, index: usize, count: usize)
        requires
            old(self).wf(),
        ensures
            after_event(*old(self), *final(self), ModelEvent::RowsAdded(index, count)),
    {
        self.shape_changed(ModelEvent::RowsAdded(index, count));
    }

    /// Tells the observers that `count` rows starting at `index` were
    /// removed, with the same effect on trackers as [`Self::row_added`].
    pub fn row_removed(&mut self, index: usize, count: usize)
        requires
            old(self).wf(),
        ensures
            after_event(*old(self), *final(self), ModelEvent::RowsRemoved(index, count)),
    {
        self.shape_changed(ModelEvent::RowsRemoved(index, count));
    }

    /// Registers a new peer, with an empty queue.
    pub fn attach_peer(&mut self) -> (peer: ModelPeer)
        requires
            old(self).wf(),
        ensures
            final(self).wf(),
            final(self).is_allocated(),
            peer.id == old(self).live().len(),
            final(self).tracked_row_set() == old(self).tracked_row_set(),
            final(self).trackers() == old(self).trackers(),
            final(self).live() == old(self).live().push(true),
            final(self).queues() == old(self).queues().push(Seq::<ModelEvent>::empty()),
    {
        self.ensure_allocated();
        let inner = self.inner.as_mut().unwrap();
        let id = inner.peer_live.len();
        inner.peer_live.push(true);
        inner.peer_queues.push(Vec::new());
        proof {
            assert(inner.peer_queues@.map_values(|q: Vec<ModelEvent>| q@) =~= old(
                self,
            ).queues().push(Seq::<ModelEvent>::empty()));
        }
        ModelPeer { id }
    }

    /// Revokes a peer: it receives no further event. Revoking a peer that
    /// this hub never handed out, or revoking it twice, does nothing.
    pub fn detach_peer(&mut self, peer: ModelPeer)
        requires
            old(self).wf(),
        ensures
            final(self).wf(),
            final(self).is_allocated() == old(self).is_allocated(),
            final(self).tracked_row_set() == old(self).tracked_row_set(),
            final(self).trackers() == old(self).trackers(),
            peer.id < old(self).live().len() ==> final(self).live() == old(self).live().update(
                peer.id as int,
                false,
            ) && final(self).queues() == old(self).queues().update(
                peer.id as int,
                Seq::<ModelEvent>::empty(),
            ),
            peer.id >= old(self).live().len() ==> final(self).live() == old(self).live()
                && final(self).queues() == old(self).queues(),
    {
        if let Some(inner) = &mut self.inner {
            if peer.id < inner.peer_live.len() {
                inner.peer_live.set(peer.id, false);
                inner.peer_queues.set(peer.id, Vec::new());
                proof {
                    assert(inner.peer_queues@.map_values(|q: Vec<ModelEvent>| q@) =~= old(
                        self,
                    ).queues().update(peer.id as int, Seq::<ModelEvent>::empty()));
                }
            }
        }
    }

    /// Hands out, in order, the events that `peer` has not taken yet, and
    /// empties its queue. A revoked or unknown peer gets nothing.
    pub fn take_events(&mut self, peer: ModelPeer) -> (events: Vec<ModelEvent>)
        requires
            old(self).wf(),
        ensures
            final(self).wf(),
            final(self).is_allocated() == old(self).is_allocated(),
            final(self).tracked_row_set() == old(self).tracked_row_set(),
            final(self).trackers() == old(self).trackers(),
            final(self).live() == old(self).live(),
            peer.id < old(self).live().len() ==> events@ == old(self).queues()[peer.id as int]
                && final(self).queues() == old(self).queues().update(
                peer.id as int,
                Seq::<ModelEvent>::empty(),
            ),
            peer.id >= old(self).live().len() ==> events@.len() == 0 && final(self).queues()
                == old(self).queues(),
    {
        if let Some(inner) = &mut self.inner {
            if peer.id < inner.peer_queues.len() {
                let mut events: Vec<ModelEvent> = Vec::new();
                inner.peer_queues.set_and_swap(peer.id, &mut events);
                proof {
                    assert(inner.peer_queues@.map_values(|q: Vec<ModelEvent>| q@) =~= old(
                        self,
                    ).queues().update(peer.id as int, Seq::<ModelEvent>::empty()));
                }
                return events;
            }
        }
        Vec::new()
    }

    /// Registers a new tracked reader. It starts dirty: it has not been
    /// evaluated yet.
    pub fn new_tracker(&mut self) -> (t: PropertyTracker)
        requires
            old(self).wf(),
        ensures
            final(self).wf(),
            final(self).is_allocated(),
            t.id == old(self).trackers().len(),
            final(self).tracked_row_set() == old(self).tracked_row_set(),
            final(self).trackers() == old(self).trackers().push(
                TrackerState { dirty: true, on_row_count: false, on_row_data: false },
            ),
            final(self).live() == old(self).live(),
            final(self).queues() == old(self).queues(),
    {
        self.ensure_allocated();
        let inner = self.inner.as_mut().unwrap();
        let id = inner.trackers.len();
        inner.trackers.push(TrackerState { dirty: true, on_row_count: false, on_row_data: false });
        PropertyTracker { id }
    }

    /// Starts an evaluation of `t`: it is clean and depends on nothing until
    /// it tracks something again.
    pub fn begin_evaluation(&mut self, t: PropertyTracker)
        requires
            old(self).wf(),
            t.id < old(self).trackers().len(),
        ensures
            final(self).wf(),
            final(self).is_allocated(),
            final(self).tracked_row_set() == old(self).tracked_row_set(),
            final(self).trackers() == old(self).trackers().update(
                t.id as int,
                TrackerState { dirty: false, on_row_count: false, on_row_data: false },
            ),
            final(self).live() == old(self).live(),
            final(self).queues() == old(self).queues(),
    {
        let inner = self.inner.as_mut().unwrap();
        inner.trackers.set(t.id, TrackerState { dirty: false, on_row_count: false, on_row_data: false });
    }

    /// Whether a dependency of `t` changed since its evaluation began.
    pub fn is_dirty(&self, t: PropertyTracker) -> (r: bool)
        requires
            t.id < self.trackers().len(),
        ensures
            r == self.trackers()[t.id as int].dirty,
    {
        let inner = self.inner.as_ref().unwrap();
        inner.trackers[t.id].dirty
    }

    /// Makes `t` depend on the row count: it becomes dirty when rows are
    /// added or removed.
    pub fn track_row_count_changes(&mut self, t: PropertyTracker)
        requires
            old(self).wf(),
            t.id < old(self).trackers().len(),
        ensures
            final(self).wf(),
            final(self).is_allocated(),
            final(self).tracked_row_set() == old(self).tracked_row_set(),
            final(self).trackers() == old(self).trackers().update(
                t.id as int,
                TrackerState { on_row_count: true, ..old(self).trackers()[t.id as int] },
            ),
            final(self).live() == old(self).live(),
            final(self).queues() == old(self).queues(),
    {
        let inner = self.inner.as_mut().unwrap();
        let old_t = inner.trackers[t.id];
        inner.trackers.set(t.id, TrackerState { on_row_count: true, ..old_t });
    }

    /// Makes `t` depend on the data of `row`: the row joins the tracked rows,
    /// and `t` becomes dirty when a tracked row changes or rows are added or
    /// removed.
    pub fn track_row_data_changes(&mut self, t: PropertyTracker, row: usize)
        requires
            old(self).wf(),
            t.id < old(self).trackers().len(),
        ensures
            final(self).wf(),
            final(self).is_allocated(),
            final(self).tracked_row_set() == old(self).tracked_row_set().insert(row),
            final(self).trackers() == old(self).trackers().update(
                t.id as int,
                TrackerState { on_row_data: true, ..old(self).trackers()[t.id as int] },
            ),
            final(self).live() == old(self).live(),
            final(self).queues() == old(self).queues(),
    {
        let inner = self.inner.as_mut().unwrap();
        let found = search_sorted(&inner.tracked_rows, row);
        match found {
            Ok(k) => {
                proof {
                    assert(inner.tracked_rows@.to_set().insert(row) =~= inner.tracked_rows@.to_set())
                        by {
                        assert(inner.tracked_rows@[k as int] == row);
                    }
                }
            },
            Err(k) => {
                let ghost before = inner.tracked_rows@;
                inner.tracked_rows.insert(k, row);
                proof {
                    let after = inner.tracked_rows@;
                    assert(after =~= before.insert(k as int, row));
                    assert forall|a: int, b: int| 0 <= a < b < after.len() implies after[a]
                        < after[b] by {
                        if b < k {
                        } else if b == k {
                        } else if a < k {
                        } else if a == k {
                        } else {
                        }
                    }
                    assert forall|x: usize| after.to_set().contains(x) <==> before.to_set().insert(
                        row,
                    ).contains(x) by {
                        if after.contains(x) {
                            let j = choose|j: int| 0 <= j < after.len() && after[j] == x;
                            if j < k {
                                assert(before[j] == x);
                            } else if j > k {
                                assert(before[j - 1] == x);
                            }
                        }
                        if before.contains(x) {
                            let j = choose|j: int| 0 <= j < before.len() && before[j] == x;
                            if j < k {
                                assert(after[j] == x);
                            } else {
                                assert(after[j + 1] == x);
                            }
                        }
                        if x == row {
                            assert(after[k as int] == x);
                        }
                    }
                    assert(after.to_set() =~= before.to_set().insert(row));
                }
            },
        }
        let old_t = inner.trackers[t.id];
        inner.trackers.set(t.id, TrackerState { on_row_data: true, ..old_t });
    }
}


/// A reader that follows the row count becomes dirty whenever rows are
/// added or removed, while a change of row data leaves it as it was unless
/// it follows row data too.
pub proof fn lemma_row_count_tracking(h: ModelNotify, t: PropertyTracker, row: usize)
    requires
        h.wf(),
        t.id < h.trackers().len(),
        h.trackers()[t.id as int].on_row_count,
    ensures
        forall|b: ModelNotify, index: usize, count: usize|
            after_event(h, b, ModelEvent::RowsAdded(index, count)) ==> b.trackers()[t.id as int].dirty,
        forall|b: ModelNotify, index: usize, count: usize|
            after_event(h, b, ModelEvent::RowsRemoved(index, count)) ==> b.trackers()[t.id as int].dirty,
        forall|b: ModelNotify|
            after_event(h, b, ModelEvent::RowChanged(row)) && !h.trackers()[t.id as int].on_row_data
                ==> b.trackers()[t.id as int] == h.trackers()[t.id as int],
{
}

/// A reader that follows row data becomes dirty when a tracked row changes
/// and, conservatively, on every insertion or removal. The invalidation is
/// not selective: a change of any tracked row makes every reader that
/// follows row data dirty, whichever row it tracked.
pub proof fn lemma_row_data_tracking(h: ModelNotify, t: PropertyTracker, row: usize)
    requires
        h.wf(),
        t.id < h.trackers().len(),
        h.trackers()[t.id as int].on_row_data,
    ensures
        forall|b: ModelNotify|
            after_event(h, b, ModelEvent::RowChanged(row)) && h.tracked_row_set().contains(row)
                ==> b.trackers()[t.id as int].dirty,
        forall|b: ModelNotify, index: usize, count: usize|
            after_event(h, b, ModelEvent::RowsAdded(index, count)) ==> b.trackers()[t.id as int].dirty,
        forall|b: ModelNotify, index: usize, count: usize|
            after_event(h, b, ModelEvent::RowsRemoved(index, count)) ==> b.trackers()[t.id as int].dirty,
        forall|b: ModelNotify, u: int|
            after_event(h, b, ModelEvent::RowChanged(row)) && h.tracked_row_set().contains(row) && 0
                <= u < h.trackers().len() && h.trackers()[u].on_row_data ==> b.trackers()[u].dirty,
        forall|b: ModelNotify|
            after_event(h, b, ModelEvent::RowChanged(row)) && !h.tracked_row_set().contains(row)
                ==> b.trackers() == h.trackers(),
{
    assert forall|b: ModelNotify|
        after_event(h, b, ModelEvent::RowChanged(row)) && !h.tracked_row_set().contains(row)
            implies b.trackers() == h.trackers() by {
        assert(b.trackers() =~= h.trackers());
    }
}

/// Once a peer is detached, no later change of the model reaches it: its
/// queue stays empty and it stays detached, whatever the event.
pub proof fn lemma_detached_peer_is_never_notified(
    h: ModelNotify,
    b: ModelNotify,
    e: ModelEvent,
    peer: ModelPeer,
)
    requires
        h.wf(),
        peer.id < h.live().len(),
        !h.live()[peer.id as int],
        after_event(h, b, e),
    ensures
        !b.live()[peer.id as int],
        b.queues()[peer.id as int] == Seq::<ModelEvent>::empty(),
{
    h.lemma_wf_queues();
    assert(h.queues()[peer.id as int] =~= Seq::<ModelEvent>::empty());
}

/// A model: an ordered collection of rows, with the hub that tells its
/// observers about every change.
pub trait Model {
    /// The data of one row.
    type Data: Clone;

    /// The rows, in order.
    spec fn rows(&self) -> Seq<Self::Data>;

    /// The notification hub.
    spec fn notify(&self) -> ModelNotify;

    /// Whether the model takes writes: then `set_row_data` of a row that
    /// exists always replaces it and tells the hub.
    spec fn accepts_writes(&self) -> bool;

    /// The number of rows.
    fn row_count(&self) -> (r: usize)
        ensures
            r == self.rows().len(),
    ;

    /// A clone of the data of `row`, or `None` past the last row.
    fn row_data(&self, row: usize) -> (r: Option<Self::Data>)
        ensures
            r is Some <==> row < self.rows().len(),
            r is Some ==> cloned(self.rows()[row as int], r->Some_0),
    ;

    /// Writes the data of `row`. A read-only model leaves everything as it
    /// was; a model that takes the write tells its hub that the row changed.
    /// A model that accepts writes always takes the write of a row that
    /// exists.
    fn set_row_data(&mut self, row: usize, data: Self::Data)
        requires
            old(self).notify().wf(),
        ensures
            final(self).notify().wf(),
            final(self).accepts_writes() == old(self).accepts_writes(),
            (final(self).rows() == old(self).rows() && final(self).notify() == old(self).notify())
                || (row < old(self).rows().len() && final(self).rows() == old(self).rows().update(
                row as int,
                data,
            ) && after_event(old(self).notify(), final(self).notify(), ModelEvent::RowChanged(row))),
            old(self).accepts_writes() && row < old(self).rows().len() ==> final(self).rows()
                == old(self).rows().update(row as int, data) && after_event(
                old(self).notify(),
                final(self).notify(),
                ModelEvent::RowChanged(row),
            ),
    ;

    /// The hub, to register observers with.
    fn model_tracker(&mut self) -> (r: &mut ModelNotify)
        ensures
            *r == old(self).notify(),
            final(self).notify() == *final(r),
            final(self).rows() == old(self).rows(),
            final(self).accepts_writes() == old(self).accepts_writes(),
    ;
}

/// Goes over the rows of a model, first row first.
pub struct ModelIterator<'a, M> {
    model: &'a M,
    row: usize,
}

impl<'a, M: Model> ModelIterator<'a, M> {
    /// The model being visited.
    pub closed spec fn visited(&self) -> &'a M {
        self.model
    }

    /// The next row to hand out.
    pub closed spec fn next_row(&self) -> nat {
        self.row as nat
    }

    /// An iterator at the first row of `model`.
    pub fn new(model: &'a M) -> (r: Self)
        ensures
            r.visited() == model,
            r.next_row() == 0,
    {
        ModelIterator { model, row: 0 }
    }

    /// A clone of the data of the next row, or `None` once every row was
    /// handed out.
    pub fn next(&mut self) -> (r: Option<M::Data>)
        ensures
            final(self).visited() == old(self).visited(),
            old(self).next_row() < old(self).visited().rows().len() ==> {
                &&& r is Some
                &&& cloned(old(self).visited().rows()[old(self).next_row() as int], r->Some_0)
                &&& final(self).next_row() == old(self).next_row() + 1
            },
            old(self).next_row() >= old(self).visited().rows().len() ==> r is None
                && final(self).next_row() == old(self).next_row(),
    {
        let row = self.row;
        if self.row < self.model.row_count() {
            self.row = self.row + 1;
        }
        self.model.row_data(row)
    }

    /// The number of rows of the model.
    pub fn size_hint(&self) -> (r: usize)
        ensures
            r == self.visited().rows().len(),
    {
        self.model.row_count()
    }
}

/// A model backed by a `Vec`.
pub struct VecModel<T> {
    array: Vec<T>,
    notify: ModelNotify,
}

impl<T: Clone> VecModel<T> {
    /// Whether the hub holds its invariant.
    pub open spec fn wf(&self) -> bool {
        self.notify().wf()
    }

    /// A model holding the rows of `array`, with no observer.
    pub fn from_vec(array: Vec<T>) -> (r: Self)
        ensures
            r.rows() == array@,
            r.notify().wf(),
            !r.notify().is_allocated(),
            r.notify().tracked_row_set() == Set::<usize>::empty(),
            r.notify().trackers() == Seq::<TrackerState>::empty(),
            r.notify().live() == Seq::<bool>::empty(),
            r.notify().queues() == Seq::<Seq<ModelEvent>>::empty(),
    {
        VecModel { array, notify: ModelNotify::new() }
    }

    /// A model holding clones of the rows of `slice`.
    pub fn from_slice(slice: &[T]) -> (r: Self)
        ensures
            r.rows().len() == slice@.len(),
            forall|i: int| 0 <= i < slice@.len() ==> cloned(slice@[i], r.rows()[i]),
            r.notify().wf(),
            !r.notify().is_allocated(),
            r.notify().tracked_row_set() == Set::<usize>::empty(),
            r.notify().trackers() == Seq::<TrackerState>::empty(),
            r.notify().live() == Seq::<bool>::empty(),
            r.notify().queues() == Seq::<Seq<ModelEvent>>::empty(),
    {
        let mut array: Vec<T> = Vec::new();
        let mut i: usize = 0;
        while i < slice.len()
            invariant
                i <= slice@.len(),
                array@.len() == i,
                forall|k: int| 0 <= k < i ==> cloned(slice@[k], array@[k]),
            decreases slice@.len() - i,
        {
            let v = slice[i].clone();
            array.push(v);
            i = i + 1;
        }
        VecModel { array, notify: ModelNotify::new() }
    }

    /// Appends a row and tells the hub.
    pub fn push(&mut self, value: T)
        requires
            old(self).wf(),
        ensures
            final(self).rows() == old(self).rows().push(value),
            after_event(
                old(self).notify(),
                final(self).notify(),
                ModelEvent::RowsAdded(old(self).rows().len() as usize, 1),
            ),
    {
        self.array.push(value);
        let index = self.array.len() - 1;
        self.notify.row_added(index, 1);
    }

    /// Inserts a row at `index`, shifting the rows after it, and tells the hub.
    pub fn insert(&mut self, index: usize, value: T)
        requires
            old(self).wf(),
            index <= old(self).rows().len(),
        ensures
            final(self).rows() == old(self).rows().insert(index as int, value),
            after_event(old(self).notify(), final(self).notify(), ModelEvent::RowsAdded(index, 1)),
    {
        self.array.insert(index, value);
        self.notify.row_added(index, 1);
    }

    /// Removes the row at `index` and tells the hub.
    pub fn remove(&mut self, index: usize)
        requires
            old(self).wf(),
            index < old(self).rows().len(),
        ensures
            final(self).rows() == old(self).rows().remove(index as int),
            after_event(
                old(self).notify(),
                final(self).notify(),
                ModelEvent::RowsRemoved(index, 1),
            ),
    {
        self.array.remove(index);
        self.notify.row_removed(index, 1);
    }
}

impl<T: Clone> Model for VecModel<T> {
    type Data = T;

    closed spec fn rows(&self) -> Seq<T> {
        self.array@
    }

    closed spec fn notify(&self) -> ModelNotify {
        self.notify
    }

    open spec fn accepts_writes(&self) -> bool {
        true
    }

    fn row_count(&self) -> (r: usize) {
        self.array.len()
    }

    fn row_data(&self, row: usize) -> (r: Option<T>) {
        if row < self.array.len() {
            Some(self.array[row].clone())
        } else {
            None
        }
    }

    fn set_row_data(&mut self, row: usize, data: T)
        ensures
            row < old(self).rows().len() ==> final(self).rows() == old(self).rows().update(
                row as int,
                data,
            ) && after_event(old(self).notify(), final(self).notify(), ModelEvent::RowChanged(row)),
            row >= old(self).rows().len() ==> final(self).rows() == old(self).rows()
                && final(self).notify() == old(self).notify(),
    {
        if row < self.array.len() {
            self.array.set(row, data);
            self.notify.row_changed(row);
        }
    }

    fn model_tracker(&mut self) -> (r: &mut ModelNotify) {
        &mut self.notify
    }
}

/// An item of a standard list view: its text.
#[derive(Clone, Default, Debug, PartialEq, Eq)]
pub struct StandardListViewItem {
    /// The text content of the item
    pub text: String,
}

} // verus!
