//! The repeater: one component instance per materialized row of a model,
//! kept in step with the model's changes.
//!
//! The repeater observes its model through a peer registration in the
//! model's hub. Events wait in the hub until the repeater pulls them, in
//! order, with [`Repeater::sync`], which every update operation starts with.
//! Events only mark slots dirty, insert fresh slots or drop slots; a slot is
//! brought up to date with its row only by an update operation.

use vstd::prelude::*;
use crate::listview::{
    ceil_div, lemma_fixed_height_convergence, spec_initial_count, spec_initial_offset,
    spec_min_height, spec_offset_y,
    spec_content_height, spec_measured_height, spec_next_window, clamp_offset_y, content_height, initial_count, initial_offset, max_int, measured_height,
    min_height, min_int, mul_wide, next_window,
};
use crate::model::{after_event, Model, ModelEvent, ModelNotify, ModelPeer};

verus! {

/// Whether a slot matches its model row.
#[derive(Clone, Copy, Debug, PartialEq, Eq, Structural)]
pub enum RepeatedComponentState {
    /// The instance holds the current data of its row.
    Clean,
    /// The instance is missing or holds stale data.
    Dirty,
}

/// A component that a repeater instantiates once per row.
///
/// Instances are shared handles: `update` and `listview_layout` change what
/// the instance shows, not which instance it is.
pub trait RepeatedComponent {
    /// The data of one model row.
    type Data: Clone;

    /// Shows the data of the row at `index`.
    fn update(&self, index: usize, data: Self::Data);

    /// The height of the instance's root item, as the contracts see it.
    spec fn height_of(&self) -> u64;

    /// The height of the instance's root item.
    fn height(&self) -> (r: u64)
        ensures
            r == self.height_of(),
    ;

    /// Places the instance at `offset_y` in a list view `viewport_width`
    /// wide.
    fn listview_layout(&self, offset_y: u64, viewport_width: u64);
}

/// The order in which [`Repeater::visit`] goes over the instances.
#[derive(Clone, Copy, Debug, PartialEq, Eq, Structural)]
pub enum TraversalOrder {
    /// First slot first.
    BackToFront,
    /// Last slot first.
    FrontToBack,
}

/// How a visit ended.
#[derive(Clone, Copy, Debug, PartialEq, Eq, Structural)]
pub enum VisitChildrenResult {
    /// Every instance was visited.
    Continue,
    /// The visitor stopped at the instance of this slot.
    Aborted(usize),
}

/// The position of slot `i` among `count` slots in a visit in `order`.
pub open spec fn visit_rank(order: TraversalOrder, count: int, i: int) -> int {
    match order {
        TraversalOrder::BackToFront => i,
        TraversalOrder::FrontToBack => count - 1 - i,
    }
}

/// What an instance was last given through `update`: a row index and that
/// row's data. Kept beside the instance for the contracts only.
pub type Shown<C> = Ghost<Option<(usize, <C as RepeatedComponent>::Data)>>;

/// One materialized row: its state, once created its instance, and what the
/// instance was last given.
pub type Slot<C> = (RepeatedComponentState, Option<C>, Shown<C>);

/// `n` slots that are dirty and hold no instance.
pub open spec fn fresh_slots<C: RepeatedComponent>(n: nat) -> Seq<Slot<C>> {
    Seq::new(n, |i: int| (RepeatedComponentState::Dirty, None::<C>, Ghost(None)))
}

/// `s` with every slot from `from` on marked dirty.
pub open spec fn dirty_from<C: RepeatedComponent>(s: Seq<Slot<C>>, from: int) -> Seq<Slot<C>> {
    Seq::new(
        s.len(),
        |i: int| if i < from { s[i] } else { (RepeatedComponentState::Dirty, s[i].1, s[i].2) },
    )
}

/// `s` cut or padded with fresh slots to `n` slots.
pub open spec fn resized<C: RepeatedComponent>(s: Seq<Slot<C>>, n: nat) -> Seq<Slot<C>> {
    if n <= s.len() {
        s.subrange(0, n as int)
    } else {
        s + fresh_slots::<C>((n - s.len()) as nat)
    }
}

/// The slots after the window moved from `old_offset` to `offset` and was
/// sized to `count` rows: rows in both windows keep their slot.
pub open spec fn shifted<C: RepeatedComponent>(s: Seq<Slot<C>>, old_offset: int, offset: int, count: nat) -> Seq<
    Slot<C>,
> {
    let kept = if offset >= old_offset {
        if offset - old_offset < s.len() {
            s.subrange(offset - old_offset, s.len() as int)
        } else {
            Seq::empty()
        }
    } else if s.len() > 0 {
        fresh_slots::<C>((old_offset - offset) as nat) + s
    } else {
        Seq::empty()
    };
    resized(kept, count)
}

/// The slots after `row` changed, for a window starting at `offset`.
pub open spec fn on_row_changed<C: RepeatedComponent>(s: Seq<Slot<C>>, offset: int, row: int) -> Seq<Slot<C>> {
    if offset <= row < offset + s.len() {
        s.update(row - offset, (RepeatedComponentState::Dirty, s[row - offset].1, s[row - offset].2))
    } else {
        s
    }
}

/// Where, in slot indices, `count` rows inserted or removed at `index`
/// start, and how many of them fall at or after the window start; `None`
/// when all of them lie before it.
pub open spec fn clip_to_window(offset: int, index: int, count: int) -> Option<(int, int)> {
    if index < offset {
        if index + count < offset {
            None
        } else {
            Some((0, count - (offset - index)))
        }
    } else {
        Some((index - offset, count))
    }
}

/// The slots after `count` rows were inserted at `index`: fresh dirty slots
/// stand for the new rows, and every later slot turns dirty (its row moved).
pub open spec fn on_rows_added<C: RepeatedComponent>(s: Seq<Slot<C>>, offset: int, index: int, count: int) -> Seq<
    Slot<C>,
> {
    match clip_to_window(offset, index, count) {
        None => s,
        Some((i, c)) => if c == 0 || i > s.len() {
            s
        } else {
            dirty_from(
                s.subrange(0, i) + fresh_slots::<C>(c as nat) + s.subrange(i, s.len() as int),
                i,
            )
        },
    }
}

/// The slots after `count` rows starting at `index` were removed: the
/// removed rows lose their slot and every later slot turns dirty.
pub open spec fn on_rows_removed<C: RepeatedComponent>(s: Seq<Slot<C>>, offset: int, index: int, count: int) -> Seq<
    Slot<C>,
> {
    match clip_to_window(offset, index, count) {
        None => s,
        Some((i, c)) => if c == 0 || i >= s.len() {
            s
        } else {
            let c2 = if i + c > s.len() { s.len() - i } else { c };
            dirty_from(s.subrange(0, i) + s.subrange(i + c2, s.len() as int), i)
        },
    }
}

/// Whether an event changes the repeater (it then has work to do).
pub open spec fn event_touches<C: RepeatedComponent>(s: Seq<Slot<C>>, offset: int, e: ModelEvent) -> bool {
    match e {
        ModelEvent::RowChanged(_) => true,
        ModelEvent::RowsAdded(index, count) => match clip_to_window(offset, index as int, count as int) {
            None => false,
            Some((i, c)) => c != 0 && i <= s.len(),
        },
        ModelEvent::RowsRemoved(index, count) => match clip_to_window(
            offset,
            index as int,
            count as int,
        ) {
            None => false,
            Some((i, c)) => c != 0 && i < s.len(),
        },
    }
}

/// The slots after one event.
pub open spec fn on_event<C: RepeatedComponent>(s: Seq<Slot<C>>, offset: int, e: ModelEvent) -> Seq<Slot<C>> {
    match e {
        ModelEvent::RowChanged(row) => on_row_changed(s, offset, row as int),
        ModelEvent::RowsAdded(index, count) => on_rows_added(s, offset, index as int, count as int),
        ModelEvent::RowsRemoved(index, count) => on_rows_removed(
            s,
            offset,
            index as int,
            count as int,
        ),
    }
}

/// The slots after a sequence of events, in order.
pub open spec fn on_events<C: RepeatedComponent>(s: Seq<Slot<C>>, offset: int, es: Seq<ModelEvent>) -> Seq<Slot<C>>
    decreases es.len(),
{
    if es.len() == 0 {
        s
    } else {
        on_event(on_events(s, offset, es.drop_last()), offset, es.last())
    }
}

/// Whether any of the events changes the repeater.
pub open spec fn any_touches<C: RepeatedComponent>(s: Seq<Slot<C>>, offset: int, es: Seq<ModelEvent>) -> bool
    decreases es.len(),
{
    if es.len() == 0 {
        false
    } else {
        any_touches(s, offset, es.drop_last()) || event_touches(
            on_events(s, offset, es.drop_last()),
            offset,
            es.last(),
        )
    }
}

/// Materializes the rows of a model as component instances.
pub struct Repeater<C: RepeatedComponent> {
    components: Vec<Slot<C>>,
    /// The model row of the first slot; only moves in list view mode.
    offset: usize,
    /// The estimated height of one row; only used in list view mode.
    cached_item_height: u64,
    is_dirty: bool,
    peer: Option<ModelPeer>,
    /// Set when the window must be searched again at the next list view
    /// pull; cleared by the search.
    geometry_dirty: bool,
    /// The inputs of the last window search.
    last_geometry: (u64, i64, u64, usize),
}

impl<C: RepeatedComponent> Repeater<C> {
    /// The slots, first row first.
    pub closed spec fn slots(&self) -> Seq<Slot<C>> {
        self.components@
    }

    /// The model row of the first slot.
    pub closed spec fn offset(&self) -> nat {
        self.offset as nat
    }

    /// Whether some slot may need to be brought up to date.
    pub closed spec fn dirty(&self) -> bool {
        self.is_dirty
    }

    /// The registration with the bound model's hub, if bound.
    pub closed spec fn peer(&self) -> Option<ModelPeer> {
        self.peer
    }

    /// Whether the list view window must be searched again.
    pub closed spec fn needs_geometry(&self) -> bool {
        self.geometry_dirty
    }

    /// The estimated height of one row.
    pub closed spec fn item_height(&self) -> u64 {
        self.cached_item_height
    }

    /// The inputs of the last window search: list view height, viewport
    /// `y`, viewport height and row count.
    pub closed spec fn geometry_inputs(&self) -> (u64, i64, u64, usize) {
        self.last_geometry
    }

    /// Every clean slot holds an instance, and when the repeater is not
    /// dirty every slot is clean.
    pub open spec fn wf(&self) -> bool {
        &&& forall|i: int|
            0 <= i < self.slots().len() && (#[trigger] self.slots()[i]).0
                == RepeatedComponentState::Clean ==> self.slots()[i].1 is Some
        &&& !self.dirty() ==> forall|i: int|
            0 <= i < self.slots().len() ==> (#[trigger] self.slots()[i]).0
                == RepeatedComponentState::Clean
    }

    /// The events that wait for this repeater in the hub `n`.
    pub open spec fn pending(&self, n: ModelNotify) -> Seq<ModelEvent> {
        match self.peer() {
            Some(peer) => if peer.id < n.live().len() {
                n.queues()[peer.id as int]
            } else {
                Seq::empty()
            },
            None => Seq::empty(),
        }
    }

    /// A repeater bound to no model, with no slot.
    pub fn new() -> (r: Self)
        ensures
            r.wf(),
            r.slots() == Seq::<Slot<C>>::empty(),
            r.offset() == 0,
            r.item_height() == 0,
            r.peer() is None,
            !r.dirty(),
            r.needs_geometry(),
    {
        Repeater {
            components: Vec::new(),
            offset: 0,
            cached_item_height: 0,
            is_dirty: false,
            peer: None,
            geometry_dirty: true,
            last_geometry: (0, 0, 0, 0),
        }
    }

    /// The number of slots.
    pub fn len(&self) -> (r: usize)
        ensures
            r == self.slots().len(),
    {
        self.components.len()
    }

    /// The state of slot `i`, `None` past the last slot.
    pub fn slot_state(&self, i: usize) -> (r: Option<RepeatedComponentState>)
        ensures
            i < self.slots().len() ==> r == Some(self.slots()[i as int].0),
            i >= self.slots().len() ==> r is None,
    {
        if i < self.components.len() {
            Some(self.components[i].0)
        } else {
            None
        }
    }

    /// The model row of the first slot.
    pub fn first_row(&self) -> (r: usize)
        ensures
            r == self.offset(),
    {
        self.offset
    }

    /// Whether there is no slot.
    pub fn is_empty(&self) -> (r: bool)
        ensures
            r == (self.slots().len() == 0),
    {
        self.len() == 0
    }

    /// Applies a "row changed" event: the repeater becomes dirty, and so
    /// does the slot of the row if the row is materialized.
    pub fn row_changed(&mut self, row: usize)
        requires
            old(self).wf(),
        ensures
            final(self).wf(),
            final(self).slots() == on_row_changed(old(self).slots(), old(self).offset() as int, row as int),
            final(self).dirty(),
            final(self).offset() == old(self).offset(),
            final(self).peer() == old(self).peer(),
            final(self).needs_geometry() == old(self).needs_geometry(),
            final(self).item_height() == old(self).item_height(),
            final(self).geometry_inputs() == old(self).geometry_inputs(),
    {
        self.is_dirty = true;
        if row >= self.offset && row - self.offset < self.components.len() {
            let k = row - self.offset;
            self.components[k].0 = RepeatedComponentState::Dirty;
            proof {
                assert(self.components@ =~= on_row_changed(
                    old(self).components@,
                    old(self).offset as int,
                    row as int,
                ));
            }
        }
    }
}


/// `n` dirty slots without instance.
fn new_fresh_slots<C: RepeatedComponent>(n: usize) -> (v: Vec<Slot<C>>)
    ensures
        v@ == fresh_slots::<C>(n as nat),
{
    let mut v: Vec<Slot<C>> = Vec::new();
    let mut i: usize = 0;
    while i < n
        invariant
            i <= n,
            v@ == fresh_slots::<C>(i as nat),
        decreases n - i,
    {
        v.push((RepeatedComponentState::Dirty, None, Ghost(None)));
        i = i + 1;
        proof {
            assert(v@ =~= fresh_slots::<C>(i as nat));
        }
    }
    v
}

/// Cuts `v` or pads it with fresh slots to `n` slots.
fn resize_slots<C: RepeatedComponent>(v: &mut Vec<Slot<C>>, n: usize)
    ensures
        final(v)@ == resized(old(v)@, n as nat),
{
    if n <= v.len() {
        v.truncate(n);
    } else {
        let mut extra = new_fresh_slots::<C>(n - v.len());
        v.append(&mut extra);
    }
}

impl<C: RepeatedComponent> Repeater<C> {
    /// Applies a "rows added" event: fresh dirty slots stand for the rows
    /// inserted inside the window, every later slot turns dirty (its row
    /// moved), and the window must be searched again.
    pub fn row_added(&mut self, index: usize, count: usize)
        requires
            old(self).wf(),
        ensures
            final(self).wf(),
            final(self).slots() == on_rows_added(
                old(self).slots(),
                old(self).offset() as int,
                index as int,
                count as int,
            ),
            final(self).dirty() == (old(self).dirty() || event_touches(
                old(self).slots(),
                old(self).offset() as int,
                ModelEvent::RowsAdded(index, count),
            )),
            final(self).offset() == old(self).offset(),
            final(self).peer() == old(self).peer(),
            final(self).needs_geometry(),
            final(self).item_height() == old(self).item_height(),
            final(self).geometry_inputs() == old(self).geometry_inputs(),
    {
        self.geometry_dirty = true;
        let mut index = index;
        let mut count = count;
        if index < self.offset {
            if count < self.offset - index {
                return;
            }
            count = count - (self.offset - index);
            index = 0;
        } else {
            index = index - self.offset;
        }
        if count == 0 || index > self.components.len() {
            return;
        }
        self.is_dirty = true;
        let ghost before = self.components@;
        let mut tail = self.components.split_off(index);
        let mut fresh = new_fresh_slots::<C>(count);
        self.components.append(&mut fresh);
        self.components.append(&mut tail);
        let ghost joined = self.components@;
        assert(joined =~= before.subrange(0, index as int) + fresh_slots::<C>(count as nat)
            + before.subrange(index as int, before.len() as int));
        let n = self.components.len();
        let mut k: usize = index;
        while k < n
            invariant
                index <= k <= n,
                n == joined.len() == self.components@.len(),
                forall|i: int|
                    0 <= i < n && (i < index || i >= k) ==> self.components@[i] == joined[i],
                forall|i: int|
                    index <= i < k ==> self.components@[i] == (
                        RepeatedComponentState::Dirty,
                        joined[i].1,
                        joined[i].2,
                    ),
                self.offset == old(self).offset,
                self.is_dirty,
                self.peer == old(self).peer,
                self.geometry_dirty,
                self.cached_item_height == old(self).cached_item_height,
                self.last_geometry == old(self).last_geometry,
            decreases n - k,
        {
            self.components[k].0 = RepeatedComponentState::Dirty;
            k = k + 1;
        }
        proof {
            assert(self.components@ =~= dirty_from(joined, index as int));
        }
    }
}


impl<C: RepeatedComponent> Repeater<C> {
    /// Applies a "rows removed" event: the slots of the removed rows inside
    /// the window go, every later slot turns dirty (its row moved), and the
    /// window must be searched again.
    pub fn row_removed(&mut self, index: usize, count: usize)
        requires
            old(self).wf(),
        ensures
            final(self).wf(),
            final(self).slots() == on_rows_removed(
                old(self).slots(),
                old(self).offset() as int,
                index as int,
                count as int,
            ),
            final(self).dirty() == (old(self).dirty() || event_touches(
                old(self).slots(),
                old(self).offset() as int,
                ModelEvent::RowsRemoved(index, count),
            )),
            final(self).offset() == old(self).offset(),
            final(self).peer() == old(self).peer(),
            final(self).needs_geometry(),
            final(self).item_height() == old(self).item_height(),
            final(self).geometry_inputs() == old(self).geometry_inputs(),
    {
        self.geometry_dirty = true;
        let mut index = index;
        let mut count = count;
        if index < self.offset {
            if count < self.offset - index {
                return;
            }
            count = count - (self.offset - index);
            index = 0;
        } else {
            index = index - self.offset;
        }
        if count == 0 || index >= self.components.len() {
            return;
        }
        if count > self.components.len() - index {
            count = self.components.len() - index;
        }
        self.is_dirty = true;
        let ghost before = self.components@;
        let mut tail = self.components.split_off(index + count);
        self.components.truncate(index);
        self.components.append(&mut tail);
        let ghost joined = self.components@;
        assert(joined =~= before.subrange(0, index as int) + before.subrange(
            index + count,
            before.len() as int,
        ));
        let n = self.components.len();
        let mut k: usize = index;
        while k < n
            invariant
                index <= k <= n,
                n == joined.len() == self.components@.len(),
                forall|i: int|
                    0 <= i < n && (i < index || i >= k) ==> self.components@[i] == joined[i],
                forall|i: int|
                    index <= i < k ==> self.components@[i] == (
                        RepeatedComponentState::Dirty,
                        joined[i].1,
                        joined[i].2,
                    ),
                self.offset == old(self).offset,
                self.is_dirty,
                self.peer == old(self).peer,
                self.geometry_dirty,
                self.cached_item_height == old(self).cached_item_height,
                self.last_geometry == old(self).last_geometry,
            decreases n - k,
        {
            self.components[k].0 = RepeatedComponentState::Dirty;
            k = k + 1;
        }
        proof {
            assert(self.components@ =~= dirty_from(joined, index as int));
        }
    }

    /// Moves the window to start at model row `offset` and sizes it to
    /// `count` rows: the slots of rows in both windows are kept in place,
    /// the others are dropped or created fresh. The repeater becomes dirty.
    pub fn set_offset(&mut self, offset: usize, count: usize)
        requires
            old(self).wf(),
        ensures
            final(self).wf(),
            final(self).slots() == shifted(
                old(self).slots(),
                old(self).offset() as int,
                offset as int,
                count as nat,
            ),
            final(self).offset() == offset,
            final(self).dirty(),
            final(self).peer() == old(self).peer(),
            final(self).needs_geometry() == old(self).needs_geometry(),
            final(self).item_height() == old(self).item_height(),
            final(self).geometry_inputs() == old(self).geometry_inputs(),
    {
        let old_offset = self.offset;
        let to_remove = offset.saturating_sub(old_offset);
        let ghost s = self.components@;
        if to_remove < self.components.len() {
            if offset >= old_offset {
                let tail = self.components.split_off(to_remove);
                self.components = tail;
            } else {
                let mut front = new_fresh_slots::<C>(old_offset - offset);
                front.append(&mut self.components);
                self.components = front;
            }
        } else {
            self.components.truncate(0);
        }
        proof {
            if offset >= old_offset {
                if offset - old_offset < s.len() {
                } else {
                    assert(self.components@ =~= Seq::<Slot<C>>::empty());
                }
            } else if s.len() > 0 {
            } else {
                assert(self.components@ =~= Seq::<Slot<C>>::empty());
            }
        }
        resize_slots(&mut self.components, count);
        self.offset = offset;
        self.is_dirty = true;
    }
}

/// Sliding the window by one row over the same number of rows drops exactly
/// the slot that left the window and adds exactly one fresh dirty slot; the
/// other slots, instances included, are kept in order.
pub proof fn lemma_slide_by_one<C: RepeatedComponent>(s: Seq<Slot<C>>, offset: int)
    requires
        s.len() >= 1,
        offset >= 0,
    ensures
        shifted(s, offset, offset + 1, s.len()) == s.subrange(1, s.len() as int).push(
            (RepeatedComponentState::Dirty, None::<C>, Ghost(None)),
        ),
{
    let kept = s.subrange(1, s.len() as int);
    assert(resized(kept, s.len()) =~= kept.push((RepeatedComponentState::Dirty, None::<C>, Ghost(None))));
}


/// Whether some of the events change the shape of the model.
pub open spec fn any_shape_change(es: Seq<ModelEvent>) -> bool {
    exists|i: int| 0 <= i < es.len() && !(es[i] is RowChanged)
}

/// The slot needs no work: it is clean and holds an instance.
pub open spec fn is_ready<C: RepeatedComponent>(slot: Slot<C>) -> bool {
    slot.0 == RepeatedComponentState::Clean && slot.1 is Some
}

/// The slot's instance was last given the index `row` and a clone of that
/// row's data in `rows`.
pub open spec fn shows_row<C: RepeatedComponent>(slot: Slot<C>, row: int, rows: Seq<C::Data>) -> bool {
    &&& slot.2@ is Some
    &&& slot.2@->Some_0.0 == row
    &&& cloned(rows[row], slot.2@->Some_0.1)
}

/// Every ready slot of a window starting at row `offset` shows its row of
/// `rows`.
pub open spec fn shows_rows<C: RepeatedComponent>(s: Seq<Slot<C>>, offset: int, rows: Seq<C::Data>) -> bool {
    forall|i: int| 0 <= i < s.len() && is_ready(#[trigger] s[i]) ==> shows_row(s[i], offset + i, rows)
}

/// `new` is `old`, sized to `count`, with every slot of a window starting
/// at row `offset` brought up to date with `rows`: a ready slot is kept as
/// it was (no update), any other slot keeps its instance if it had one,
/// gets a new one otherwise, and is given its row index and data. Every
/// slot ends ready.
pub open spec fn refreshed<C: RepeatedComponent>(
    old: Seq<Slot<C>>,
    new: Seq<Slot<C>>,
    count: nat,
    offset: int,
    rows: Seq<C::Data>,
) -> bool {
    let r = resized(old, count);
    &&& new.len() == count
    &&& forall|i: int|
        0 <= i < count ==> {
            &&& is_ready(#[trigger] new[i])
            &&& is_ready(r[i]) ==> new[i] == r[i]
            &&& !is_ready(r[i]) ==> shows_row(new[i], offset + i, rows)
            &&& r[i].1 is Some ==> new[i].1 == r[i].1
        }
}

/// The instances held by the slots, in order.
pub open spec fn instances<C: RepeatedComponent>(s: Seq<Slot<C>>) -> Seq<C>
    decreases s.len(),
{
    if s.len() == 0 {
        Seq::empty()
    } else {
        match s.last().1 {
            Some(c) => instances(s.drop_last()).push(c),
            None => instances(s.drop_last()),
        }
    }
}

impl<C: RepeatedComponent> Repeater<C> {
    /// Applies one event of the bound model.
    pub fn apply_event(&mut self, e: ModelEvent)
        requires
            old(self).wf(),
        ensures
            final(self).wf(),
            final(self).slots() == on_event(old(self).slots(), old(self).offset() as int, e),
            final(self).dirty() == (old(self).dirty() || event_touches(
                old(self).slots(),
                old(self).offset() as int,
                e,
            )),
            final(self).offset() == old(self).offset(),
            final(self).peer() == old(self).peer(),
            final(self).needs_geometry() == (old(self).needs_geometry() || !(e is RowChanged)),
            final(self).item_height() == old(self).item_height(),
            final(self).geometry_inputs() == old(self).geometry_inputs(),
    {
        match e {
            ModelEvent::RowChanged(row) => self.row_changed(row),
            ModelEvent::RowsAdded(index, count) => self.row_added(index, count),
            ModelEvent::RowsRemoved(index, count) => self.row_removed(index, count),
        }
    }

    /// Takes the pending events of the bound model from its hub and applies
    /// them in order. An unbound repeater takes nothing.
    pub fn sync<M: Model>(&mut self, model: &mut M)
        requires
            old(self).wf(),
            old(model).notify().wf(),
        ensures
            final(self).wf(),
            final(model).rows() == old(model).rows(),
            final(model).notify().wf(),
            final(model).notify().is_allocated() == old(model).notify().is_allocated(),
            final(model).notify().tracked_row_set() == old(model).notify().tracked_row_set(),
            final(model).notify().trackers() == old(model).notify().trackers(),
            final(model).notify().live() == old(model).notify().live(),
            final(self).offset() == old(self).offset(),
            final(self).peer() == old(self).peer(),
            final(self).item_height() == old(self).item_height(),
            final(self).geometry_inputs() == old(self).geometry_inputs(),
            ({
                let es = old(self).pending(old(model).notify());
                &&& final(self).slots() == on_events(old(self).slots(), old(self).offset() as int, es)
                &&& final(self).dirty() == (old(self).dirty() || any_touches(
                    old(self).slots(),
                    old(self).offset() as int,
                    es,
                ))
                &&& final(self).needs_geometry() == (old(self).needs_geometry()
                    || any_shape_change(es))
                &&& match old(self).peer() {
                    Some(peer) => if peer.id < old(model).notify().live().len() {
                        final(model).notify().queues() == old(model).notify().queues().update(
                            peer.id as int,
                            Seq::<ModelEvent>::empty(),
                        )
                    } else {
                        final(model).notify().queues() == old(model).notify().queues()
                    },
                    None => final(model).notify().queues() == old(model).notify().queues(),
                }
            }),
    {
        let events = match self.peer {
            Some(peer) => model.model_tracker().take_events(peer),
            None => Vec::new(),
        };
        let ghost s0 = self.components@;
        let ghost off = self.offset as int;
        let ghost d0 = self.is_dirty;
        let ghost g0 = self.geometry_dirty;
        let mut i: usize = 0;
        while i < events.len()
            invariant
                i <= events@.len(),
                self.offset == off,
                self.peer == old(self).peer,
                self.cached_item_height == old(self).cached_item_height,
                self.last_geometry == old(self).last_geometry,
                self.components@ == on_events(s0, off, events@.subrange(0, i as int)),
                self.is_dirty == (d0 || any_touches(s0, off, events@.subrange(0, i as int))),
                self.geometry_dirty == (g0 || any_shape_change(events@.subrange(0, i as int))),
                self.wf(),
            decreases events@.len() - i,
        {
            let e = events[i];
            proof {
                let next = events@.subrange(0, i + 1);
                assert(next.drop_last() =~= events@.subrange(0, i as int));
                assert(next.last() == e);
            }
            self.apply_event(e);
            i = i + 1;
            proof {
                let prev = events@.subrange(0, i - 1);
                let cur = events@.subrange(0, i as int);
                if any_shape_change(cur) {
                    let j = choose|j: int| 0 <= j < cur.len() && !(cur[j] is RowChanged);
                    if j < i - 1 {
                        assert(prev[j] == cur[j]);
                    }
                }
                if any_shape_change(prev) {
                    let j = choose|j: int| 0 <= j < prev.len() && !(prev[j] is RowChanged);
                    assert(cur[j] == prev[j]);
                }
            }
        }
        proof {
            assert(events@.subrange(0, events@.len() as int) =~= events@);
        }
    }

    /// Binds the repeater to `model`: every slot is discarded, the window
    /// returns to the first row, and a new peer registration is made with the
    /// model's hub. Unbind from the previous model first.
    pub fn set_model_binding<M: Model>(&mut self, model: &mut M)
        requires
            old(model).notify().wf(),
        ensures
            final(self).wf(),
            final(self).slots() == Seq::<Slot<C>>::empty(),
            final(self).offset() == 0,
            final(self).item_height() == 0,
            final(self).dirty(),
            final(self).needs_geometry(),
            final(self).peer() == Some(ModelPeer { id: old(model).notify().live().len() as usize }),
            final(model).rows() == old(model).rows(),
            final(model).notify().wf(),
            final(model).notify().is_allocated(),
            final(model).notify().tracked_row_set() == old(model).notify().tracked_row_set(),
            final(model).notify().trackers() == old(model).notify().trackers(),
            final(model).notify().live() == old(model).notify().live().push(true),
            final(model).notify().queues() == old(model).notify().queues().push(
                Seq::<ModelEvent>::empty(),
            ),
    {
        self.components = Vec::new();
        self.offset = 0;
        self.cached_item_height = 0;
        self.is_dirty = true;
        self.geometry_dirty = true;
        let peer = model.model_tracker().attach_peer();
        self.peer = Some(peer);
    }

    /// Revokes the registration with `model`'s hub: no later change of the
    /// model reaches this repeater. This is the first step of tearing a
    /// repeater down.
    pub fn unbind<M: Model>(&mut self, model: &mut M)
        requires
            old(self).wf(),
            old(model).notify().wf(),
        ensures
            final(self).wf(),
            final(self).peer() is None,
            final(self).slots() == old(self).slots(),
            final(self).dirty() == old(self).dirty(),
            final(self).offset() == old(self).offset(),
            final(model).rows() == old(model).rows(),
            final(model).notify().wf(),
            old(self).peer() is Some && old(self).peer()->Some_0.id < old(model).notify().live().len()
                ==> final(model).notify().live() == old(model).notify().live().update(
                old(self).peer()->Some_0.id as int,
                false,
            ) && final(model).notify().queues() == old(model).notify().queues().update(
                old(self).peer()->Some_0.id as int,
                Seq::<ModelEvent>::empty(),
            ),
    {
        if let Some(peer) = self.peer {
            model.model_tracker().detach_peer(peer);
        }
        self.peer = None;
    }

    /// Sizes the slots to `count` and brings every slot that is not ready
    /// up to date: a missing instance is made by `init`, and the instance is
    /// given its row index and data. Ready slots are left alone. Returns
    /// whether an instance was made.
    fn ensure_updated_impl<M: Model<Data = C::Data>, F: Fn() -> C>(
        &mut self,
        init: &F,
        model: &M,
        count: usize,
    ) -> (created: bool)
        requires
            count == 0 || old(self).offset() + count <= model.rows().len(),
            model.rows().len() <= usize::MAX,
            init.requires(()),
        ensures
            final(self).wf(),
            refreshed(
                old(self).slots(),
                final(self).slots(),
                count as nat,
                old(self).offset() as int,
                model.rows(),
            ),
            created == exists|i: int|
                0 <= i < count && resized(old(self).slots(), count as nat)[i].1 is None,
            forall|i: int|
                0 <= i < count && resized(old(self).slots(), count as nat)[i].1 is None
                    ==> init.ensures((), final(self).slots()[i].1->Some_0),
            !final(self).dirty(),
            final(self).offset() == old(self).offset(),
            final(self).peer() == old(self).peer(),
            final(self).needs_geometry() == old(self).needs_geometry(),
            final(self).item_height() == old(self).item_height(),
            final(self).geometry_inputs() == old(self).geometry_inputs(),
    {
        resize_slots(&mut self.components, count);
        let ghost r = self.components@;
        let offset = self.offset;
        let mut created = false;
        let mut i: usize = 0;
        while i < count
            invariant
                i <= count,
                r.len() == count == self.components@.len(),
                r == resized(old(self).slots(), count as nat),
                offset == self.offset == old(self).offset,
                count == 0 || offset + count <= model.rows().len(),
                model.rows().len() <= usize::MAX,
                init.requires(()),
                self.peer == old(self).peer,
                self.geometry_dirty == old(self).geometry_dirty,
                self.cached_item_height == old(self).cached_item_height,
                self.last_geometry == old(self).last_geometry,
                forall|k: int| i <= k < count ==> self.components@[k] == r[k],
                forall|k: int|
                    0 <= k < i ==> {
                        &&& is_ready(#[trigger] self.components@[k])
                        &&& is_ready(r[k]) ==> self.components@[k] == r[k]
                        &&& !is_ready(r[k]) ==> shows_row(
                            self.components@[k],
                            offset + k,
                            model.rows(),
                        )
                        &&& r[k].1 is Some ==> self.components@[k].1 == r[k].1
                    },
                created == exists|k: int| 0 <= k < i && r[k].1 is None,
                forall|k: int|
                    0 <= k < i && r[k].1 is None ==> init.ensures((), self.components@[k].1->Some_0),
            decreases count - i,
        {
            let ready = self.components[i].0 == RepeatedComponentState::Clean
                && self.components[i].1.is_some();
            if !ready {
                if self.components[i].1.is_none() {
                    created = true;
                    let c = init();
                    self.components[i].1 = Some(c);
                }
                let row = i + offset;
                let data = model.row_data(row).unwrap();
                let ghost given = (row, data);
                match &self.components[i].1 {
                    Some(c) => c.update(row, data),
                    None => {},
                }
                self.components[i].2 = Ghost(Some(given));
                self.components[i].0 = RepeatedComponentState::Clean;
            }
            i = i + 1;
        }
        self.is_dirty = false;
        created
    }

    /// Brings the repeater up to date with `model` (not in list view mode):
    /// pending events are applied and, if the repeater is dirty or its slots
    /// do not match the row count, the slots are refreshed. Afterwards there
    /// is one ready slot per row.
    pub fn ensure_updated<M: Model<Data = C::Data>, F: Fn() -> C>(&mut self, model: &mut M, init: &F)
        requires
            old(self).wf(),
            old(model).notify().wf(),
            old(self).offset() == 0,
            init.requires(()),
        ensures
            final(self).wf(),
            final(model).rows() == old(model).rows(),
            final(model).notify().wf(),
            final(self).offset() == 0,
            final(self).peer() == old(self).peer(),
            !final(self).dirty(),
            final(self).slots().len() == old(model).rows().len(),
            forall|i: int| 0 <= i < final(self).slots().len() ==> is_ready(#[trigger] final(self).slots()[i]),
            ({
                let es = old(self).pending(old(model).notify());
                let s1 = on_events(old(self).slots(), 0, es);
                shows_rows(s1, 0, old(model).rows()) ==> forall|i: int|
                    0 <= i < final(self).slots().len() ==> shows_row(
                        #[trigger] final(self).slots()[i],
                        i,
                        old(model).rows(),
                    )
            }),
            ({
                let es = old(self).pending(old(model).notify());
                let s1 = on_events(old(self).slots(), 0, es);
                if old(self).dirty() || any_touches(old(self).slots(), 0, es) || s1.len()
                    != old(model).rows().len() {
                    refreshed(s1, final(self).slots(), old(model).rows().len(), 0, old(model).rows())
                } else {
                    final(self).slots() == s1
                }
            }),
    {
        self.sync(model);
        let n = model.row_count();
        if self.is_dirty || self.components.len() != n {
            self.ensure_updated_impl(init, &*model, n);
        }
    }
}


/// `a + b`, saturating at `u64::MAX`.
pub open spec fn sat_add(a: u64, b: u64) -> u64 {
    if a + b > u64::MAX {
        u64::MAX
    } else {
        (a + b) as u64
    }
}

/// Where the instances of `s`, stacked one below the other from `y`, end
/// (saturating at `u64::MAX`).
pub open spec fn layout_end<C: RepeatedComponent>(y: u64, s: Seq<Slot<C>>) -> u64
    decreases s.len(),
{
    if s.len() == 0 {
        y
    } else {
        let e = layout_end(y, s.drop_last());
        match s.last().1 {
            Some(c) => sat_add(e, c.height_of()),
            None => e,
        }
    }
}

/// Instances of one height `h`, stacked from `y`, end at `y + len * h`.
pub proof fn lemma_layout_end_fixed<C: RepeatedComponent>(y: u64, s: Seq<Slot<C>>, h: u64)
    requires
        forall|i: int| 0 <= i < s.len() ==> (#[trigger] s[i]).1 is Some && s[i].1->Some_0.height_of() == h,
        y + s.len() * h <= u64::MAX,
    ensures
        layout_end(y, s) == y + s.len() * h,
    decreases s.len(),
{
    if s.len() > 0 {
        assert(y + (s.len() - 1) * h <= y + s.len() * h) by (nonlinear_arith)
            requires
                s.len() >= 1,
        {
        }
        lemma_layout_end_fixed(y, s.drop_last(), h);
        assert(s.last() == s[s.len() - 1]);
        assert(y + (s.len() - 1) * h + h == y + s.len() * h) by (nonlinear_arith);
    }
}

/// Where the first slot of a window starting at row `offset` is placed:
/// `offset * item_height`, saturating at `u64::MAX`.
pub open spec fn window_start(offset: nat, item_height: u64) -> u64 {
    if offset * item_height > u64::MAX {
        u64::MAX
    } else {
        (offset * item_height) as u64
    }
}

/// After a write of `row`: the slots are those `s` turns into through the
/// events `es`, and the row's slot, if it is materialized, dirty and holds
/// an instance while the row exists, was made clean and its instance given
/// the row and its data; every other slot is as the events left it.
pub open spec fn written_through<C: RepeatedComponent>(
    s: Seq<Slot<C>>,
    new: Seq<Slot<C>>,
    offset: int,
    es: Seq<ModelEvent>,
    row: int,
    rows: Seq<C::Data>,
) -> bool {
    let s1 = on_events(s, offset, es);
    let k = row - offset;
    &&& new.len() == s1.len()
    &&& forall|i: int| 0 <= i < s1.len() && i != k ==> new[i] == s1[i]
    &&& 0 <= k < s1.len() ==> if s1[k].0 == RepeatedComponentState::Dirty && s1[k].1 is Some
        && row < rows.len() {
        &&& new[k].0 == RepeatedComponentState::Clean
        &&& new[k].1 == s1[k].1
        &&& shows_row(new[k], row, rows)
    } else {
        new[k] == s1[k]
    }
}

/// Every instance that `init` makes is `h` high.
pub open spec fn makes_height<C: RepeatedComponent, F: Fn() -> C>(init: F, h: u64) -> bool {
    forall|c: C| init.ensures((), c) ==> c.height_of() == h
}

/// A write of `data` to `row` took `rows0` to `rows1` and the hub `n0` to
/// `n1`: either nothing changed, or the row was replaced and the hub told.
pub open spec fn write_outcome<D>(
    rows0: Seq<D>,
    rows1: Seq<D>,
    n0: ModelNotify,
    n1: ModelNotify,
    row: usize,
    data: D,
) -> bool {
    ||| rows1 == rows0 && n1 == n0
    ||| row < rows0.len() && rows1 == rows0.update(row as int, data) && after_event(
        n0,
        n1,
        ModelEvent::RowChanged(row),
    )
}

/// The peer is registered with the hub `n` and still attached.
pub open spec fn attached(peer: Option<ModelPeer>, n: ModelNotify) -> bool {
    peer is Some && peer->Some_0.id < n.live().len() && n.live()[peer->Some_0.id as int]
}

/// Every slot is clean.
pub open spec fn all_clean<C: RepeatedComponent>(s: Seq<Slot<C>>) -> bool {
    forall|i: int| 0 <= i < s.len() ==> (#[trigger] s[i]).0 == RepeatedComponentState::Clean
}

impl<C: RepeatedComponent> Repeater<C> {
    /// Lays the instances out one below the other, the first at
    /// `offset * item_height`, each in a viewport `listview_width` wide.
    /// Returns where the last one ends (saturating at `u64::MAX`).
    pub fn compute_layout_listview(&self, listview_width: u64) -> (end: u64)
        ensures
            end == layout_end(window_start(self.offset(), self.item_height()), self.slots()),
    {
        let start: u128 = mul_wide(self.cached_item_height, self.offset);
        proof {
            assert(self.offset() * self.item_height() == self.cached_item_height * self.offset)
                by (nonlinear_arith)
                requires
                    self.offset() == self.offset,
                    self.item_height() == self.cached_item_height,
            {
            }
        }
        let mut y: u64 = if start > u64::MAX as u128 {
            u64::MAX
        } else {
            start as u64
        };
        let ghost y0 = y;
        let mut i: usize = 0;
        while i < self.components.len()
            invariant
                i <= self.components@.len(),
                y == layout_end(y0, self.components@.subrange(0, i as int)),
            decreases self.components@.len() - i,
        {
            proof {
                assert(self.components@.subrange(0, i + 1).drop_last() =~= self.components@.subrange(
                    0,
                    i as int,
                ));
            }
            match &self.components[i].1 {
                Some(c) => {
                    c.listview_layout(y, listview_width);
                    y = y.saturating_add(c.height());
                },
                None => {},
            }
            i = i + 1;
        }
        proof {
            assert(self.components@.subrange(0, i as int) =~= self.components@);
        }
        y
    }

    /// The number of instances, the sum of their heights (saturating) and
    /// the smallest of `cap` and their heights.
    fn measure(&self, cap: u64) -> (r: (u64, usize, u64))
        ensures
            r.1 <= self.slots().len(),
            r.2 <= cap,
            r.1 == 0 ==> r.2 == cap,
            r.1 == 0 ==> forall|i: int| 0 <= i < self.slots().len() ==> self.slots()[i].1 is None,
    {
        let mut total: u64 = 0;
        let mut count: usize = 0;
        let mut min_seen: u64 = cap;
        let mut i: usize = 0;
        while i < self.components.len()
            invariant
                i <= self.components@.len(),
                count <= i,
                min_seen <= cap,
                count == 0 ==> min_seen == cap,
                count == 0 ==> forall|k: int| 0 <= k < i ==> self.components@[k].1 is None,
            decreases self.components@.len() - i,
        {
            match &self.components[i].1 {
                Some(c) => {
                    let h = c.height();
                    count = count + 1;
                    total = total.saturating_add(h);
                    if h < min_seen {
                        min_seen = h;
                    }
                },
                None => {},
            }
            i = i + 1;
        }
        (total, count, min_seen)
    }

    /// Brings a list view up to date: pending events are applied, then,
    /// when the model's shape, the viewport or the scroll position changed,
    /// the window of rows to materialize is searched again (see
    /// [`crate::listview`]); otherwise only the dirty slots of the current
    /// window are refreshed. `viewport_height` and `viewport_y` receive the
    /// height of the scrollable content and the scroll position; they are
    /// left as they are when no search runs.
    ///
    /// After a search the window is the one the arithmetic of
    /// [`crate::listview`] settles on for the measured layout, and every
    /// slot is clean with an instance. When every instance that `init`
    /// makes is `h` high and a fresh, unscrolled window is searched, the
    /// window is the first `ceil(listview_height / h)` rows (at most all of
    /// them) and the content is `row_count * h` high.
    #[verifier::rlimit(50)]
    pub fn ensure_updated_listview<M: Model<Data = C::Data>, F: Fn() -> C>(
        &mut self,
        model: &mut M,
        init: &F,
        viewport_height: &mut u64,
        viewport_y: &mut i64,
        listview_width: u64,
        listview_height: u64,
    )
        requires
            old(self).wf(),
            old(model).notify().wf(),
            init.requires(()),
        ensures
            final(self).wf(),
            final(model).rows() == old(model).rows(),
            final(model).notify().wf(),
            final(self).peer() == old(self).peer(),
            old(model).rows().len() == 0 ==> final(self).slots().len() == 0
                && *final(viewport_height) == 0 && *final(viewport_y) == 0,
            old(model).rows().len() > 0 ==> !final(self).needs_geometry(),
            ({
                let es = old(self).pending(old(model).notify());
                let n = old(model).rows().len();
                let searched = old(self).needs_geometry() || any_shape_change(es)
                    || old(self).geometry_inputs() != (
                    listview_height,
                    *old(viewport_y),
                    *old(viewport_height),
                    n as usize,
                );
                let s1 = on_events(old(self).slots(), old(self).offset() as int, es);
                let d1 = old(self).dirty() || any_touches(
                    old(self).slots(),
                    old(self).offset() as int,
                    es,
                );
                let len = final(self).slots().len() as int;
                let off = final(self).offset() as int;
                let end = layout_end(
                    window_start(final(self).offset(), final(self).item_height()),
                    final(self).slots(),
                ) as int;
                let eh = spec_measured_height(end, final(self).item_height() as int, off, len);
                &&& n > 0 && searched ==> {
                    &&& 1 <= len
                    &&& off + len <= n
                    &&& (exists|i: int| 0 <= i < s1.len() && (#[trigger] s1[i]).1 is Some) ==> min_int(
                        s1.len() as int,
                        n as int,
                    ) <= len
                    &&& shows_rows(s1, old(self).offset() as int, old(model).rows()) ==> forall|j: int|
                        0 <= j < len ==> shows_row(#[trigger] final(self).slots()[j], off + j, old(model).rows())
                    &&& forall|i: int| 0 <= i < len ==> is_ready(#[trigger] final(self).slots()[i])
                    &&& !final(self).dirty()
                    &&& *final(viewport_height) == spec_content_height(eh, n as int, end)
                    &&& *final(viewport_y) <= 0
                    &&& (*final(viewport_y) == -i64::MAX || spec_next_window(
                        len,
                        off,
                        -(*final(viewport_y)),
                        end,
                        eh,
                        listview_height as int,
                        n as int,
                    ) is None)
                }
                &&& n > 0 && !searched ==> *final(viewport_height) == *old(viewport_height)
                    && *final(viewport_y) == *old(viewport_y) && final(self).offset() == old(
                    self,
                ).offset()
                &&& n > 0 && !searched && d1 ==> {
                    &&& refreshed(
                        s1,
                        final(self).slots(),
                        min_int(s1.len() as int, max_int(n - old(self).offset(), 0)) as nat,
                        old(self).offset() as int,
                        old(model).rows(),
                    )
                    &&& !final(self).dirty()
                }
                &&& n > 0 && !searched && !d1 ==> final(self).slots() == s1
                &&& forall|h: u64|
                    #[trigger] makes_height(*init, h) && 1 <= h && 1 <= n && 1 <= listview_height
                        && *old(viewport_y) == 0 && old(self).offset() == 0 && s1.len() == 0
                        && searched && n * h <= u64::MAX ==> {
                        &&& off == 0
                        &&& len == min_int(ceil_div(listview_height as int, h as int), n as int)
                        &&& *final(viewport_height) == n * h
                        &&& *final(viewport_y) == 0
                    }
            }),
    {
        self.sync(model);
        let ghost s_sync = self.components@;
        let ghost off_sync = self.offset;
        let ghost vy_old = *viewport_y;
        let ghost vh_old = *viewport_height;
        let row_count = model.row_count();
        if row_count == 0 {
            self.components.truncate(0);
            *viewport_height = 0;
            *viewport_y = 0;
            return;
        }
        let m: &M = &*model;
        let (lh, vy, vh, rc) = self.last_geometry;
        let searched = self.geometry_dirty || lh != listview_height || vy != *viewport_y || vh
            != *viewport_height || rc != row_count;
        if !searched {
            if self.is_dirty {
                let room = row_count.saturating_sub(self.offset);
                let count = if self.components.len() <= room {
                    self.components.len()
                } else {
                    room
                };
                self.ensure_updated_impl(init, m, count);
                self.compute_layout_listview(listview_width);
            }
            return;
        }
        // Estimate the height of a row from what is materialized; with
        // nothing materialized, materialize one row to measure it.
        let (total, seen, min_seen) = self.measure(listview_height);
        let mut element_height: u64;
        let mut smallest = min_seen;
        // Whether the seed row came from `init` on an empty, unscrolled
        // window: then its height is the one every row made by `init` has.
        let ghost mut seeded = false;
        if seen > 0 {
            element_height = total / seen as u64;
        } else {
            if self.offset > row_count - 1 {
                self.offset = row_count - 1;
            }
            self.ensure_updated_impl(init, m, 1);
            element_height = 0;
            match &self.components[0].1 {
                Some(c) => {
                    let h = c.height();
                    element_height = h;
                    if h < smallest {
                        smallest = h;
                    }
                    proof {
                        if s_sync.len() == 0 && off_sync == 0 {
                            assert(resized(s_sync, 1)[0].1 is None);
                            assert(init.ensures((), *c));
                            seeded = true;
                        }
                    }
                },
                None => {},
            }
        }
        proof {
            if s_sync.len() == 0 {
                assert(seen == 0);
            }
        }
        let ghost shown0 = shows_rows(s_sync, off_sync as int, m.rows());
        proof {
            if shown0 && seen == 0 {
                assert(shows_rows(s_sync, self.offset as int, m.rows()));
            }
            if shown0 {
                if seen == 0 {
                    lemma_refreshed_shows_rows(
                        s_sync,
                        self.components@,
                        1,
                        self.offset as int,
                        m.rows(),
                    );
                }
                assert(shows_rows(self.components@, self.offset as int, m.rows()));
            }
        }
        let ghost eh0 = element_height;
        let ghost fixed = seeded && makes_height(*init, eh0) && 1 <= eh0 && 1 <= listview_height
            && vy_old == 0 && row_count * eh0 <= u64::MAX;
        assert(self.components@.len() >= 1);
        let min_h = min_height(smallest, element_height);
        let mut offset_y = clamp_offset_y(
            *viewport_y,
            element_height,
            row_count,
            listview_height,
            *viewport_height,
        );
        let mut count = initial_count(listview_height, min_h, self.components.len(), row_count);
        let mut offset = initial_offset(offset_y, element_height, row_count, count);
        let ghost peer0 = self.peer;
        let ghost c0 = count;
        proof {
            if exists|i: int| 0 <= i < s_sync.len() && (#[trigger] s_sync[i]).1 is Some {
                assert(seen > 0);
                assert(c0 >= min_int(s_sync.len() as int, row_count as int));
            }
        }
        proof {
            if fixed {
                lemma_fixed_height_convergence(
                    row_count as int,
                    eh0 as int,
                    listview_height as int,
                    vh_old as int,
                );
                assert(self.components@[0].1->Some_0.height_of() == eh0);
            }
        }
        loop
            invariant_except_break
                fixed ==> {
                    &&& count == c0
                    &&& c0 == min_int(ceil_div(listview_height as int, eh0 as int), row_count as int)
                    &&& offset == 0
                    &&& offset_y == 0
                    &&& element_height == eh0
                    &&& self.offset == 0
                    &&& self.components@.len() == 1
                    &&& is_ready(self.components@[0])
                    &&& self.components@[0].1->Some_0.height_of() == eh0
                    &&& makes_height(*init, eh0)
                    &&& 1 <= eh0
                    &&& row_count * eh0 <= u64::MAX
                    &&& 1 <= listview_height
                },
            invariant
                1 <= count <= row_count,
                offset + count <= row_count,
                row_count == m.rows().len(),
                init.requires(()),
                self.peer == peer0,
                self.wf(),
                count >= c0,
                shown0 ==> shows_rows(self.components@, self.offset as int, m.rows()),
            ensures
                self.components@.len() >= c0,
                shown0 ==> forall|j: int|
                    0 <= j < self.components@.len() ==> shows_row(
                        #[trigger] self.components@[j],
                        self.offset + j,
                        m.rows(),
                    ),
                1 <= self.components@.len(),
                self.offset + self.components@.len() <= row_count,
                forall|i: int|
                    0 <= i < self.components@.len() ==> is_ready(#[trigger] self.components@[i]),
                self.wf(),
                !self.is_dirty,
                self.peer == peer0,
                ({
                    let len = self.components@.len() as int;
                    let off = self.offset as int;
                    let end = layout_end(
                        window_start(self.offset(), self.item_height()),
                        self.slots(),
                    ) as int;
                    let eh = spec_measured_height(end, self.item_height() as int, off, len);
                    &&& *viewport_height == spec_content_height(eh, row_count as int, end)
                    &&& *viewport_y <= 0
                    &&& (*viewport_y == -i64::MAX || spec_next_window(
                        len,
                        off,
                        -(*viewport_y),
                        end,
                        eh,
                        listview_height as int,
                        row_count as int,
                    ) is None)
                }),
                fixed ==> {
                    &&& self.offset == 0
                    &&& self.components@.len() == c0
                    &&& *viewport_height == row_count * eh0
                    &&& *viewport_y == 0
                },
            decreases row_count - count,
        {
            self.cached_item_height = element_height;
            let ghost before_shift = self.components@;
            let ghost before_offset = self.offset as int;
            self.set_offset(offset, count);
            proof {
                if shown0 {
                    lemma_shifted_shows_rows(before_shift, before_offset, offset as int, count as nat, m.rows());
                }
            }
            let ghost before_refresh = self.components@;
            self.ensure_updated_impl(init, m, count);
            proof {
                if shown0 {
                    lemma_refreshed_shows_rows(
                        before_refresh,
                        self.components@,
                        count as nat,
                        offset as int,
                        m.rows(),
                    );
                }
            }
            let end = self.compute_layout_listview(listview_width);
            proof {
                if fixed {
                    let sl = self.components@;
                    assert forall|i: int| 0 <= i < sl.len() implies (#[trigger] sl[i]).1 is Some
                        && sl[i].1->Some_0.height_of() == eh0 by {
                        if i > 0 {
                            assert(init.ensures((), sl[i].1->Some_0));
                        }
                    }
                    assert(c0 * eh0 <= row_count * eh0) by (nonlinear_arith)
                        requires
                            c0 <= row_count,
                    {
                    }
                    assert(window_start(0, eh0) == 0);
                    lemma_layout_end_fixed(0, sl, eh0);
                    assert(end == c0 * eh0);
                    lemma_fixed_height_convergence(
                        row_count as int,
                        eh0 as int,
                        listview_height as int,
                        vh_old as int,
                    );
                    assert(0int * eh0 + c0 * eh0 == c0 * eh0);
                }
            }
            element_height = measured_height(end, element_height, offset, count);
            match next_window(
                count,
                offset,
                offset_y,
                end,
                element_height,
                listview_height,
                row_count,
            ) {
                Some((c, o, y)) => {
                    count = c;
                    offset = o;
                    offset_y = y;
                },
                None => {
                    *viewport_height = content_height(element_height, row_count, end);
                    *viewport_y = if offset_y > i64::MAX as u64 {
                        -i64::MAX
                    } else {
                        -(offset_y as i64)
                    };
                    break;
                },
            }
        }
        self.geometry_dirty = false;
        self.last_geometry = (listview_height, *viewport_y, *viewport_height, row_count);
    }
}


impl<C: RepeatedComponent> Repeater<C> {
    /// Writes `data` to `row` of `model`, applies the resulting events, and
    /// refreshes the row's instance at once if it is materialized and was
    /// made dirty, instead of waiting for the next pull.
    ///
    /// The hub `mid` in the contract is the model's hub right after the
    /// write. When the model accepts writes, the row exists and this
    /// repeater is attached to the model's hub, the row's slot, if it is
    /// materialized and holds an instance, ends clean and showing the row
    /// with its new data.
    pub fn model_set_row_data<M: Model<Data = C::Data>>(&mut self, model: &mut M, row: usize, data: C::Data)
        requires
            old(self).wf(),
            old(model).notify().wf(),
        ensures
            final(self).wf(),
            final(model).notify().wf(),
            final(model).rows() == old(model).rows() || (row < old(model).rows().len()
                && final(model).rows() == old(model).rows().update(row as int, data)),
            old(model).accepts_writes() && row < old(model).rows().len() ==> final(model).rows()
                == old(model).rows().update(row as int, data),
            final(self).offset() == old(self).offset(),
            final(self).peer() == old(self).peer(),
            exists|mid: ModelNotify|
                #![trigger old(self).pending(mid)]
                {
                    &&& write_outcome(
                        old(model).rows(),
                        final(model).rows(),
                        old(model).notify(),
                        mid,
                        row,
                        data,
                    )
                    &&& written_through(
                        old(self).slots(),
                        final(self).slots(),
                        old(self).offset() as int,
                        old(self).pending(mid),
                        row as int,
                        final(model).rows(),
                    )
                },
            ({
                let k = row - old(self).offset();
                old(model).accepts_writes() && row < old(model).rows().len() && attached(
                    old(self).peer(),
                    old(model).notify(),
                ) && 0 <= k < final(self).slots().len() && final(self).slots()[k].1 is Some ==> {
                    &&& final(self).slots()[k].0 == RepeatedComponentState::Clean
                    &&& shows_row(final(self).slots()[k], row as int, final(model).rows())
                }
            }),
    {
        model.set_row_data(row, data);
        let ghost mid = model.notify();
        assert(write_outcome(old(model).rows(), model.rows(), old(model).notify(), mid, row, data));
        proof {
            if old(model).accepts_writes() && row < old(model).rows().len() && attached(
                old(self).peer(),
                old(model).notify(),
            ) {
                let id = old(self).peer()->Some_0.id as int;
                let es = old(model).notify().queues()[id];
                old(model).notify().lemma_wf_queues();
                assert(mid.queues()[id] == es.push(ModelEvent::RowChanged(row)));
                assert(old(self).pending(mid) == es.push(ModelEvent::RowChanged(row)));
                assert(es.push(ModelEvent::RowChanged(row)).drop_last() =~= es);
            }
        }
        self.sync(model);
        let ghost s1 = self.components@;
        if row >= self.offset && row - self.offset < self.components.len() {
            let k = row - self.offset;
            if self.components[k].0 == RepeatedComponentState::Dirty {
                let fresh = model.row_data(row);
                match (&self.components[k].1, fresh) {
                    (Some(c), Some(d)) => {
                        let ghost given = (row, d);
                        c.update(row, d);
                        self.components[k].2 = Ghost(Some(given));
                        self.components[k].0 = RepeatedComponentState::Clean;
                    },
                    _ => {},
                }
            }
        }
        proof {
            assert(written_through(
                old(self).slots(),
                self.slots(),
                old(self).offset() as int,
                old(self).pending(mid),
                row as int,
                model.rows(),
            ));
            assert(exists|m2: ModelNotify|
                #![trigger old(self).pending(m2)]
                {
                    &&& write_outcome(
                        old(model).rows(),
                        model.rows(),
                        old(model).notify(),
                        m2,
                        row,
                        data,
                    )
                    &&& written_through(
                        old(self).slots(),
                        self.slots(),
                        old(self).offset() as int,
                        old(self).pending(m2),
                        row as int,
                        model.rows(),
                    )
                });
        }
    }

    /// Calls `visitor` on each instance in the given order until it returns
    /// `true`, which stops the visit at that slot.
    pub fn visit<V: Fn(&C) -> bool>(&self, order: TraversalOrder, visitor: &V) -> (r: VisitChildrenResult)
        requires
            forall|c: &C| visitor.requires((c,)),
        ensures
            r matches VisitChildrenResult::Aborted(i) ==> {
                &&& i < self.slots().len()
                &&& self.slots()[i as int].1 is Some
                &&& visitor.ensures((&self.slots()[i as int].1->Some_0,), true)
            },
            forall|k: int|
                0 <= k < self.slots().len() && self.slots()[k].1 is Some && (match r {
                    VisitChildrenResult::Continue => true,
                    VisitChildrenResult::Aborted(i) => visit_rank(
                        order,
                        self.slots().len() as int,
                        k,
                    ) < visit_rank(order, self.slots().len() as int, i as int),
                }) ==> visitor.ensures((&self.slots()[k].1->Some_0,), false),
    {
        let count = self.components.len();
        let mut k: usize = 0;
        while k < count
            invariant
                k <= count == self.components@.len(),
                forall|c: &C| visitor.requires((c,)),
                forall|j: int|
                    0 <= j < count && self.components@[j].1 is Some && visit_rank(order, count as int, j)
                        < k ==> visitor.ensures((&self.components@[j].1->Some_0,), false),
            decreases count - k,
        {
            let i = match order {
                TraversalOrder::BackToFront => k,
                TraversalOrder::FrontToBack => count - k - 1,
            };
            match &self.components[i].1 {
                Some(c) => {
                    if visitor(c) {
                        return VisitChildrenResult::Aborted(i);
                    }
                },
                None => {},
            }
            k = k + 1;
        }
        proof {
            assert forall|j: int|
                0 <= j < count && self.components@[j].1 is Some implies visitor.ensures(
                (&self.components@[j].1->Some_0,),
                false,
            ) by {
                assert(visit_rank(order, count as int, j) < k);
            }
        }
        VisitChildrenResult::Continue
    }
}

impl<C: RepeatedComponent + Clone> Repeater<C> {
    /// Clones of the instances, first slot first.
    pub fn components_vec(&self) -> (r: Vec<C>)
        ensures
            r@.len() == instances(self.slots()).len(),
            forall|i: int| 0 <= i < r@.len() ==> cloned(instances(self.slots())[i], r@[i]),
    {
        let mut r: Vec<C> = Vec::new();
        let mut i: usize = 0;
        while i < self.components.len()
            invariant
                i <= self.components@.len(),
                r@.len() == instances(self.components@.subrange(0, i as int)).len(),
                forall|k: int|
                    0 <= k < r@.len() ==> cloned(
                        instances(self.components@.subrange(0, i as int))[k],
                        r@[k],
                    ),
            decreases self.components@.len() - i,
        {
            proof {
                assert(self.components@.subrange(0, i + 1).drop_last() =~= self.components@.subrange(
                    0,
                    i as int,
                ));
            }
            match &self.components[i].1 {
                Some(c) => {
                    r.push(c.clone());
                },
                None => {},
            }
            i = i + 1;
        }
        proof {
            assert(self.components@.subrange(0, i as int) =~= self.components@);
        }
        r
    }
}


impl<C: RepeatedComponent> Default for Repeater<C> {
    /// A repeater bound to no model, with no slot.
    fn default() -> (r: Self)
        ensures
            r.wf(),
            r.slots() == Seq::<Slot<C>>::empty(),
            r.offset() == 0,
            r.peer() is None,
            !r.dirty(),
    {
        Self::new()
    }
}

/// A repeater that was unbound has nothing waiting for it in any hub: a
/// pull applies no event and leaves its slots as they are, whatever the
/// model went through since.
pub proof fn lemma_unbound_repeater_ignores_changes<C: RepeatedComponent>(r: Repeater<C>, n: ModelNotify)
    requires
        r.peer() is None,
    ensures
        r.pending(n) == Seq::<ModelEvent>::empty(),
        on_events(r.slots(), r.offset() as int, r.pending(n)) == r.slots(),
        !any_touches(r.slots(), r.offset() as int, r.pending(n)),
        !any_shape_change(r.pending(n)),
{
}


/// The rows before the first row that `e` touches are the same in `rows0`
/// and `rows1` (for a row change: every other row is the same; for an
/// event of no rows: all rows are).
pub open spec fn rows_kept<D>(rows0: Seq<D>, rows1: Seq<D>, e: ModelEvent) -> bool {
    match e {
        ModelEvent::RowChanged(r) => {
            &&& rows1.len() == rows0.len()
            &&& forall|j: int| 0 <= j < rows0.len() && j != r ==> rows1[j] == rows0[j]
        },
        ModelEvent::RowsAdded(i, c) => {
            &&& c == 0 ==> rows1 == rows0
            &&& i <= rows0.len()
            &&& i <= rows1.len()
            &&& forall|j: int| 0 <= j < i ==> rows1[j] == rows0[j]
        },
        ModelEvent::RowsRemoved(i, c) => {
            &&& c == 0 ==> rows1 == rows0
            &&& i <= rows0.len()
            &&& i <= rows1.len()
            &&& forall|j: int| 0 <= j < i ==> rows1[j] == rows0[j]
        },
    }
}

/// With the window at the first row, the ready slots keep showing their
/// rows through a change of the model: a slot whose row may have moved or
/// changed turns dirty, and every slot that stays ready shows the same row
/// with the same data as before.
pub proof fn lemma_event_keeps_rows_shown<C: RepeatedComponent>(
    s: Seq<Slot<C>>,
    rows0: Seq<C::Data>,
    rows1: Seq<C::Data>,
    e: ModelEvent,
)
    requires
        s.len() <= rows0.len(),
        shows_rows(s, 0, rows0),
        rows_kept(rows0, rows1, e),
    ensures
        shows_rows(on_event(s, 0, e), 0, rows1),
{
    let t = on_event(s, 0, e);
    match e {
        ModelEvent::RowChanged(r) => {
            assert forall|i: int| 0 <= i < t.len() && is_ready(#[trigger] t[i]) implies shows_row(
                t[i],
                0 + i,
                rows1,
            ) by {
                assert(t[i] == s[i]);
                assert(rows1[i] == rows0[i]);
            }
        },
        ModelEvent::RowsAdded(index, count) => {
            assert forall|i: int| 0 <= i < t.len() && is_ready(#[trigger] t[i]) implies shows_row(
                t[i],
                0 + i,
                rows1,
            ) by {
                if count != 0 && index <= s.len() {
                    assert(i < index);
                } else if count == 0 {
                    assert(rows1 == rows0);
                }
                assert(t[i] == s[i]);
                assert(rows1[i] == rows0[i]);
            }
        },
        ModelEvent::RowsRemoved(index, count) => {
            assert forall|i: int| 0 <= i < t.len() && is_ready(#[trigger] t[i]) implies shows_row(
                t[i],
                0 + i,
                rows1,
            ) by {
                if count != 0 && index < s.len() {
                    assert(i < index);
                } else if count == 0 {
                    assert(rows1 == rows0);
                }
                assert(t[i] == s[i]);
                assert(rows1[i] == rows0[i]);
            }
        },
    }
}


/// The changes of a `VecModel` keep the rows that the event does not
/// touch: a write, an append, an insertion and a removal of one row.
pub proof fn lemma_vec_model_changes_keep_rows<D>(rows: Seq<D>, index: int, value: D)
    ensures
        0 <= index < rows.len() && index <= usize::MAX ==> rows_kept(
            rows,
            rows.update(index, value),
            ModelEvent::RowChanged(index as usize),
        ),
        0 <= index <= rows.len() && index <= usize::MAX ==> rows_kept(
            rows,
            rows.insert(index, value),
            ModelEvent::RowsAdded(index as usize, 1),
        ),
        0 <= index < rows.len() && index <= usize::MAX ==> rows_kept(
            rows,
            rows.remove(index),
            ModelEvent::RowsRemoved(index as usize, 1),
        ),
{
}

/// Bringing slots up to date keeps every slot showing its row, given that
/// the ready slots did before.
pub proof fn lemma_refreshed_shows_rows<C: RepeatedComponent>(
    old: Seq<Slot<C>>,
    new: Seq<Slot<C>>,
    count: nat,
    offset: int,
    rows: Seq<C::Data>,
)
    requires
        shows_rows(old, offset, rows),
        refreshed(old, new, count, offset, rows),
    ensures
        forall|i: int| 0 <= i < count ==> shows_row(#[trigger] new[i], offset + i, rows),
{
    let r = resized(old, count);
    assert forall|i: int| 0 <= i < count implies shows_row(#[trigger] new[i], offset + i, rows) by {
        if is_ready(r[i]) {
            if i >= old.len() {
                assert(r[i] == fresh_slots::<C>((count - old.len()) as nat)[i - old.len()]);
            }
            assert(r[i] == old[i]);
        }
    }
}

/// Moving the window keeps the ready slots showing their rows: a kept slot
/// stands for the same row before and after.
pub proof fn lemma_shifted_shows_rows<C: RepeatedComponent>(
    s: Seq<Slot<C>>,
    old_offset: int,
    offset: int,
    count: nat,
    rows: Seq<C::Data>,
)
    requires
        shows_rows(s, old_offset, rows),
    ensures
        shows_rows(shifted(s, old_offset, offset, count), offset, rows),
{
    let kept = if offset >= old_offset {
        if offset - old_offset < s.len() {
            s.subrange(offset - old_offset, s.len() as int)
        } else {
            Seq::empty()
        }
    } else if s.len() > 0 {
        fresh_slots::<C>((old_offset - offset) as nat) + s
    } else {
        Seq::empty()
    };
    assert(shows_rows(kept, offset, rows)) by {
        assert forall|j: int| 0 <= j < kept.len() && is_ready(#[trigger] kept[j]) implies shows_row(
            kept[j],
            offset + j,
            rows,
        ) by {
            if offset >= old_offset {
                assert(kept[j] == s[j + offset - old_offset]);
            } else {
                let d = old_offset - offset;
                if j < d {
                    assert(kept[j] == fresh_slots::<C>(d as nat)[j]);
                } else {
                    assert(kept[j] == s[j - d]);
                }
            }
        }
    }
    let t = resized(kept, count);
    assert forall|j: int| 0 <= j < t.len() && is_ready(#[trigger] t[j]) implies shows_row(
        t[j],
        offset + j,
        rows,
    ) by {
        if j >= kept.len() {
            assert(t[j] == fresh_slots::<C>((count - kept.len()) as nat)[j - kept.len()]);
        } else {
            assert(t[j] == kept[j]);
        }
    }
}

} // verus!
