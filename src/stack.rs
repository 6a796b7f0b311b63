use vstd::prelude::*;

use crate::record::{
    disjoint_ids, distinct_ids, find_record, fresh_record, holds_id, index_of_id, lemma_index_of_id,
    offset_for, offset_of, placed, records_view, shift_down, shift_up, without_id, NotifyUnitWidgetInfo,
    RecordView, BEGINNING_UP_MARGIN, EXTRAINF_MARGIN, MAX_RECORDS, MAX_SHOWN_NOTIFICATIONS_COUNT,
    UNIT_MARGIN,
};
use crate::server::{
    NotifyCommand, default_action, default_action_key, NOTIFICATION_DELETED_BY_EXPIRED,
};
use crate::unit::{NotifyUnit, UnitView};

verus! {

/// Surface identities at or above this value are never handed out.
pub const SURFACE_ID_LIMIT: u64 = 0xffff_ffff_ffff_0000;

/// A visible slot: a presentation surface bound to the notification it shows.
#[derive(Clone, Copy, Debug, PartialEq, Eq, Structural)]
pub struct Slot {
    pub surface: u64,
    pub nid: u32,
}

/// What a newly opened surface shows.
#[derive(Clone, Copy, Debug, PartialEq, Eq, Structural)]
pub enum SurfaceContent {
    Notification(u32),
    HiddenIndicator,
}

/// One step the presentation layer performs to match the stack's state.
#[derive(Clone, Copy, Debug, PartialEq, Eq, Structural)]
pub enum SurfaceOp {
    OpenSurface { slot_id: u64, offset: i32, content: SurfaceContent },
    MoveSurface { slot_id: u64, new_offset: i32 },
    CloseSurface { slot_id: u64 },
}

/// A surface asked to close, with the record it showed last, kept for late
/// queries while the surface is torn down.
pub struct ClosingSurface {
    pub surface: u64,
    /// Tombstoned record to purge once the surface is gone, if any.
    pub nid: u32,
    pub shown: NotifyUnitWidgetInfo,
}

/// Mathematical value of a [`ClosingSurface`].
pub struct ClosingView {
    pub surface: u64,
    pub nid: u32,
    pub shown: RecordView,
}

impl View for ClosingSurface {
    type V = ClosingView;

    open spec fn view(&self) -> ClosingView {
        ClosingView { surface: self.surface, nid: self.nid, shown: self.shown@ }
    }
}

/// Mathematical value of a [`NotificationStack`].
pub struct StackModel {
    /// Non-deleted records, ordered by counter: `live[i].counter == i`.
    pub live: Seq<RecordView>,
    /// Deleted records still waiting for their surface to close.
    pub tombstones: Seq<RecordView>,
    /// Open slots by rank: `slots[i]` shows `live[i]`.
    pub slots: Seq<Slot>,
    pub closing: Seq<ClosingView>,
    /// The hidden queue as last computed.
    pub hidden: Seq<RecordView>,
    /// Surface of the overflow indicator, when it is open.
    pub indicator: Option<u64>,
    pub quiet: bool,
    /// Next surface identity to hand out.
    pub next_slot: u64,
    /// Next notification id to hand out; every id in the store is below it.
    pub next_id: u32,
}

/// Number of slots.
pub open spec fn cap() -> int {
    MAX_SHOWN_NOTIFICATIONS_COUNT as int
}

/// The hidden queue: every live record when quiet, otherwise those with
/// `counter >= cap()`; in ascending counter order.
pub open spec fn hidden_of(live: Seq<RecordView>, quiet: bool) -> Seq<RecordView> {
    if quiet {
        live
    } else if live.len() <= cap() {
        Seq::empty()
    } else {
        live.subrange(cap(), live.len() as int)
    }
}

/// Slots keep their surfaces and their ranks, and show the records now at
/// those ranks.
pub open spec fn rebind(slots: Seq<Slot>, live: Seq<RecordView>) -> Seq<Slot> {
    Seq::new(slots.len(), |i: int| Slot { surface: slots[i].surface, nid: live[i].unit.id })
}

/// Closing entries for `slots`, each remembering the record it showed.
pub open spec fn closing_of(slots: Seq<Slot>, live: Seq<RecordView>) -> Seq<ClosingView> {
    Seq::new(
        slots.len(),
        |i: int| ClosingView { surface: slots[i].surface, nid: slots[i].nid, shown: live[i] },
    )
}

/// Close requests for `slots`, in rank order.
pub open spec fn close_ops(slots: Seq<Slot>) -> Seq<SurfaceOp> {
    Seq::new(slots.len(), |i: int| SurfaceOp::CloseSurface { slot_id: slots[i].surface })
}

impl StackModel {
    /// Number of open slots the state calls for.
    pub open spec fn shown_count(self) -> int {
        if self.quiet {
            0
        } else if self.live.len() < cap() {
            self.live.len() as int
        } else {
            cap()
        }
    }

    /// Identities of the surfaces that are open: slots, then the indicator.
    pub open spec fn open_surfaces(self) -> Seq<u64> {
        let s = self.slots.map_values(|s: Slot| s.surface);
        match self.indicator {
            Some(i) => s.push(i),
            None => s,
        }
    }

    /// The state invariant of the stack.
    pub open spec fn wf(self) -> bool {
        &&& forall|i: int| 0 <= i < self.live.len() ==> placed(#[trigger] self.live[i], i)
        &&& forall|i: int| 0 <= i < self.tombstones.len() ==> (#[trigger] self.tombstones[i]).to_delete
        &&& distinct_ids(self.live)
        &&& distinct_ids(self.tombstones)
        &&& disjoint_ids(self.live, self.tombstones)
        &&& self.live.len() + self.tombstones.len() <= MAX_RECORDS
        &&& self.slots.len() == self.shown_count()
        &&& forall|i: int| 0 <= i < self.slots.len() ==> (#[trigger] self.slots[i]).nid == self.live[i].unit.id
        &&& self.indicator.is_some() == (!self.quiet && self.live.len() > cap())
        &&& self.hidden == hidden_of(self.live, self.quiet)
        &&& self.next_slot <= SURFACE_ID_LIMIT
        &&& forall|i: int| 0 <= i < self.open_surfaces().len() ==> #[trigger] self.open_surfaces()[i] < self.next_slot
        &&& forall|i: int| 0 <= i < self.closing.len() ==> (#[trigger] self.closing[i]).surface < self.next_slot
        &&& self.open_surfaces().no_duplicates()
        &&& forall|i: int, j: int|
            0 <= i < self.closing.len() && 0 <= j < self.closing.len() && i != j ==> (#[trigger] self.closing[i]).surface
                != (#[trigger] self.closing[j]).surface
        &&& forall|i: int, j: int|
            0 <= i < self.closing.len() && 0 <= j < self.open_surfaces().len() ==> (#[trigger] self.closing[i]).surface
                != #[trigger] self.open_surfaces()[j]
        &&& forall|t: int|
            0 <= t < self.tombstones.len() ==> held_by_closing(self.closing, (#[trigger] self.tombstones[t]).unit.id)
        &&& 1 <= self.next_id
        &&& forall|i: int| 0 <= i < self.live.len() ==> 1 <= #[trigger] self.live[i].unit.id < self.next_id
        &&& forall|i: int| 0 <= i < self.tombstones.len() ==> 1 <= #[trigger] self.tombstones[i].unit.id < self.next_id
    }

    /// Enough surface identities left to open every slot and the indicator.
    pub open spec fn surfaces_left(self) -> bool {
        self.next_slot + cap() + 1 <= SURFACE_ID_LIMIT
    }

    /// Room for one more record and for the surfaces it may need.
    pub open spec fn has_room(self) -> bool {
        &&& self.live.len() + self.tombstones.len() < MAX_RECORDS
        &&& self.surfaces_left()
        &&& self.next_id < u32::MAX
    }
}

/// Some closing entry waits to purge the tombstone of `id`.
pub open spec fn held_by_closing(closing: Seq<ClosingView>, id: u32) -> bool {
    exists|c: int| 0 <= c < closing.len() && #[trigger] closing[c].nid == id
}

/// The id a `Notify` carrying `u` answers with: `u.id` when it names a live
/// record, otherwise the next id of the store.
pub open spec fn assigned_id(m: StackModel, u: UnitView) -> u32 {
    if holds_id(m.live, u.id) {
        u.id
    } else {
        m.next_id
    }
}

/// The state after a `Notify` carrying `u`.
pub open spec fn notify_model(m: StackModel, u: UnitView) -> StackModel {
    if holds_id(m.live, u.id) {
        let j = index_of_id(m.live, u.id);
        let live = m.live.update(j, RecordView { unit: u, ..m.live[j] });
        StackModel { live, hidden: hidden_of(live, m.quiet), ..m }
    } else {
        let id = m.next_id;
        let live = seq![fresh_record(UnitView { id, ..u })] + m.live.map_values(
            |r: RecordView| shift_down(r),
        );
        let tombstones = m.tombstones;
        let next_id = (m.next_id + 1) as u32;
        let hidden = hidden_of(live, m.quiet);
        if m.quiet {
            StackModel { live, tombstones, hidden, next_id, ..m }
        } else if m.slots.len() < cap() {
            StackModel {
                live,
                tombstones,
                hidden,
                next_id,
                slots: seq![Slot { surface: m.next_slot, nid: id }] + m.slots,
                next_slot: (m.next_slot + 1) as u64,
                ..m
            }
        } else if m.indicator is None {
            StackModel {
                live,
                tombstones,
                hidden,
                next_id,
                slots: rebind(m.slots, live),
                indicator: Some(m.next_slot),
                next_slot: (m.next_slot + 1) as u64,
                ..m
            }
        } else {
            StackModel { live, tombstones, hidden, next_id, slots: rebind(m.slots, live), ..m }
        }
    }
}

/// The surface operations a `Notify` carrying `u` calls for.
pub open spec fn notify_ops(m: StackModel, u: UnitView) -> Seq<SurfaceOp> {
    if holds_id(m.live, u.id) || m.quiet {
        Seq::empty()
    } else if m.slots.len() < cap() {
        Seq::new(
            m.slots.len(),
            |i: int|
                SurfaceOp::MoveSurface {
                    slot_id: m.slots[i].surface,
                    new_offset: offset_of(i + 1) as i32,
                },
        ).push(
            SurfaceOp::OpenSurface {
                slot_id: m.next_slot,
                offset: BEGINNING_UP_MARGIN,
                content: SurfaceContent::Notification(m.next_id),
            },
        )
    } else if m.indicator is None {
        seq![
            SurfaceOp::OpenSurface {
                slot_id: m.next_slot,
                offset: EXTRAINF_MARGIN,
                content: SurfaceContent::HiddenIndicator,
            },
        ]
    } else {
        Seq::empty()
    }
}

/// Dropping the record of one id keeps the others, in order.
pub proof fn lemma_without_id(s: Seq<RecordView>, id: u32)
    requires
        distinct_ids(s),
    ensures
        !holds_id(without_id(s, id), id),
        distinct_ids(without_id(s, id)),
        without_id(s, id).len() <= s.len(),
        forall|i: int|
            0 <= i < without_id(s, id).len() ==> #[trigger] without_id(s, id)[i] == s[i] || (i + 1
                < s.len() && without_id(s, id)[i] == s[i + 1]),
{
    if holds_id(s, id) {
        let k = index_of_id(s, id);
        let w = s.remove(k);
        assert(w == without_id(s, id));
        assert forall|i: int, j: int|
            0 <= i < w.len() && 0 <= j < w.len() && i != j implies #[trigger] w[i].unit.id
                != #[trigger] w[j].unit.id by {
            let a = if i < k { i } else { i + 1 };
            let b = if j < k { j } else { j + 1 };
            assert(w[i] == s[a] && w[j] == s[b]);
        }
        if holds_id(w, id) {
            let i = index_of_id(w, id);
            let a = if i < k { i } else { i + 1 };
            assert(w[i] == s[a]);
        }
    }
}

/// Every `Notify` keeps the invariant.
pub proof fn lemma_notify_wf(m: StackModel, u: UnitView)
    requires
        m.wf(),
        m.has_room() || holds_id(m.live, u.id),
    ensures
        notify_model(m, u).wf(),
{
    let r = notify_model(m, u);
    if holds_id(m.live, u.id) {
        let j = index_of_id(m.live, u.id);
        assert forall|i: int| 0 <= i < r.live.len() implies #[trigger] r.live[i].unit.id
            == m.live[i].unit.id by {}
        assert forall|i: int| 0 <= i < r.live.len() implies placed(#[trigger] r.live[i], i) by {
            assert(placed(m.live[i], i));
        }
        assert(distinct_ids(r.live));
        assert(disjoint_ids(r.live, r.tombstones));
        assert(r.open_surfaces() == m.open_surfaces());
    } else {
        let id = m.next_id;
        assert forall|i: int| 1 <= i < r.live.len() implies #[trigger] r.live[i] == shift_down(
            m.live[i - 1],
        ) by {}
        assert forall|i: int| 0 <= i < r.live.len() implies placed(#[trigger] r.live[i], i) by {
            if i > 0 {
                assert(placed(m.live[i - 1], i - 1));
            }
        }
        assert forall|i: int| 0 <= i < r.live.len() implies 1 <= #[trigger] r.live[i].unit.id
            < r.next_id by {
            if i > 0 {
                assert(r.live[i].unit.id == m.live[i - 1].unit.id);
            }
        }
        assert forall|i: int, j: int|
            0 <= i < r.live.len() && 0 <= j < r.live.len() && i != j implies #[trigger] r.live[i].unit.id
                != #[trigger] r.live[j].unit.id by {
            if i > 0 && j > 0 {
                assert(m.live[i - 1].unit.id != m.live[j - 1].unit.id);
            } else if i == 0 {
                assert(m.live[j - 1].unit.id < id);
            } else {
                assert(m.live[i - 1].unit.id < id);
            }
        }
        assert forall|i: int, j: int|
            0 <= i < r.live.len() && 0 <= j < r.tombstones.len() implies #[trigger] r.live[i].unit.id
                != #[trigger] r.tombstones[j].unit.id by {
            if i > 0 {
                assert(m.live[i - 1].unit.id != m.tombstones[j].unit.id);
            } else {
                assert(m.tombstones[j].unit.id < id);
            }
        }
        assert forall|i: int| 0 <= i < r.tombstones.len() implies 1 <= #[trigger] r.tombstones[i].unit.id
            < r.next_id by {}
        if !m.quiet && m.slots.len() < cap() {
            assert forall|i: int| 0 <= i < r.slots.len() implies (#[trigger] r.slots[i]).nid
                == r.live[i].unit.id by {
                if i > 0 {
                    assert(r.slots[i] == m.slots[i - 1]);
                }
            }
            let os = m.slots.map_values(|s: Slot| s.surface);
            assert(r.open_surfaces() =~= seq![m.next_slot] + os);
            assert(m.open_surfaces() =~= os);
            assert forall|i: int| 0 <= i < r.open_surfaces().len() implies #[trigger] r.open_surfaces()[i]
                < r.next_slot by {
                if i > 0 {
                    assert(r.open_surfaces()[i] == m.open_surfaces()[i - 1]);
                }
            }
            assert forall|i: int, j: int|
                0 <= i < r.open_surfaces().len() && 0 <= j < r.open_surfaces().len() && i != j implies
                r.open_surfaces()[i] != r.open_surfaces()[j] by {
                if i > 0 {
                    assert(r.open_surfaces()[i] == m.open_surfaces()[i - 1]);
                }
                if j > 0 {
                    assert(r.open_surfaces()[j] == m.open_surfaces()[j - 1]);
                }
            }
            assert forall|i: int, j: int|
                0 <= i < r.closing.len() && 0 <= j < r.open_surfaces().len() implies (#[trigger] r.closing[i]).surface
                    != #[trigger] r.open_surfaces()[j] by {
                if j > 0 {
                    assert(r.open_surfaces()[j] == m.open_surfaces()[j - 1]);
                }
            }
        } else if !m.quiet {
            let os = m.slots.map_values(|s: Slot| s.surface);
            assert(r.slots.map_values(|s: Slot| s.surface) =~= os);
            if m.indicator is None {
                assert(r.open_surfaces() =~= m.open_surfaces().push(m.next_slot));
                assert forall|i: int, j: int|
                    0 <= i < r.closing.len() && 0 <= j < r.open_surfaces().len() implies (#[trigger] r.closing[i]).surface
                        != #[trigger] r.open_surfaces()[j] by {
                    if j < m.open_surfaces().len() {
                        assert(r.open_surfaces()[j] == m.open_surfaces()[j]);
                    }
                }
            } else {
                assert(r.open_surfaces() =~= m.open_surfaces());
            }
        } else {
            assert(r.open_surfaces() =~= m.open_surfaces());
        }
    }
}

/// The live records once the one at `k` is gone and those below it moved up.
pub open spec fn close_gap(live: Seq<RecordView>, k: int) -> Seq<RecordView> {
    live.subrange(0, k) + live.subrange(k + 1, live.len() as int).map_values(
        |r: RecordView| shift_up(r),
    )
}

/// The state after the notification `id` is removed, by whatever cause.
pub open spec fn remove_model(m: StackModel, id: u32) -> StackModel {
    if !holds_id(m.live, id) {
        m
    } else {
        let k = index_of_id(m.live, id);
        let live = close_gap(m.live, k);
        let hidden = hidden_of(live, m.quiet);
        if m.quiet {
            StackModel { live, hidden, ..m }
        } else if m.live.len() > cap() {
            StackModel {
                live,
                hidden,
                slots: rebind(m.slots, live),
                indicator: if live.len() > cap() {
                    m.indicator
                } else {
                    None
                },
                ..m
            }
        } else {
            let last = m.slots.len() - 1;
            StackModel {
                live,
                hidden,
                tombstones: m.tombstones.push(RecordView { to_delete: true, ..m.live[k] }),
                slots: rebind(m.slots.subrange(0, last), live),
                closing: m.closing.push(
                    ClosingView { surface: m.slots[last].surface, nid: id, shown: m.live[last] },
                ),
                ..m
            }
        }
    }
}

/// The surface operations removing the notification `id` calls for.
pub open spec fn remove_ops(m: StackModel, id: u32) -> Seq<SurfaceOp> {
    if !holds_id(m.live, id) || m.quiet {
        Seq::empty()
    } else if m.live.len() > cap() {
        match m.indicator {
            Some(i) => if m.live.len() == cap() + 1 {
                seq![SurfaceOp::CloseSurface { slot_id: i }]
            } else {
                Seq::empty()
            },
            None => Seq::empty(),
        }
    } else {
        seq![SurfaceOp::CloseSurface { slot_id: m.slots[m.slots.len() - 1].surface }]
    }
}

/// Every removal keeps the invariant.
pub proof fn lemma_remove_wf(m: StackModel, id: u32)
    requires
        m.wf(),
    ensures
        remove_model(m, id).wf(),
{
    if holds_id(m.live, id) {
        let k = index_of_id(m.live, id);
        let r = remove_model(m, id);
        let live = close_gap(m.live, k);
        assert forall|i: int| 0 <= i < live.len() implies #[trigger] live[i] == (if i < k {
            m.live[i]
        } else {
            shift_up(m.live[i + 1])
        }) by {}
        assert forall|i: int| 0 <= i < r.live.len() implies placed(#[trigger] r.live[i], i) by {
            if i < k {
                assert(placed(m.live[i], i));
            } else {
                assert(placed(m.live[i + 1], i + 1));
            }
        }
        assert forall|i: int| 0 <= i < r.live.len() implies 1 <= #[trigger] r.live[i].unit.id
            < r.next_id by {
            if i < k {
                assert(r.live[i].unit.id == m.live[i].unit.id);
            } else {
                assert(r.live[i].unit.id == m.live[i + 1].unit.id);
            }
        }
        assert forall|i: int| 0 <= i < r.live.len() implies #[trigger] r.live[i].unit.id != id by {
            if i < k {
                assert(m.live[i].unit.id != m.live[k].unit.id);
            } else {
                assert(m.live[i + 1].unit.id != m.live[k].unit.id);
            }
        }
        assert forall|i: int, j: int|
            0 <= i < r.live.len() && 0 <= j < r.live.len() && i != j implies #[trigger] r.live[i].unit.id
                != #[trigger] r.live[j].unit.id by {
            let a = if i < k { i } else { i + 1 };
            let b = if j < k { j } else { j + 1 };
            assert(m.live[a].unit.id != m.live[b].unit.id);
        }
        assert forall|i: int, j: int|
            0 <= i < r.live.len() && 0 <= j < m.tombstones.len() implies #[trigger] r.live[i].unit.id
                != #[trigger] m.tombstones[j].unit.id by {
            let a = if i < k { i } else { i + 1 };
            assert(m.live[a].unit.id != m.tombstones[j].unit.id);
        }
        if m.quiet {
            assert(r.open_surfaces() =~= m.open_surfaces());
        } else if m.live.len() > cap() {
            let os = m.slots.map_values(|s: Slot| s.surface);
            assert(r.slots.map_values(|s: Slot| s.surface) =~= os);
            if live.len() > cap() {
                assert(r.open_surfaces() =~= m.open_surfaces());
            } else {
                assert(r.open_surfaces() =~= os);
                assert(m.open_surfaces() =~= os.push(m.indicator.unwrap()));
                assert forall|i: int| 0 <= i < os.len() implies #[trigger] os[i] < m.next_slot by {
                    assert(m.open_surfaces()[i] == os[i]);
                }
                assert forall|i: int, j: int|
                    0 <= i < os.len() && 0 <= j < os.len() && i != j implies os[i] != os[j] by {
                    assert(m.open_surfaces()[i] == os[i]);
                    assert(m.open_surfaces()[j] == os[j]);
                }
                assert forall|i: int, j: int|
                    0 <= i < r.closing.len() && 0 <= j < r.open_surfaces().len() implies (#[trigger] r.closing[i]).surface
                        != #[trigger] r.open_surfaces()[j] by {
                    assert(m.open_surfaces()[j] == os[j]);
                }
            }
        } else {
            let last = m.slots.len() - 1;
            let os = m.slots.map_values(|s: Slot| s.surface);
            assert(m.open_surfaces() =~= os);
            assert(r.open_surfaces() =~= os.subrange(0, last));
            assert forall|i: int, j: int|
                0 <= i < r.live.len() && 0 <= j < r.tombstones.len() implies #[trigger] r.live[i].unit.id
                    != #[trigger] r.tombstones[j].unit.id by {
                if j < m.tombstones.len() {
                    assert(r.tombstones[j] == m.tombstones[j]);
                }
            }
            assert forall|i: int, j: int|
                0 <= i < r.tombstones.len() && 0 <= j < r.tombstones.len() && i != j implies #[trigger] r.tombstones[i].unit.id
                    != #[trigger] r.tombstones[j].unit.id by {
                if i < m.tombstones.len() && j < m.tombstones.len() {
                } else if i < m.tombstones.len() {
                    assert(m.live[k].unit.id != m.tombstones[i].unit.id);
                } else {
                    assert(m.live[k].unit.id != m.tombstones[j].unit.id);
                }
            }
            assert(os[last] == m.slots[last].surface);
            assert(m.open_surfaces()[last] < m.next_slot);
            let gone = m.slots[last].surface;
            assert forall|i: int, j: int|
                0 <= i < r.closing.len() && 0 <= j < r.closing.len() && i != j implies (#[trigger] r.closing[i]).surface
                    != (#[trigger] r.closing[j]).surface by {
                if i == m.closing.len() {
                    assert(m.closing[j].surface != m.open_surfaces()[last]);
                } else if j == m.closing.len() {
                    assert(m.closing[i].surface != m.open_surfaces()[last]);
                }
            }
            assert forall|i: int, j: int|
                0 <= i < r.closing.len() && 0 <= j < r.open_surfaces().len() implies (#[trigger] r.closing[i]).surface
                    != #[trigger] r.open_surfaces()[j] by {
                assert(r.open_surfaces()[j] == m.open_surfaces()[j]);
                if i == m.closing.len() {
                    assert(m.open_surfaces()[last] != m.open_surfaces()[j]);
                } else {
                    assert(m.closing[i].surface != m.open_surfaces()[j]);
                }
            }
            assert forall|t: int| 0 <= t < r.tombstones.len() implies held_by_closing(
                r.closing,
                (#[trigger] r.tombstones[t]).unit.id,
            ) by {
                if t == m.tombstones.len() {
                    assert(r.closing[m.closing.len() as int].nid == r.tombstones[t].unit.id);
                } else {
                    assert(held_by_closing(m.closing, m.tombstones[t].unit.id));
                    let c = choose|c: int| 0 <= c < m.closing.len() && #[trigger] m.closing[c].nid
                        == m.tombstones[t].unit.id;
                    assert(r.closing[c] == m.closing[c]);
                }
            }
            assert forall|i: int| 0 <= i < r.tombstones.len() implies 1 <= #[trigger] r.tombstones[i].unit.id
                < r.next_id by {
                if i < m.tombstones.len() {
                    assert(r.tombstones[i] == m.tombstones[i]);
                }
            }
        }
    }
}

/// Close requests for every open surface: slots in rank order, then the
/// indicator.
pub open spec fn close_all_ops(m: StackModel) -> Seq<SurfaceOp> {
    close_ops(m.slots) + match m.indicator {
        Some(i) => seq![SurfaceOp::CloseSurface { slot_id: i }],
        None => Seq::empty(),
    }
}

/// Number of slots the live records fill outside quiet mode.
pub open spec fn fill_count(m: StackModel) -> int {
    if m.live.len() < cap() {
        m.live.len() as int
    } else {
        cap()
    }
}

/// Slots opened afresh for the records at the top of the stack.
pub open spec fn reopened_slots(m: StackModel) -> Seq<Slot> {
    Seq::new(
        fill_count(m) as nat,
        |i: int| Slot { surface: (m.next_slot + i) as u64, nid: m.live[i].unit.id },
    )
}

/// The state after quiet mode is set to `quiet`.
pub open spec fn quiet_model(m: StackModel, quiet: bool) -> StackModel {
    if quiet == m.quiet {
        m
    } else if quiet {
        StackModel {
            slots: Seq::empty(),
            closing: m.closing + closing_of(m.slots, m.live),
            indicator: None,
            quiet: true,
            hidden: hidden_of(m.live, true),
            ..m
        }
    } else {
        let n = fill_count(m);
        let more = m.live.len() > cap();
        StackModel {
            slots: reopened_slots(m),
            indicator: if more {
                Some((m.next_slot + n) as u64)
            } else {
                None
            },
            quiet: false,
            hidden: hidden_of(m.live, false),
            next_slot: (m.next_slot + n + if more {
                1int
            } else {
                0int
            }) as u64,
            ..m
        }
    }
}

/// The surface operations setting quiet mode to `quiet` calls for.
pub open spec fn quiet_ops(m: StackModel, quiet: bool) -> Seq<SurfaceOp> {
    if quiet == m.quiet {
        Seq::empty()
    } else if quiet {
        close_all_ops(m)
    } else {
        let n = fill_count(m);
        Seq::new(
            n as nat,
            |i: int|
                SurfaceOp::OpenSurface {
                    slot_id: (m.next_slot + i) as u64,
                    offset: offset_of(i) as i32,
                    content: SurfaceContent::Notification(m.live[i].unit.id),
                },
        ) + if m.live.len() > cap() {
            seq![
                SurfaceOp::OpenSurface {
                    slot_id: (m.next_slot + n) as u64,
                    offset: EXTRAINF_MARGIN,
                    content: SurfaceContent::HiddenIndicator,
                },
            ]
        } else {
            Seq::empty()
        }
    }
}

/// The state after every notification is cleared.
pub open spec fn clear_model(m: StackModel) -> StackModel {
    StackModel {
        live: Seq::empty(),
        tombstones: Seq::empty(),
        slots: Seq::empty(),
        closing: m.closing + closing_of(m.slots, m.live),
        hidden: Seq::empty(),
        indicator: None,
        ..m
    }
}

/// Some surface waiting to close has identity `s`.
pub open spec fn has_closing(m: StackModel, s: u64) -> bool {
    exists|c: int| 0 <= c < m.closing.len() && #[trigger] m.closing[c].surface == s
}

/// The first closing entry for surface `s`.
pub open spec fn closing_index(m: StackModel, s: u64) -> int {
    choose|c: int|
        0 <= c < m.closing.len() && #[trigger] m.closing[c].surface == s && forall|d: int|
            0 <= d < c ==> #[trigger] m.closing[d].surface != s
}

/// The state once the presentation layer reports surface `s` gone. A
/// closing surface drops its entry and the tombstone it held is purged. An
/// open slot or the indicator leaves the table and is replaced, at the same
/// rank, by a surface opened afresh. Other reports change nothing.
pub open spec fn surface_closed_model(m: StackModel, s: u64) -> StackModel {
    if has_closing(m, s) {
        let c = closing_index(m, s);
        StackModel {
            closing: m.closing.remove(c),
            tombstones: without_id(m.tombstones, m.closing[c].nid),
            ..m
        }
    } else if has_slot(m, s) {
        let i = slot_index(m, s);
        StackModel {
            slots: m.slots.update(i, Slot { surface: m.next_slot, nid: m.slots[i].nid }),
            next_slot: (m.next_slot + 1) as u64,
            ..m
        }
    } else if m.indicator == Some(s) {
        StackModel { indicator: Some(m.next_slot), next_slot: (m.next_slot + 1) as u64, ..m }
    } else {
        m
    }
}

/// The surface operations a report that surface `s` is gone calls for.
pub open spec fn surface_closed_ops(m: StackModel, s: u64) -> Seq<SurfaceOp> {
    if has_closing(m, s) {
        Seq::empty()
    } else if has_slot(m, s) {
        let i = slot_index(m, s);
        seq![
            SurfaceOp::OpenSurface {
                slot_id: m.next_slot,
                offset: offset_of(i) as i32,
                content: SurfaceContent::Notification(m.slots[i].nid),
            },
        ]
    } else if m.indicator == Some(s) {
        seq![
            SurfaceOp::OpenSurface {
                slot_id: m.next_slot,
                offset: EXTRAINF_MARGIN,
                content: SurfaceContent::HiddenIndicator,
            },
        ]
    } else {
        Seq::empty()
    }
}

/// Some open slot has surface `s`.
pub open spec fn has_slot(m: StackModel, s: u64) -> bool {
    exists|i: int| 0 <= i < m.slots.len() && #[trigger] m.slots[i].surface == s
}

/// The rank of the open slot with surface `s`.
pub open spec fn slot_index(m: StackModel, s: u64) -> int {
    choose|i: int| 0 <= i < m.slots.len() && #[trigger] m.slots[i].surface == s
}

/// The state after the reply typed on surface `s` becomes `text`.
pub open spec fn reply_text_model(m: StackModel, s: u64, text: Seq<char>) -> StackModel {
    if has_slot(m, s) {
        let i = slot_index(m, s);
        let live = m.live.update(i, RecordView { inline_reply: text, ..m.live[i] });
        StackModel { live, hidden: hidden_of(live, m.quiet), ..m }
    } else {
        m
    }
}

/// When some entry closes surface `s`, `closing_index` names the first.
pub proof fn lemma_closing_index(m: StackModel, s: u64, c: int)
    requires
        0 <= c < m.closing.len(),
        m.closing[c].surface == s,
    ensures
        0 <= closing_index(m, s) <= c,
        m.closing[closing_index(m, s)].surface == s,
        forall|d: int| 0 <= d < closing_index(m, s) ==> #[trigger] m.closing[d].surface != s,
    decreases c,
{
    if exists|d: int| 0 <= d < c && #[trigger] m.closing[d].surface == s {
        let d = choose|d: int| 0 <= d < c && #[trigger] m.closing[d].surface == s;
        lemma_closing_index(m, s, d);
    } else {
        assert(forall|d: int| 0 <= d < c ==> #[trigger] m.closing[d].surface != s);
        let f = closing_index(m, s);
        assert(0 <= f < m.closing.len() && m.closing[f].surface == s);
        if f > c {
            assert(m.closing[c].surface != s);
        }
    }
}

/// Moving every open slot to the closing entries keeps their surfaces
/// distinct and fresh, and every tombstone still held.
pub proof fn lemma_close_all_closing(m: StackModel)
    requires
        m.wf(),
    ensures
        ({
            let c2 = m.closing + closing_of(m.slots, m.live);
            &&& forall|i: int| 0 <= i < c2.len() ==> (#[trigger] c2[i]).surface < m.next_slot
            &&& forall|i: int, j: int|
                0 <= i < c2.len() && 0 <= j < c2.len() && i != j ==> (#[trigger] c2[i]).surface
                    != (#[trigger] c2[j]).surface
            &&& forall|t: int|
                0 <= t < m.tombstones.len() ==> held_by_closing(c2, (#[trigger] m.tombstones[t]).unit.id)
        }),
{
    let c2 = m.closing + closing_of(m.slots, m.live);
    let n = m.closing.len() as int;
    assert forall|i: int| n <= i < c2.len() implies (#[trigger] c2[i]).surface == m.open_surfaces()[i - n] by {
        assert(c2[i].surface == m.slots[i - n].surface);
    }
    assert forall|i: int| 0 <= i < c2.len() implies (#[trigger] c2[i]).surface < m.next_slot by {
        if i >= n {
            assert(c2[i].surface == m.open_surfaces()[i - n]);
        }
    }
    assert forall|i: int, j: int|
        0 <= i < c2.len() && 0 <= j < c2.len() && i != j implies (#[trigger] c2[i]).surface
            != (#[trigger] c2[j]).surface by {
        if i >= n && j >= n {
            assert(c2[i].surface == m.open_surfaces()[i - n]);
            assert(c2[j].surface == m.open_surfaces()[j - n]);
        } else if i >= n {
            assert(c2[i].surface == m.open_surfaces()[i - n]);
            assert(m.closing[j].surface != m.open_surfaces()[i - n]);
        } else if j >= n {
            assert(c2[j].surface == m.open_surfaces()[j - n]);
            assert(m.closing[i].surface != m.open_surfaces()[j - n]);
        } else {
            assert(c2[i] == m.closing[i] && c2[j] == m.closing[j]);
        }
    }
    assert forall|t: int| 0 <= t < m.tombstones.len() implies held_by_closing(
        c2,
        (#[trigger] m.tombstones[t]).unit.id,
    ) by {
        assert(held_by_closing(m.closing, m.tombstones[t].unit.id));
        let c = choose|c: int| 0 <= c < m.closing.len() && #[trigger] m.closing[c].nid
            == m.tombstones[t].unit.id;
        assert(c2[c] == m.closing[c]);
    }
}

/// Turning quiet mode on or off keeps the invariant.
pub proof fn lemma_quiet_wf(m: StackModel, quiet: bool)
    requires
        m.wf(),
        m.surfaces_left(),
    ensures
        quiet_model(m, quiet).wf(),
{
    let r = quiet_model(m, quiet);
    if quiet != m.quiet {
        if quiet {
            assert(r.open_surfaces() =~= Seq::<u64>::empty());
            lemma_close_all_closing(m);
        } else {
            let n = fill_count(m);
            let os = r.slots.map_values(|s: Slot| s.surface);
            assert forall|i: int| 0 <= i < os.len() implies #[trigger] os[i] == m.next_slot + i by {}
            if m.live.len() > cap() {
                assert(r.open_surfaces() =~= os.push((m.next_slot + n) as u64));
            } else {
                assert(r.open_surfaces() =~= os);
            }
            assert forall|i: int| 0 <= i < r.open_surfaces().len() implies #[trigger] r.open_surfaces()[i]
                == m.next_slot + i by {}
            assert forall|i: int, j: int|
                0 <= i < r.closing.len() && 0 <= j < r.open_surfaces().len() implies (#[trigger] r.closing[i]).surface
                    != #[trigger] r.open_surfaces()[j] by {}
        }
    }
}

/// Clearing every notification keeps the invariant.
pub proof fn lemma_clear_wf(m: StackModel)
    requires
        m.wf(),
    ensures
        clear_model(m).wf(),
{
    let r = clear_model(m);
    assert(r.open_surfaces() =~= Seq::<u64>::empty());
    assert(r.hidden =~= hidden_of(r.live, r.quiet));
    lemma_close_all_closing(m);
}

/// A closed surface report keeps the invariant.
pub proof fn lemma_surface_closed_wf(m: StackModel, s: u64)
    requires
        m.wf(),
        m.surfaces_left(),
    ensures
        surface_closed_model(m, s).wf(),
{
    let r = surface_closed_model(m, s);
    if has_closing(m, s) {
        let c0 = choose|c: int| 0 <= c < m.closing.len() && #[trigger] m.closing[c].surface == s;
        lemma_closing_index(m, s, c0);
        let c = closing_index(m, s);
        let nid = m.closing[c].nid;
        lemma_without_id(m.tombstones, nid);
        assert forall|i: int| 0 <= i < r.closing.len() implies #[trigger] r.closing[i] == m.closing[if i < c {
            i
        } else {
            i + 1
        }] by {}
        assert forall|i: int| 0 <= i < r.closing.len() implies (#[trigger] r.closing[i]).surface
            < r.next_slot by {
            if i >= c {
                assert(r.closing[i] == m.closing[i + 1]);
            }
        }
        assert forall|i: int, j: int|
            0 <= i < r.closing.len() && 0 <= j < r.closing.len() && i != j implies (#[trigger] r.closing[i]).surface
                != (#[trigger] r.closing[j]).surface by {
            let a = if i < c { i } else { i + 1 };
            let b = if j < c { j } else { j + 1 };
            assert(m.closing[a].surface != m.closing[b].surface);
        }
        assert forall|i: int, j: int|
            0 <= i < r.closing.len() && 0 <= j < r.open_surfaces().len() implies (#[trigger] r.closing[i]).surface
                != #[trigger] r.open_surfaces()[j] by {
            let a = if i < c { i } else { i + 1 };
            assert(m.closing[a].surface != m.open_surfaces()[j]);
        }
        assert forall|i: int| 0 <= i < r.tombstones.len() implies (#[trigger] r.tombstones[i]).to_delete by {
            if r.tombstones[i] != m.tombstones[i] {
                assert(m.tombstones[i + 1].to_delete);
            }
        }
        assert forall|i: int| 0 <= i < r.tombstones.len() implies 1 <= #[trigger] r.tombstones[i].unit.id
            < r.next_id by {
            if r.tombstones[i] != m.tombstones[i] {
                assert(m.tombstones[i + 1].unit.id < m.next_id);
            }
        }
        assert forall|i: int, j: int|
            0 <= i < r.live.len() && 0 <= j < r.tombstones.len() implies #[trigger] r.live[i].unit.id
                != #[trigger] r.tombstones[j].unit.id by {
            if r.tombstones[j] == m.tombstones[j] {
                assert(m.live[i].unit.id != m.tombstones[j].unit.id);
            } else {
                assert(m.live[i].unit.id != m.tombstones[j + 1].unit.id);
            }
        }
        assert forall|t: int| 0 <= t < r.tombstones.len() implies held_by_closing(
            r.closing,
            (#[trigger] r.tombstones[t]).unit.id,
        ) by {
            let id = r.tombstones[t].unit.id;
            let k = if r.tombstones[t] == m.tombstones[t] { t } else { t + 1 };
            assert(m.tombstones[k].unit.id == id);
            assert(held_by_closing(m.closing, m.tombstones[k].unit.id));
            let d = choose|d: int| 0 <= d < m.closing.len() && #[trigger] m.closing[d].nid == id;
            if id == nid {
                assert(r.tombstones[t].unit.id == nid);
                assert(holds_id(without_id(m.tombstones, nid), nid));
            }
            assert(d != c);
            let e = if d < c { d } else { d - 1 };
            assert(r.closing[e] == m.closing[d]);
        }
        assert(r.open_surfaces() == m.open_surfaces());
    } else if has_slot(m, s) {
        let i = slot_index(m, s);
        let os = m.slots.map_values(|x: Slot| x.surface);
        let os2 = r.slots.map_values(|x: Slot| x.surface);
        assert(os2 =~= os.update(i, m.next_slot));
        assert forall|j: int| 0 <= j < r.open_surfaces().len() implies #[trigger] r.open_surfaces()[j]
            == if j == i { m.next_slot } else { m.open_surfaces()[j] } by {
            if j < os.len() {
                assert(m.open_surfaces()[j] == os[j]);
            }
        }
        assert(r.open_surfaces().len() == m.open_surfaces().len());
        assert forall|j: int| 0 <= j < r.slots.len() implies (#[trigger] r.slots[j]).nid
            == r.live[j].unit.id by {
            assert(m.slots[j].nid == m.live[j].unit.id);
        }
        assert forall|a: int, b: int|
            0 <= a < r.open_surfaces().len() && 0 <= b < r.open_surfaces().len() && a != b implies
            r.open_surfaces()[a] != r.open_surfaces()[b] by {
            if a != i && b != i {
                assert(m.open_surfaces()[a] != m.open_surfaces()[b]);
            } else if a == i {
                assert(m.open_surfaces()[b] < m.next_slot);
            } else {
                assert(m.open_surfaces()[a] < m.next_slot);
            }
        }
        assert forall|a: int, b: int|
            0 <= a < r.closing.len() && 0 <= b < r.open_surfaces().len() implies (#[trigger] r.closing[a]).surface
                != #[trigger] r.open_surfaces()[b] by {
            if b != i {
                assert(m.closing[a].surface != m.open_surfaces()[b]);
            }
        }
        assert forall|j: int| 0 <= j < r.open_surfaces().len() implies #[trigger] r.open_surfaces()[j]
            < r.next_slot by {
            if j != i {
                assert(m.open_surfaces()[j] < m.next_slot);
            }
        }
    } else if m.indicator == Some(s) {
        let os = m.slots.map_values(|x: Slot| x.surface);
        assert(m.open_surfaces() =~= os.push(s));
        assert(r.open_surfaces() =~= os.push(m.next_slot));
        let last = os.len() as int;
        assert forall|a: int, b: int|
            0 <= a < r.open_surfaces().len() && 0 <= b < r.open_surfaces().len() && a != b implies
            r.open_surfaces()[a] != r.open_surfaces()[b] by {
            if a != last && b != last {
                assert(m.open_surfaces()[a] != m.open_surfaces()[b]);
            } else if a == last {
                assert(m.open_surfaces()[b] < m.next_slot);
            } else {
                assert(m.open_surfaces()[a] < m.next_slot);
            }
        }
        assert forall|a: int, b: int|
            0 <= a < r.closing.len() && 0 <= b < r.open_surfaces().len() implies (#[trigger] r.closing[a]).surface
                != #[trigger] r.open_surfaces()[b] by {
            if b != last {
                assert(m.closing[a].surface != m.open_surfaces()[b]);
            }
        }
        assert forall|j: int| 0 <= j < r.open_surfaces().len() implies #[trigger] r.open_surfaces()[j]
            < r.next_slot by {
            if j != last {
                assert(m.open_surfaces()[j] < m.next_slot);
            }
        }
    }
}

/// After a report that surface `s` is gone, no slot, indicator or closing
/// entry has that surface.
pub proof fn lemma_surface_gone(m: StackModel, s: u64)
    requires
        m.wf(),
        m.surfaces_left(),
    ensures
        ({
            let r = surface_closed_model(m, s);
            &&& forall|i: int| 0 <= i < r.slots.len() ==> (#[trigger] r.slots[i]).surface != s
            &&& r.indicator != Some(s)
            &&& forall|c: int| 0 <= c < r.closing.len() ==> (#[trigger] r.closing[c]).surface != s
        }),
{
    let r = surface_closed_model(m, s);
    let os = m.slots.map_values(|x: Slot| x.surface);
    assert forall|i: int| 0 <= i < m.slots.len() implies #[trigger] m.open_surfaces()[i]
        == m.slots[i].surface by {}
    if let Some(ind) = m.indicator {
        assert(m.open_surfaces()[m.slots.len() as int] == ind);
    }
    if has_closing(m, s) {
        let c0 = choose|c: int| 0 <= c < m.closing.len() && #[trigger] m.closing[c].surface == s;
        lemma_closing_index(m, s, c0);
        let c = closing_index(m, s);
        assert forall|i: int| 0 <= i < r.slots.len() implies (#[trigger] r.slots[i]).surface != s by {
            assert(m.closing[c].surface != m.open_surfaces()[i]);
        }
        if let Some(ind) = m.indicator {
            assert(m.closing[c].surface != m.open_surfaces()[m.slots.len() as int]);
        }
        assert forall|d: int| 0 <= d < r.closing.len() implies (#[trigger] r.closing[d]).surface != s by {
            let e = if d < c { d } else { d + 1 };
            assert(r.closing[d] == m.closing[e]);
            assert(m.closing[e].surface != m.closing[c].surface);
        }
    } else if has_slot(m, s) {
        let k = slot_index(m, s);
        assert(m.open_surfaces()[k] == s);
        assert forall|i: int| 0 <= i < r.slots.len() implies (#[trigger] r.slots[i]).surface != s by {
            if i != k {
                assert(m.open_surfaces()[i] != m.open_surfaces()[k]);
            } else {
                assert(m.open_surfaces()[k] < m.next_slot);
            }
        }
        if let Some(ind) = m.indicator {
            assert(m.open_surfaces()[m.slots.len() as int] != m.open_surfaces()[k]);
        }
        assert forall|d: int| 0 <= d < r.closing.len() implies (#[trigger] r.closing[d]).surface != s by {
            assert(m.closing[d].surface != m.open_surfaces()[k]);
        }
    } else if m.indicator == Some(s) {
        let last = m.slots.len() as int;
        assert(m.open_surfaces()[last] < m.next_slot);
        assert forall|d: int| 0 <= d < r.closing.len() implies (#[trigger] r.closing[d]).surface != s by {
            assert(m.closing[d].surface != m.open_surfaces()[last]);
        }
    } else {
        assert forall|d: int| 0 <= d < r.closing.len() implies (#[trigger] r.closing[d]).surface != s by {
            if m.closing[d].surface == s {
                assert(has_closing(m, s));
            }
        }
        assert forall|i: int| 0 <= i < r.slots.len() implies (#[trigger] r.slots[i]).surface != s by {
            if m.slots[i].surface == s {
                assert(has_slot(m, s));
            }
        }
    }
}

/// Editing a reply keeps the invariant.
pub proof fn lemma_reply_text_wf(m: StackModel, s: u64, text: Seq<char>)
    requires
        m.wf(),
    ensures
        reply_text_model(m, s, text).wf(),
{
    if has_slot(m, s) {
        let r = reply_text_model(m, s, text);
        let i = slot_index(m, s);
        assert forall|j: int| 0 <= j < r.live.len() implies #[trigger] r.live[j].unit.id
            == m.live[j].unit.id by {}
        assert forall|j: int| 0 <= j < r.live.len() implies placed(#[trigger] r.live[j], j) by {
            assert(placed(m.live[j], j));
        }
        assert(distinct_ids(r.live));
        assert(disjoint_ids(r.live, r.tombstones));
        assert(r.open_surfaces() == m.open_surfaces());
    }
}

/// Moves every record of `v` one position down the stack.
fn shift_all_down(v: &mut Vec<NotifyUnitWidgetInfo>)
    requires
        old(v)@.len() < MAX_RECORDS,
        forall|i: int| 0 <= i < old(v)@.len() ==> placed(#[trigger] records_view(old(v)@)[i], i),
    ensures
        records_view(final(v)@) == records_view(old(v)@).map_values(|r: RecordView| shift_down(r)),
{
    let ghost v0 = records_view(v@);
    let n = v.len();
    let mut i: usize = 0;
    while i < n
        invariant
            n == v@.len(),
            i <= n,
            n < MAX_RECORDS,
            v0.len() == n,
            forall|j: int| 0 <= j < n ==> placed(#[trigger] v0[j], j),
            forall|j: int| 0 <= j < i ==> #[trigger] records_view(v@)[j] == shift_down(v0[j]),
            forall|j: int| i <= j < n ==> #[trigger] records_view(v@)[j] == v0[j],
        decreases n - i,
    {
        proof {
            assert(placed(v0[i as int], i as int));
            assert(records_view(v@)[i as int] == v0[i as int]);
        }
        let ghost pre = v@;
        v[i].counter = v[i].counter + 1;
        v[i].upper = v[i].upper + UNIT_MARGIN;
        proof {
            assert(records_view(v@) =~= records_view(pre).update(i as int, shift_down(v0[i as int])));
        }
        i += 1;
    }
    assert(records_view(v@) =~= v0.map_values(|r: RecordView| shift_down(r)));
}

/// Moves every record of `v` from position `k` on one position up the stack.
fn shift_up_from(v: &mut Vec<NotifyUnitWidgetInfo>, k: usize)
    requires
        k <= old(v)@.len() <= MAX_RECORDS,
        forall|i: int| k <= i < old(v)@.len() ==> placed(#[trigger] records_view(old(v)@)[i], i + 1),
    ensures
        records_view(final(v)@) == records_view(old(v)@).subrange(0, k as int) + records_view(
            old(v)@,
        ).subrange(k as int, old(v)@.len() as int).map_values(|r: RecordView| shift_up(r)),
{
    let ghost v0 = records_view(v@);
    let n = v.len();
    let mut i: usize = k;
    while i < n
        invariant
            n == v@.len(),
            k <= i <= n,
            n <= MAX_RECORDS,
            v0.len() == n,
            forall|j: int| k <= j < n ==> placed(#[trigger] v0[j], j + 1),
            forall|j: int| 0 <= j < k ==> #[trigger] records_view(v@)[j] == v0[j],
            forall|j: int| k <= j < i ==> #[trigger] records_view(v@)[j] == shift_up(v0[j]),
            forall|j: int| i <= j < n ==> #[trigger] records_view(v@)[j] == v0[j],
        decreases n - i,
    {
        proof {
            assert(placed(v0[i as int], i + 1));
            assert(records_view(v@)[i as int] == v0[i as int]);
        }
        let ghost pre = v@;
        v[i].counter = v[i].counter - 1;
        v[i].upper = v[i].upper - UNIT_MARGIN;
        proof {
            assert(records_view(v@) =~= records_view(pre).update(i as int, shift_up(v0[i as int])));
        }
        i += 1;
    }
    assert(records_view(v@) =~= v0.subrange(0, k as int) + v0.subrange(k as int, n as int).map_values(
        |r: RecordView| shift_up(r),
    ));
}

/// Binds each slot to the record at its rank.
fn rebind_slots(slots: &mut Vec<Slot>, live: &Vec<NotifyUnitWidgetInfo>)
    requires
        old(slots)@.len() <= live@.len(),
    ensures
        final(slots)@ == rebind(old(slots)@, records_view(live@)),
{
    let ghost s0 = slots@;
    let n = slots.len();
    let mut i: usize = 0;
    while i < n
        invariant
            n == slots@.len(),
            s0.len() == n,
            n <= live@.len(),
            i <= n,
            forall|j: int| 0 <= j < i ==> #[trigger] slots@[j] == (Slot { surface: s0[j].surface, nid: live@[j].unit.id }),
            forall|j: int| i <= j < n ==> #[trigger] slots@[j] == s0[j],
        decreases n - i,
    {
        slots[i].nid = live[i].unit.id;
        i += 1;
    }
    assert(slots@ =~= rebind(s0, records_view(live@)));
}

/// Requests moving each slot one rank down.
fn move_ops(slots: &Vec<Slot>) -> (ops: Vec<SurfaceOp>)
    requires
        slots@.len() < cap(),
    ensures
        ops@ == Seq::new(
            slots@.len(),
            |i: int|
                SurfaceOp::MoveSurface {
                    slot_id: slots@[i].surface,
                    new_offset: offset_of(i + 1) as i32,
                },
        ),
{
    let mut ops: Vec<SurfaceOp> = Vec::new();
    let mut i: usize = 0;
    while i < slots.len()
        invariant
            i <= slots@.len() < cap(),
            ops@ == Seq::new(
                i as nat,
                |j: int|
                    SurfaceOp::MoveSurface {
                        slot_id: slots@[j].surface,
                        new_offset: offset_of(j + 1) as i32,
                    },
            ),
        decreases slots@.len() - i,
    {
        let off = offset_for(i + 1);
        ops.push(SurfaceOp::MoveSurface { slot_id: slots[i].surface, new_offset: off });
        i += 1;
        proof {
            assert(ops@ =~= Seq::new(
                i as nat,
                |j: int|
                    SurfaceOp::MoveSurface {
                        slot_id: slots@[j].surface,
                        new_offset: offset_of(j + 1) as i32,
                    },
            ));
        }
    }
    ops
}

/// The notification store together with the allocator of visible slots.
pub struct NotificationStack {
    live: Vec<NotifyUnitWidgetInfo>,
    tombstones: Vec<NotifyUnitWidgetInfo>,
    slots: Vec<Slot>,
    closing: Vec<ClosingSurface>,
    hidden: Vec<NotifyUnitWidgetInfo>,
    indicator: Option<u64>,
    quiet: bool,
    next_slot: u64,
    next_id: u32,
}

impl View for NotificationStack {
    type V = StackModel;

    closed spec fn view(&self) -> StackModel {
        StackModel {
            live: records_view(self.live@),
            tombstones: records_view(self.tombstones@),
            slots: self.slots@,
            closing: self.closing@.map_values(|c: ClosingSurface| c@),
            hidden: records_view(self.hidden@),
            indicator: self.indicator,
            quiet: self.quiet,
            next_slot: self.next_slot,
            next_id: self.next_id,
        }
    }
}

impl NotificationStack {
    /// An empty stack, quiet mode off.
    pub fn new() -> (r: Self)
        ensures
            r@.wf(),
            r@ == (StackModel {
                live: Seq::empty(),
                tombstones: Seq::empty(),
                slots: Seq::empty(),
                closing: Seq::empty(),
                hidden: Seq::empty(),
                indicator: None,
                quiet: false,
                next_slot: 0,
                next_id: 1,
            }),
    {
        let r = NotificationStack {
            live: Vec::new(),
            tombstones: Vec::new(),
            slots: Vec::new(),
            closing: Vec::new(),
            hidden: Vec::new(),
            indicator: None,
            quiet: false,
            next_slot: 0,
            next_id: 1,
        };
        assert(r@.open_surfaces() =~= Seq::<u64>::empty());
        assert(r@.hidden =~= hidden_of(r@.live, false));
        assert(r@.live =~= Seq::<RecordView>::empty());
        assert(r@.tombstones =~= Seq::<RecordView>::empty());
        assert(r@.hidden =~= Seq::<RecordView>::empty());
        assert(r@.slots =~= Seq::<Slot>::empty());
        assert(r@.closing =~= Seq::<ClosingView>::empty());
        assert(r@ =~= (StackModel {
            live: Seq::empty(),
            tombstones: Seq::empty(),
            slots: Seq::empty(),
            closing: Seq::empty(),
            hidden: Seq::empty(),
            indicator: None,
            quiet: false,
            next_slot: 0,
            next_id: 1,
        }));
        r
    }

    /// Recomputes the hidden queue from the live records.
    pub fn update_hidden_notification(&mut self)
        ensures
            final(self)@ == (StackModel { hidden: hidden_of(old(self)@.live, old(self)@.quiet), ..old(self)@ }),
    {
        let len = self.live.len();
        let start: usize = if self.quiet || len <= MAX_SHOWN_NOTIFICATIONS_COUNT {
            if self.quiet { 0 } else { len }
        } else {
            MAX_SHOWN_NOTIFICATIONS_COUNT
        };
        let mut hidden: Vec<NotifyUnitWidgetInfo> = Vec::new();
        let mut i: usize = start;
        while i < len
            invariant
                len == self.live@.len(),
                start <= i <= len,
                records_view(hidden@) =~= records_view(self.live@).subrange(start as int, i as int),
            decreases len - i,
        {
            let r = self.live[i].clone();
            let ghost h0 = hidden@;
            hidden.push(r);
            proof {
                assert(records_view(hidden@) =~= records_view(h0).push(self.live@[i as int]@));
            }
            i += 1;
        }
        let ghost before = self@;
        self.hidden = hidden;
        assert(records_view(self.hidden@) =~= hidden_of(before.live, before.quiet));
        assert(self@ =~= (StackModel { hidden: hidden_of(before.live, before.quiet), ..before }));
    }

    /// Handles a submission: replaces the unit of the live record whose id
    /// the unit carries, or puts a new record with a fresh id on top of the
    /// stack and reconciles the slots. Answers with the record's id.
    pub fn notify(&mut self, unit: NotifyUnit) -> (r: (u32, Vec<SurfaceOp>))
        requires
            old(self)@.wf(),
            old(self)@.has_room() || holds_id(old(self)@.live, unit.id),
        ensures
            final(self)@.wf(),
            final(self)@ == notify_model(old(self)@, unit@),
            r.0 == assigned_id(old(self)@, unit@),
            r.1@ == notify_ops(old(self)@, unit@),
            !holds_id(old(self)@.live, unit.id) ==> r.0 != 0 && !holds_id(old(self)@.live, r.0)
                && !holds_id(old(self)@.tombstones, r.0),
    {
        let ghost m = self@;
        let ghost u = unit@;
        proof {
            lemma_notify_wf(m, u);
        }
        let mut unit = unit;
        match find_record(&self.live, unit.id) {
            Some(j) => {
                let id = unit.id;
                proof {
                    assert(m.live[j as int] == self.live@[j as int]@);
                    lemma_index_of_id(m.live, id, j as int);
                }
                self.live[j].unit = unit;
                proof {
                    assert(records_view(self.live@) =~= m.live.update(
                        j as int,
                        RecordView { unit: u, ..m.live[j as int] },
                    ));
                }
                self.update_hidden_notification();
                proof {
                    assert(self@ =~= notify_model(m, u));
                    assert(Seq::<SurfaceOp>::empty() =~= notify_ops(m, u));
                }
                return (id, Vec::new());
            },
            None => {},
        }
        let id = self.next_id;
        proof {
            if holds_id(m.live, id) {
                let k = index_of_id(m.live, id);
                assert(m.live[k].unit.id < id);
            }
            if holds_id(m.tombstones, id) {
                let k = index_of_id(m.tombstones, id);
                assert(m.tombstones[k].unit.id < id);
            }
        }
        self.next_id = id + 1;
        unit.id = id;
        let ghost v = unit@;
        assert(v == (UnitView { id, ..u }));
        shift_all_down(&mut self.live);
        self.live.insert(
            0,
            NotifyUnitWidgetInfo {
                to_delete: false,
                upper: BEGINNING_UP_MARGIN,
                counter: 0,
                inline_reply: String::new(),
                unit,
            },
        );
        assert(records_view(self.live@) =~= seq![fresh_record(v)] + m.live.map_values(
            |r: RecordView| shift_down(r),
        ));
        let mut ops: Vec<SurfaceOp> = Vec::new();
        if !self.quiet {
            if self.slots.len() < MAX_SHOWN_NOTIFICATIONS_COUNT {
                ops = move_ops(&self.slots);
                let s = self.next_slot;
                self.next_slot = s + 1;
                self.slots.insert(0, Slot { surface: s, nid: id });
                ops.push(
                    SurfaceOp::OpenSurface {
                        slot_id: s,
                        offset: BEGINNING_UP_MARGIN,
                        content: SurfaceContent::Notification(id),
                    },
                );
            } else {
                rebind_slots(&mut self.slots, &self.live);
                if self.indicator.is_none() {
                    let s = self.next_slot;
                    self.next_slot = s + 1;
                    self.indicator = Some(s);
                    ops.push(
                        SurfaceOp::OpenSurface {
                            slot_id: s,
                            offset: EXTRAINF_MARGIN,
                            content: SurfaceContent::HiddenIndicator,
                        },
                    );
                }
            }
        }
        self.update_hidden_notification();
        proof {
            assert(self@.slots =~= notify_model(m, u).slots);
            assert(self@ =~= notify_model(m, u));
            assert(ops@ =~= notify_ops(m, u));
        }
        (id, ops)
    }

    /// Removes the notification `removed_id`: a no-op when it is not live.
    /// Records below it move up, slots are rebound to the records now at
    /// their ranks, and a slot left without a record is closed; the record
    /// stays as a tombstone until that surface reports closed.
    pub fn remove_notify(&mut self, removed_id: u32) -> (ops: Vec<SurfaceOp>)
        requires
            old(self)@.wf(),
        ensures
            final(self)@.wf(),
            final(self)@ == remove_model(old(self)@, removed_id),
            ops@ == remove_ops(old(self)@, removed_id),
    {
        let ghost m = self@;
        proof {
            lemma_remove_wf(m, removed_id);
        }
        let k = match find_record(&self.live, removed_id) {
            Some(k) => k,
            None => {
                proof {
                    assert(Seq::<SurfaceOp>::empty() =~= remove_ops(m, removed_id));
                }
                return Vec::new();
            },
        };
        proof {
            assert(m.live[k as int] == self.live@[k as int]@);
            lemma_index_of_id(m.live, removed_id, k as int);
        }
        let len = self.live.len();
        let keeps_slot = !self.quiet && len <= MAX_SHOWN_NOTIFICATIONS_COUNT;
        let snapshot = if keeps_slot {
            Some(self.live[len - 1].clone())
        } else {
            None
        };
        let mut removed = self.live.remove(k);
        proof {
            assert forall|i: int| k <= i < self.live@.len() implies placed(
                #[trigger] records_view(self.live@)[i],
                i + 1,
            ) by {
                assert(records_view(self.live@)[i] == m.live[i + 1]);
                assert(placed(m.live[i + 1], i + 1));
            }
            assert(records_view(self.live@) =~= m.live.subrange(0, k as int) + m.live.subrange(
                k as int + 1,
                len as int,
            ));
        }
        shift_up_from(&mut self.live, k);
        proof {
            assert(records_view(self.live@) =~= close_gap(m.live, k as int));
        }
        let mut ops: Vec<SurfaceOp> = Vec::new();
        if self.quiet {
        } else if len > MAX_SHOWN_NOTIFICATIONS_COUNT {
            rebind_slots(&mut self.slots, &self.live);
            if self.live.len() <= MAX_SHOWN_NOTIFICATIONS_COUNT {
                match self.indicator {
                    Some(ind) => {
                        ops.push(SurfaceOp::CloseSurface { slot_id: ind });
                        self.indicator = None;
                    },
                    None => {},
                }
            }
        } else {
            let last = self.slots.len() - 1;
            let gone = self.slots[last];
            self.slots.pop();
            proof {
                assert(self.slots@ =~= m.slots.subrange(0, last as int));
            }
            rebind_slots(&mut self.slots, &self.live);
            removed.to_delete = true;
            self.tombstones.push(removed);
            proof {
                assert(records_view(self.tombstones@) =~= m.tombstones.push(
                    RecordView { to_delete: true, ..m.live[k as int] },
                ));
            }
            let ghost c0 = self.closing@;
            match snapshot {
                Some(shown) => {
                    self.closing.push(ClosingSurface { surface: gone.surface, nid: removed_id, shown });
                },
                None => {},
            }
            proof {
                assert(self.closing@.map_values(|c: ClosingSurface| c@) =~= c0.map_values(
                    |c: ClosingSurface| c@,
                ).push(ClosingView { surface: gone.surface, nid: removed_id, shown: m.live[last as int] }));
            }
            ops.push(SurfaceOp::CloseSurface { slot_id: gone.surface });
        }
        self.update_hidden_notification();
        proof {
            assert(self@.live == remove_model(m, removed_id).live);
            assert(self@.tombstones == remove_model(m, removed_id).tombstones);
            assert(self@.slots == remove_model(m, removed_id).slots);
            assert(self@.closing == remove_model(m, removed_id).closing);
            assert(self@.indicator == remove_model(m, removed_id).indicator);
            assert(self@ =~= remove_model(m, removed_id));
            assert(ops@ =~= remove_ops(m, removed_id));
        }
        ops
    }
    /// Asks every open surface to close, keeping what each slot showed.
    fn close_visible(&mut self) -> (ops: Vec<SurfaceOp>)
        requires
            old(self)@.slots.len() <= old(self)@.live.len(),
        ensures
            final(self)@ == (StackModel {
                slots: Seq::empty(),
                closing: old(self)@.closing + closing_of(old(self)@.slots, old(self)@.live),
                indicator: None,
                ..old(self)@
            }),
            ops@ == close_all_ops(old(self)@),
    {
        let ghost m = self@;
        let mut ops: Vec<SurfaceOp> = Vec::new();
        let n = self.slots.len();
        let mut i: usize = 0;
        while i < n
            invariant
                n == self.slots@.len(),
                n <= self.live@.len(),
                i <= n,
                self@ == (StackModel {
                    closing: m.closing + closing_of(m.slots, m.live).subrange(0, i as int),
                    ..m
                }),
                ops@ == close_ops(m.slots).subrange(0, i as int),
            decreases n - i,
        {
            let slot = self.slots[i];
            let shown = self.live[i].clone();
            let ghost c0 = self.closing@;
            self.closing.push(ClosingSurface { surface: slot.surface, nid: slot.nid, shown });
            ops.push(SurfaceOp::CloseSurface { slot_id: slot.surface });
            proof {
                let co = closing_of(m.slots, m.live);
                assert(records_view(self.live@)[i as int] == self.live@[i as int]@);
                assert(co[i as int] == (ClosingView { surface: slot.surface, nid: slot.nid, shown: m.live[i as int] }));
                assert(co.subrange(0, i + 1) =~= co.subrange(0, i as int).push(co[i as int]));
                assert(self.closing@.map_values(|c: ClosingSurface| c@) =~= c0.map_values(
                    |c: ClosingSurface| c@,
                ).push(co[i as int]));
                assert(self.closing@.map_values(|c: ClosingSurface| c@) =~= m.closing + co.subrange(0, i + 1));
                assert(ops@ =~= close_ops(m.slots).subrange(0, i + 1));
            }
            i += 1;
        }
        self.slots = Vec::new();
        match self.indicator {
            Some(ind) => {
                ops.push(SurfaceOp::CloseSurface { slot_id: ind });
            },
            None => {},
        }
        self.indicator = None;
        proof {
            assert(closing_of(m.slots, m.live).subrange(0, n as int) =~= closing_of(m.slots, m.live));
            assert(ops@ =~= close_all_ops(m));
            assert(self@ =~= (StackModel {
                slots: Seq::empty(),
                closing: m.closing + closing_of(m.slots, m.live),
                indicator: None,
                ..m
            }));
        }
        ops
    }

    /// Turns quiet mode on or off. On: every visible surface closes and all
    /// live records form the hidden queue. Off: slots open for the records
    /// at the top of the stack, and the indicator if records remain hidden.
    pub fn set_quiet(&mut self, quiet: bool) -> (ops: Vec<SurfaceOp>)
        requires
            old(self)@.wf(),
            old(self)@.surfaces_left(),
        ensures
            final(self)@.wf(),
            final(self)@ == quiet_model(old(self)@, quiet),
            ops@ == quiet_ops(old(self)@, quiet),
    {
        let ghost m = self@;
        proof {
            lemma_quiet_wf(m, quiet);
        }
        if quiet == self.quiet {
            proof {
                assert(Seq::<SurfaceOp>::empty() =~= quiet_ops(m, quiet));
            }
            return Vec::new();
        }
        if quiet {
            let ops = self.close_visible();
            self.quiet = true;
            self.update_hidden_notification();
            proof {
                let q = quiet_model(m, quiet);
                assert(self@.live == q.live);
                assert(self@.closing == q.closing);
                assert(self@.hidden == q.hidden);
                assert(self@.slots == q.slots);
                assert(self@.tombstones == q.tombstones);
                assert(self@.indicator == q.indicator);
                assert(self@.quiet == q.quiet);
                assert(self@.next_slot == q.next_slot);
                assert(self@ == q);
            }
            return ops;
        }
        let n: usize = if self.live.len() < MAX_SHOWN_NOTIFICATIONS_COUNT {
            self.live.len()
        } else {
            MAX_SHOWN_NOTIFICATIONS_COUNT
        };
        let mut ops: Vec<SurfaceOp> = Vec::new();
        let mut i: usize = 0;
        assert(m.slots =~= reopened_slots(m).subrange(0, 0));
        assert(ops@ =~= quiet_ops(m, quiet).subrange(0, 0));
        while i < n
            invariant
                n == fill_count(m),
                i <= n,
                self@ == (StackModel {
                    slots: reopened_slots(m).subrange(0, i as int),
                    next_slot: (m.next_slot + i) as u64,
                    ..m
                }),
                m.wf(),
                m.surfaces_left(),
                ops@ == quiet_ops(m, quiet).subrange(0, i as int),
                !quiet,
                m.quiet,
            decreases n - i,
        {
            let s = self.next_slot;
            let nid = self.live[i].unit.id;
            self.slots.push(Slot { surface: s, nid });
            let off = offset_for(i);
            ops.push(
                SurfaceOp::OpenSurface {
                    slot_id: s,
                    offset: off,
                    content: SurfaceContent::Notification(nid),
                },
            );
            self.next_slot = s + 1;
            proof {
                assert(records_view(self.live@)[i as int] == self.live@[i as int]@);
                assert(self.slots@ =~= reopened_slots(m).subrange(0, i + 1));
                assert(ops@ =~= quiet_ops(m, quiet).subrange(0, i + 1));
            }
            i += 1;
        }
        if self.live.len() > MAX_SHOWN_NOTIFICATIONS_COUNT {
            let s = self.next_slot;
            self.indicator = Some(s);
            self.next_slot = s + 1;
            ops.push(
                SurfaceOp::OpenSurface {
                    slot_id: s,
                    offset: EXTRAINF_MARGIN,
                    content: SurfaceContent::HiddenIndicator,
                },
            );
        }
        self.quiet = false;
        self.update_hidden_notification();
        proof {
            let q = quiet_model(m, quiet);
            assert(self.slots@ =~= reopened_slots(m));
            assert(self@.slots == q.slots);
            assert(self@.indicator == q.indicator);
            assert(self@.next_slot == q.next_slot);
            assert(self@.hidden == q.hidden);
            assert(self@.live == q.live);
            assert(self@.closing == q.closing);
            assert(self@ == q);
            assert(ops@ =~= quiet_ops(m, quiet));
        }
        ops
    }

    /// Drops every notification and closes every visible surface.
    pub fn clear_all(&mut self) -> (ops: Vec<SurfaceOp>)
        requires
            old(self)@.wf(),
        ensures
            final(self)@.wf(),
            final(self)@ == clear_model(old(self)@),
            ops@ == close_all_ops(old(self)@),
    {
        let ghost m = self@;
        proof {
            lemma_clear_wf(m);
        }
        let ops = self.close_visible();
        self.live = Vec::new();
        self.tombstones = Vec::new();
        self.hidden = Vec::new();
        proof {
            assert(records_view(self.live@) =~= Seq::<RecordView>::empty());
            assert(records_view(self.tombstones@) =~= Seq::<RecordView>::empty());
            assert(records_view(self.hidden@) =~= Seq::<RecordView>::empty());
            assert(self@ =~= clear_model(m));
        }
        ops
    }

    /// Position of the first closing entry for surface `slot_id`.
    fn find_closing(&self, slot_id: u64) -> (r: Option<usize>)
        ensures
            match r {
                Some(c) => has_closing(self@, slot_id) && c == closing_index(self@, slot_id) && c
                    < self@.closing.len(),
                None => !has_closing(self@, slot_id),
            },
    {
        let ghost m = self@;
        let mut c: usize = 0;
        while c < self.closing.len()
            invariant
                self@ == m,
                c <= m.closing.len(),
                forall|d: int| 0 <= d < c ==> #[trigger] m.closing[d].surface != slot_id,
            decreases m.closing.len() - c,
        {
            if self.closing[c].surface == slot_id {
                proof {
                    assert(m.closing[c as int].surface == slot_id);
                    lemma_closing_index(m, slot_id, c as int);
                    if closing_index(m, slot_id) < c {
                        assert(m.closing[closing_index(m, slot_id)].surface != slot_id);
                    }
                }
                return Some(c);
            }
            c += 1;
        }
        None
    }

    /// Drops the tombstone of `nid`, if there is one.
    fn purge_tombstone(&mut self, nid: u32)
        requires
            distinct_ids(old(self)@.tombstones),
        ensures
            final(self)@ == (StackModel {
                tombstones: without_id(old(self)@.tombstones, nid),
                ..old(self)@
            }),
    {
        let ghost m = self@;
        match find_record(&self.tombstones, nid) {
            Some(t) => {
                proof {
                    assert(m.tombstones[t as int] == self.tombstones@[t as int]@);
                    lemma_index_of_id(m.tombstones, nid, t as int);
                }
                self.tombstones.remove(t);
                proof {
                    assert(records_view(self.tombstones@) =~= m.tombstones.remove(t as int));
                }
            },
            None => {},
        }
        proof {
            assert(self@ =~= (StackModel { tombstones: without_id(m.tombstones, nid), ..m }));
        }
    }

    /// Handles the report that surface `slot_id` is gone. A closing surface
    /// forgets what it showed and the tombstone it held is purged. An open
    /// slot or the indicator leaves the table and a surface opened afresh
    /// takes its rank. Reports for other surfaces change nothing. Afterwards
    /// no slot, indicator or closing entry has that surface.
    #[verifier::rlimit(50)]
    pub fn surface_closed(&mut self, slot_id: u64) -> (ops: Vec<SurfaceOp>)
        requires
            old(self)@.wf(),
            old(self)@.surfaces_left(),
        ensures
            final(self)@.wf(),
            final(self)@ == surface_closed_model(old(self)@, slot_id),
            ops@ == surface_closed_ops(old(self)@, slot_id),
            forall|i: int| 0 <= i < final(self)@.slots.len() ==> (#[trigger] final(self)@.slots[i]).surface
                != slot_id,
            final(self)@.indicator != Some(slot_id),
            forall|c: int| 0 <= c < final(self)@.closing.len() ==> (#[trigger] final(self)@.closing[c]).surface
                != slot_id,
    {
        let ghost m = self@;
        proof {
            lemma_surface_closed_wf(m, slot_id);
            lemma_surface_gone(m, slot_id);
        }
        match self.find_closing(slot_id) {
            Some(c) => {
                let entry = self.closing.remove(c);
                proof {
                    assert(m.closing[c as int] == entry@);
                    assert(self.closing@.map_values(|x: ClosingSurface| x@) =~= m.closing.remove(
                        c as int,
                    ));
                }
                let ghost m1 = self@;
                proof {
                    assert(m1 == (StackModel { closing: m.closing.remove(c as int), ..m }));
                }
                self.purge_tombstone(entry.nid);
                proof {
                    let q = surface_closed_model(m, slot_id);
                    assert(self@.closing == q.closing);
                    assert(self@.tombstones == q.tombstones);
                    assert(self@ == q);
                    assert(Seq::<SurfaceOp>::empty() =~= surface_closed_ops(m, slot_id));
                }
                return Vec::new();
            },
            None => {},
        }
        let mut ops: Vec<SurfaceOp> = Vec::new();
        match self.find_slot(slot_id) {
            Some(i) => {
                let nid = self.slots[i].nid;
                let fresh = self.next_slot;
                self.next_slot = fresh + 1;
                self.slots[i].surface = fresh;
                let off = offset_for(i);
                ops.push(
                    SurfaceOp::OpenSurface {
                        slot_id: fresh,
                        offset: off,
                        content: SurfaceContent::Notification(nid),
                    },
                );
                proof {
                    let q = surface_closed_model(m, slot_id);
                    assert(self@.slots =~= q.slots);
                    assert(self@ == q);
                    assert(ops@ =~= surface_closed_ops(m, slot_id));
                }
                return ops;
            },
            None => {},
        }
        if self.indicator == Some(slot_id) {
            let fresh = self.next_slot;
            self.next_slot = fresh + 1;
            self.indicator = Some(fresh);
            ops.push(
                SurfaceOp::OpenSurface {
                    slot_id: fresh,
                    offset: EXTRAINF_MARGIN,
                    content: SurfaceContent::HiddenIndicator,
                },
            );
        }
        proof {
            let q = surface_closed_model(m, slot_id);
            assert(self@ == q);
            assert(ops@ =~= surface_closed_ops(m, slot_id));
        }
        ops
    }

    /// Whether enough surface identities are left for any operation.
    pub fn surfaces_left(&self) -> (r: bool)
        requires
            self@.wf(),
        ensures
            r == self@.surfaces_left(),
    {
        self.next_slot <= SURFACE_ID_LIMIT - 5
    }

    /// Rank of the open slot with surface `slot_id`.
    fn find_slot(&self, slot_id: u64) -> (r: Option<usize>)
        requires
            self@.wf(),
        ensures
            match r {
                Some(i) => has_slot(self@, slot_id) && i == slot_index(self@, slot_id) && i
                    < self@.slots.len(),
                None => !has_slot(self@, slot_id),
            },
    {
        let ghost m = self@;
        let mut i: usize = 0;
        while i < self.slots.len()
            invariant
                self@ == m,
                m.wf(),
                i <= m.slots.len(),
                forall|j: int| 0 <= j < i ==> #[trigger] m.slots[j].surface != slot_id,
            decreases m.slots.len() - i,
        {
            if self.slots[i].surface == slot_id {
                proof {
                    assert(m.slots[i as int].surface == slot_id);
                    let k = slot_index(m, slot_id);
                    let os = m.open_surfaces();
                    assert(os[k] == m.slots[k].surface);
                    assert(os[i as int] == m.slots[i as int].surface);
                }
                return Some(i);
            }
            i += 1;
        }
        None
    }

    /// Stores the reply being typed on surface `slot_id`.
    pub fn set_reply_text(&mut self, slot_id: u64, text: String)
        requires
            old(self)@.wf(),
        ensures
            final(self)@.wf(),
            final(self)@ == reply_text_model(old(self)@, slot_id, text@),
    {
        let ghost m = self@;
        proof {
            lemma_reply_text_wf(m, slot_id, text@);
        }
        match self.find_slot(slot_id) {
            Some(i) => {
                self.live[i].inline_reply = text;
                proof {
                    assert(records_view(self.live@) =~= m.live.update(
                        i as int,
                        RecordView { inline_reply: text@, ..m.live[i as int] },
                    ));
                }
                self.update_hidden_notification();
                proof {
                    assert(self@ =~= reply_text_model(m, slot_id, text@));
                }
            },
            None => {},
        }
    }

    /// What surface `slot_id` shows: for a closing surface the record it showed
    /// last, for an open slot the record at its rank.
    pub fn slot_content(&self, slot_id: u64) -> (r: Option<NotifyUnitWidgetInfo>)
        requires
            self@.wf(),
        ensures
            has_closing(self@, slot_id) ==> r is Some && r->0@ == self@.closing[closing_index(
                self@,
                slot_id,
            )].shown,
            !has_closing(self@, slot_id) && has_slot(self@, slot_id) ==> r is Some && r->0@
                == self@.live[slot_index(self@, slot_id)],
            !has_closing(self@, slot_id) && !has_slot(self@, slot_id) ==> r is None,
    {
        let ghost m = self@;
        match self.find_closing(slot_id) {
            Some(c) => {
                proof {
                    assert(m.closing[c as int] == self.closing@[c as int]@);
                }
                return Some(self.closing[c].shown.clone());
            },
            None => {},
        }
        match self.find_slot(slot_id) {
            Some(i) => {
                proof {
                    assert(m.live[i as int] == self.live@[i as int]@);
                }
                Some(self.live[i].clone())
            },
            None => None,
        }
    }

    /// Whether notification `id` is live.
    pub fn contains_id(&self, id: u32) -> (r: bool)
        ensures
            r == holds_id(self@.live, id),
    {
        match find_record(&self.live, id) {
            Some(i) => {
                proof {
                    assert(self@.live[i as int] == self.live@[i as int]@);
                    assert(self@.live[i as int].unit.id == id);
                }
                true
            },
            None => false,
        }
    }

    /// The hidden queue, in ascending counter order.
    pub fn hidden_notification(&self) -> (r: &Vec<NotifyUnitWidgetInfo>)
        ensures
            records_view(r@) == self@.hidden,
    {
        &self.hidden
    }

    /// The live records, by counter.
    pub fn records(&self) -> (r: &Vec<NotifyUnitWidgetInfo>)
        ensures
            records_view(r@) == self@.live,
    {
        &self.live
    }

    /// The open slots, by rank.
    pub fn slots(&self) -> (r: &Vec<Slot>)
        ensures
            r@ == self@.slots,
    {
        &self.slots
    }

    /// Surface of the overflow indicator, when open.
    pub fn indicator(&self) -> (r: Option<u64>)
        ensures
            r == self@.indicator,
    {
        self.indicator
    }

    /// Whether quiet mode is on.
    pub fn is_quiet(&self) -> (r: bool)
        ensures
            r == self@.quiet,
    {
        self.quiet
    }

    /// Whether a new notification fits.
    pub fn has_room(&self) -> (r: bool)
        requires
            self@.wf(),
        ensures
            r == self@.has_room(),
    {
        self.live.len() < MAX_RECORDS - self.tombstones.len() && self.next_slot
            <= SURFACE_ID_LIMIT - 5 && self.next_id < u32::MAX
    }
    /// The user clicked notification `id`: the default action is reported
    /// and the notification removed. Nothing is reported for an id that is
    /// not live.
    pub fn dismiss(&mut self, id: u32) -> (r: (Vec<SurfaceOp>, Option<NotifyCommand>))
        requires
            old(self)@.wf(),
        ensures
            final(self)@.wf(),
            final(self)@ == remove_model(old(self)@, id),
            r.0@ == remove_ops(old(self)@, id),
            match r.1 {
                Some(NotifyCommand::ActionInvoked { id: i, action_key }) => holds_id(
                    old(self)@.live,
                    id,
                ) && i == id && action_key@ == default_action_key(),
                Some(_) => false,
                None => !holds_id(old(self)@.live, id),
            },
    {
        let cmd = if self.contains_id(id) {
            Some(NotifyCommand::ActionInvoked { id, action_key: default_action() })
        } else {
            None
        };
        let ops = self.remove_notify(id);
        (ops, cmd)
    }

    /// The user sent an inline reply to notification `id`: the reply is
    /// reported and the notification removed.
    pub fn reply(&mut self, id: u32, text: String) -> (r: (Vec<SurfaceOp>, Option<NotifyCommand>))
        requires
            old(self)@.wf(),
        ensures
            final(self)@.wf(),
            final(self)@ == remove_model(old(self)@, id),
            r.0@ == remove_ops(old(self)@, id),
            match r.1 {
                Some(NotifyCommand::InlineReply { id: i, text: t }) => holds_id(old(self)@.live, id)
                    && i == id && t@ == text@,
                Some(_) => false,
                None => !holds_id(old(self)@.live, id),
            },
    {
        let cmd = if self.contains_id(id) {
            Some(NotifyCommand::InlineReply { id, text })
        } else {
            None
        };
        let ops = self.remove_notify(id);
        (ops, cmd)
    }

    /// The timeout of notification `id` ran out: it is reported expired and
    /// removed exactly as a `CloseNotification` would remove it.
    pub fn expire(&mut self, id: u32) -> (r: (Vec<SurfaceOp>, Option<NotifyCommand>))
        requires
            old(self)@.wf(),
        ensures
            final(self)@.wf(),
            final(self)@ == remove_model(old(self)@, id),
            r.0@ == remove_ops(old(self)@, id),
            match r.1 {
                Some(NotifyCommand::NotificationClosed { id: i, reason }) => holds_id(
                    old(self)@.live,
                    id,
                ) && i == id && reason == NOTIFICATION_DELETED_BY_EXPIRED,
                Some(_) => false,
                None => !holds_id(old(self)@.live, id),
            },
    {
        let cmd = if self.contains_id(id) {
            Some(NotifyCommand::NotificationClosed { id, reason: NOTIFICATION_DELETED_BY_EXPIRED })
        } else {
            None
        };
        let ops = self.remove_notify(id);
        (ops, cmd)
    }
}

} // verus!
