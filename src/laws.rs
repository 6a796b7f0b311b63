use vstd::prelude::*;

use crate::record::{holds_id, index_of_id, placed, BEGINNING_UP_MARGIN, UNIT_MARGIN};
use crate::stack::{
    assigned_id, cap, has_closing, has_slot, lemma_surface_gone, notify_model, notify_ops,
    remove_model, remove_ops, surface_closed_model, surface_closed_ops, StackModel,
};
use crate::unit::UnitView;

verus! {

/// The counters of the live records are exactly `0..k-1`, each once: the
/// record at position `c` of the stack has counter `c`.
pub proof fn counters_contiguous(m: StackModel)
    requires
        m.wf(),
    ensures
        forall|i: int| 0 <= i < m.live.len() ==> #[trigger] m.live[i].counter < m.live.len(),
        forall|c: int| 0 <= c < m.live.len() ==> #[trigger] m.live[c].counter == c,
        forall|i: int, j: int|
            0 <= i < m.live.len() && 0 <= j < m.live.len() && i != j ==> #[trigger] m.live[i].counter
                != #[trigger] m.live[j].counter,
{
    assert forall|i: int| 0 <= i < m.live.len() implies #[trigger] m.live[i].counter < m.live.len() by {
        assert(placed(m.live[i], i));
    }
    assert forall|c: int| 0 <= c < m.live.len() implies #[trigger] m.live[c].counter == c by {
        assert(placed(m.live[c], c));
    }
    assert forall|i: int, j: int|
        0 <= i < m.live.len() && 0 <= j < m.live.len() && i != j implies #[trigger] m.live[i].counter
            != #[trigger] m.live[j].counter by {
        assert(placed(m.live[i], i));
        assert(placed(m.live[j], j));
    }
}

/// Every live record's offset is `BEGINNING_UP_MARGIN + counter * UNIT_MARGIN`.
pub proof fn offsets_follow_counters(m: StackModel)
    requires
        m.wf(),
    ensures
        forall|i: int|
            0 <= i < m.live.len() ==> #[trigger] m.live[i].upper == BEGINNING_UP_MARGIN + m.live[i].counter
                * UNIT_MARGIN,
{
    assert forall|i: int| 0 <= i < m.live.len() implies #[trigger] m.live[i].upper
        == BEGINNING_UP_MARGIN + m.live[i].counter * UNIT_MARGIN by {
        assert(placed(m.live[i], i));
    }
}

/// Removing an id that is not live changes nothing, and removing an id a
/// second time changes nothing after the first removal.
pub proof fn removal_idempotent(m: StackModel, id: u32)
    requires
        m.wf(),
    ensures
        !holds_id(m.live, id) ==> remove_model(m, id) == m && remove_ops(m, id).len() == 0,
        remove_model(remove_model(m, id), id) == remove_model(m, id),
        remove_ops(remove_model(m, id), id).len() == 0,
{
    let r = remove_model(m, id);
    if holds_id(m.live, id) {
        let k = index_of_id(m.live, id);
        if holds_id(r.live, id) {
            let i = index_of_id(r.live, id);
            if i < k {
                assert(r.live[i] == m.live[i]);
            } else {
                assert(r.live[i].unit.id == m.live[i + 1].unit.id);
            }
            assert(m.live[i].unit.id != m.live[k].unit.id || m.live[i + 1].unit.id
                != m.live[k].unit.id);
        }
    }
}

/// With quiet mode off at most `MAX_SHOWN_NOTIFICATIONS_COUNT` slots are open,
/// and the live records beyond them are exactly the hidden queue.
pub proof fn capacity_law(m: StackModel)
    requires
        m.wf(),
    ensures
        m.slots.len() <= cap(),
        !m.quiet ==> m.slots.len() == if m.live.len() < cap() {
            m.live.len() as int
        } else {
            cap()
        },
        !m.quiet && m.live.len() >= cap() ==> m.hidden.len() == m.live.len() - cap(),
        !m.quiet && m.live.len() < cap() ==> m.hidden.len() == 0,
        m.quiet ==> m.hidden == m.live,
{
}

/// A second `Notify` carrying the id the first was answered with replaces
/// the unit only: every counter, offset and slot stays, and no surface
/// operation is needed.
pub proof fn renotify_keeps_position(m: StackModel, first: UnitView, second: UnitView)
    requires
        m.wf(),
        m.has_room(),
        second.id == assigned_id(m, first),
    ensures
        ({
            let m1 = notify_model(m, first);
            let m2 = notify_model(m1, second);
            &&& m2.live.len() == m1.live.len()
            &&& forall|i: int|
                0 <= i < m1.live.len() ==> #[trigger] m2.live[i].counter == m1.live[i].counter
                    && m2.live[i].upper == m1.live[i].upper && m2.live[i].unit == (if m1.live[i].unit.id
                    == second.id {
                    second
                } else {
                    m1.live[i].unit
                })
            &&& m2.slots == m1.slots
            &&& m2.indicator == m1.indicator
            &&& notify_ops(m1, second).len() == 0
        }),
{
    crate::stack::lemma_notify_wf(m, first);
    let m1 = notify_model(m, first);
    if holds_id(m.live, first.id) {
        let j = index_of_id(m.live, first.id);
        assert(m1.live[j].unit.id == first.id);
    } else {
        assert(m1.live[0].unit.id == second.id);
    }
    assert(holds_id(m1.live, second.id));
    let j = index_of_id(m1.live, second.id);
    assert forall|i: int| 0 <= i < m1.live.len() && i != j implies m1.live[i].unit.id != second.id by {
        assert(m1.live[i].unit.id != m1.live[j].unit.id);
    }
}

/// Reporting the same surface gone twice changes nothing the second time.
pub proof fn surface_close_idempotent(m: StackModel, s: u64)
    requires
        m.wf(),
        m.surfaces_left(),
    ensures
        surface_closed_model(surface_closed_model(m, s), s) == surface_closed_model(m, s),
        surface_closed_ops(surface_closed_model(m, s), s).len() == 0,
{
    let r = surface_closed_model(m, s);
    lemma_surface_gone(m, s);
    if has_closing(r, s) {
        let c = choose|c: int| 0 <= c < r.closing.len() && #[trigger] r.closing[c].surface == s;
    }
    if has_slot(r, s) {
        let i = choose|i: int| 0 <= i < r.slots.len() && #[trigger] r.slots[i].surface == s;
    }
}

} // verus!
