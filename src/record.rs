use vstd::prelude::*;

use crate::unit::{NotifyUnit, UnitView};

verus! {

/// Number of notifications shown on screen at once.
pub const MAX_SHOWN_NOTIFICATIONS_COUNT: usize = 4;

/// Vertical offset, in pixels, of the topmost notification surface.
pub const BEGINNING_UP_MARGIN: i32 = 10;

/// Height, in pixels, of one notification slot.
pub const UNIT_MARGIN: i32 = 135;

/// Vertical offset of the overflow indicator, right below the last slot.
pub const EXTRAINF_MARGIN: i32 = BEGINNING_UP_MARGIN + 4 * UNIT_MARGIN;

/// Most records the store holds at once; keeps every offset within `i32`.
pub const MAX_RECORDS: usize = 1000000;

/// The vertical offset of the surface that shows the record at `counter`.
pub open spec fn offset_of(counter: int) -> int {
    BEGINNING_UP_MARGIN + counter * UNIT_MARGIN
}

/// Computes [`offset_of`].
pub fn offset_for(counter: usize) -> (r: i32)
    requires
        counter <= MAX_RECORDS,
    ensures
        r == offset_of(counter as int),
{
    BEGINNING_UP_MARGIN + (counter as i32) * UNIT_MARGIN
}

/// The server-owned state of one notification.
pub struct NotifyUnitWidgetInfo {
    /// Tombstone: the record is logically gone and waits to be purged.
    pub to_delete: bool,
    /// Vertical offset, always `offset_of(counter)`.
    pub upper: i32,
    /// Stack position, 0 for the most recent arrival.
    pub counter: usize,
    /// Text of an inline reply being typed.
    pub inline_reply: String,
    pub unit: NotifyUnit,
}

/// Mathematical value of a [`NotifyUnitWidgetInfo`].
pub struct RecordView {
    pub to_delete: bool,
    pub upper: i32,
    pub counter: usize,
    pub inline_reply: Seq<char>,
    pub unit: UnitView,
}

impl View for NotifyUnitWidgetInfo {
    type V = RecordView;

    open spec fn view(&self) -> RecordView {
        RecordView {
            to_delete: self.to_delete,
            upper: self.upper,
            counter: self.counter,
            inline_reply: self.inline_reply@,
            unit: self.unit@,
        }
    }
}

impl Clone for NotifyUnitWidgetInfo {
    fn clone(&self) -> (r: Self)
        ensures
            r@ == self@,
    {
        NotifyUnitWidgetInfo {
            to_delete: self.to_delete,
            upper: self.upper,
            counter: self.counter,
            inline_reply: self.inline_reply.clone(),
            unit: self.unit.clone(),
        }
    }
}

/// The views of a sequence of records.
pub open spec fn records_view(v: Seq<NotifyUnitWidgetInfo>) -> Seq<RecordView> {
    v.map_values(|r: NotifyUnitWidgetInfo| r@)
}

/// A record just created for `u`: on top of the stack, no reply typed.
pub open spec fn fresh_record(u: UnitView) -> RecordView {
    RecordView {
        to_delete: false,
        upper: BEGINNING_UP_MARGIN,
        counter: 0,
        inline_reply: Seq::empty(),
        unit: u,
    }
}

/// `r` pushed one position down the stack.
pub open spec fn shift_down(r: RecordView) -> RecordView {
    RecordView { counter: (r.counter + 1) as usize, upper: (r.upper + UNIT_MARGIN) as i32, ..r }
}

/// `r` pulled one position up the stack.
pub open spec fn shift_up(r: RecordView) -> RecordView {
    RecordView { counter: (r.counter - 1) as usize, upper: (r.upper - UNIT_MARGIN) as i32, ..r }
}

/// `r` stands at position `i` of the live stack.
pub open spec fn placed(r: RecordView, i: int) -> bool {
    &&& r.counter == i
    &&& r.upper == offset_of(i)
    &&& !r.to_delete
}

/// No two records of `s` share an id.
pub open spec fn distinct_ids(s: Seq<RecordView>) -> bool {
    forall|i: int, j: int|
        0 <= i < s.len() && 0 <= j < s.len() && i != j ==> #[trigger] s[i].unit.id
            != #[trigger] s[j].unit.id
}

/// No record of `a` shares an id with a record of `b`.
pub open spec fn disjoint_ids(a: Seq<RecordView>, b: Seq<RecordView>) -> bool {
    forall|i: int, j: int|
        0 <= i < a.len() && 0 <= j < b.len() ==> #[trigger] a[i].unit.id != #[trigger] b[j].unit.id
}

/// Some record of `s` has id `id`.
pub open spec fn holds_id(s: Seq<RecordView>, id: u32) -> bool {
    exists|i: int| 0 <= i < s.len() && #[trigger] s[i].unit.id == id
}

/// The position of the record of `s` with id `id` (meaningful when `holds_id`).
pub open spec fn index_of_id(s: Seq<RecordView>, id: u32) -> int {
    choose|i: int| 0 <= i < s.len() && #[trigger] s[i].unit.id == id
}

/// `s` without its record of id `id`, if it has one.
pub open spec fn without_id(s: Seq<RecordView>, id: u32) -> Seq<RecordView> {
    if holds_id(s, id) {
        s.remove(index_of_id(s, id))
    } else {
        s
    }
}

/// With distinct ids, the record found at `j` is the one `index_of_id` names.
pub proof fn lemma_index_of_id(s: Seq<RecordView>, id: u32, j: int)
    requires
        distinct_ids(s),
        0 <= j < s.len(),
        s[j].unit.id == id,
    ensures
        holds_id(s, id),
        index_of_id(s, id) == j,
{
    assert(holds_id(s, id));
    let k = index_of_id(s, id);
    assert(s[k].unit.id == id);
}

/// The first position in `v` of a record with id `id`.
pub fn find_record(v: &Vec<NotifyUnitWidgetInfo>, id: u32) -> (r: Option<usize>)
    ensures
        match r {
            Some(i) => i < v@.len() && v@[i as int].unit.id == id,
            None => !holds_id(records_view(v@), id),
        },
{
    let mut i: usize = 0;
    while i < v.len()
        invariant
            i <= v@.len(),
            forall|j: int| 0 <= j < i ==> v@[j].unit.id != id,
        decreases v@.len() - i,
    {
        if v[i].unit.id == id {
            return Some(i);
        }
        i += 1;
    }
    assert forall|j: int| 0 <= j < records_view(v@).len() implies #[trigger] records_view(
        v@,
    )[j].unit.id != id by {
        assert(records_view(v@)[j] == v@[j]@);
    }
    None
}

} // verus!
