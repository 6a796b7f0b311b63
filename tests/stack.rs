use lala_bar::record::NotifyUnitWidgetInfo;
use lala_bar::server::{NotifyCommand, NOTIFICATION_DELETED_BY_EXPIRED};
use lala_bar::stack::{NotificationStack, Slot, SurfaceContent, SurfaceOp};
use lala_bar::unit::NotifyUnit;

fn unit(id: u32, summery: &str, timeout: i32) -> NotifyUnit {
    NotifyUnit {
        app_name: "app".to_string(),
        id,
        icon: String::new(),
        summery: summery.to_string(),
        body: "body".to_string(),
        actions: vec![],
        timeout,
        urgency: 1,
        inline_reply: false,
        image: None,
    }
}

fn ids(v: &[NotifyUnitWidgetInfo]) -> Vec<u32> {
    v.iter().map(|r| r.unit.id).collect()
}

fn open(slot_id: u64, offset: i32, id: u32) -> SurfaceOp {
    SurfaceOp::OpenSurface { slot_id, offset, content: SurfaceContent::Notification(id) }
}

fn mv(slot_id: u64, new_offset: i32) -> SurfaceOp {
    SurfaceOp::MoveSurface { slot_id, new_offset }
}

fn close(slot_id: u64) -> SurfaceOp {
    SurfaceOp::CloseSurface { slot_id }
}

fn slot(surface: u64, nid: u32) -> Slot {
    Slot { surface, nid }
}

fn check_counters(s: &NotificationStack) {
    for (i, r) in s.records().iter().enumerate() {
        assert_eq!(r.counter, i);
        assert_eq!(r.upper, 10 + 135 * i as i32);
        assert!(!r.to_delete);
    }
}

/// Ids 1 to 5 in order, with quiet mode off.
fn scenario_a() -> NotificationStack {
    let mut s = NotificationStack::new();
    for id in 1..=5 {
        s.notify(unit(id, "s", -1));
    }
    s
}

#[test]
fn first_notifications_open_slots_and_push_others_down() {
    let mut s = NotificationStack::new();
    assert_eq!(s.notify(unit(1, "a", -1)).1, vec![open(0, 10, 1)]);
    assert_eq!(s.notify(unit(2, "b", -1)).1, vec![mv(0, 145), open(1, 10, 2)]);
    assert_eq!(s.notify(unit(3, "c", -1)).1, vec![mv(1, 145), mv(0, 280), open(2, 10, 3)]);
    assert_eq!(
        s.notify(unit(4, "d", -1)).1,
        vec![mv(2, 145), mv(1, 280), mv(0, 415), open(3, 10, 4)]
    );
    assert_eq!(s.slots(), &vec![slot(3, 4), slot(2, 3), slot(1, 2), slot(0, 1)]);
    assert_eq!(s.indicator(), None);
    check_counters(&s);
}

#[test]
fn scenario_a_fifth_notification_reuses_slots() {
    let mut s = NotificationStack::new();
    for id in 1..=4 {
        s.notify(unit(id, "s", -1));
    }
    let (id, ops) = s.notify(unit(5, "e", -1));
    assert_eq!(id, 5);
    assert_eq!(
        ops,
        vec![SurfaceOp::OpenSurface {
            slot_id: 4,
            offset: 550,
            content: SurfaceContent::HiddenIndicator
        }]
    );
    assert_eq!(s.slots(), &vec![slot(3, 5), slot(2, 4), slot(1, 3), slot(0, 2)]);
    assert_eq!(ids(s.records()), vec![5, 4, 3, 2, 1]);
    assert_eq!(ids(&s.records()[..4]), vec![5, 4, 3, 2]);
    assert_eq!(ids(s.hidden_notification()), vec![1]);
    assert_eq!(s.indicator(), Some(4));
    check_counters(&s);
}

#[test]
fn scenario_b_removal_promotes_hidden() {
    let mut s = scenario_a();
    let ops = s.remove_notify(3);
    assert_eq!(ops, vec![close(4)]);
    let recs = s.records();
    assert_eq!(ids(recs), vec![5, 4, 2, 1]);
    assert_eq!(recs[2].unit.id, 2);
    assert_eq!(recs[3].unit.id, 1);
    assert_eq!(recs[3].counter, 3);
    assert_eq!(s.slots(), &vec![slot(3, 5), slot(2, 4), slot(1, 2), slot(0, 1)]);
    assert!(s.hidden_notification().is_empty());
    assert_eq!(s.indicator(), None);
    check_counters(&s);
}

#[test]
fn scenario_c_quiet_mode_hides_everything() {
    let mut s = scenario_a();
    let ops = s.set_quiet(true);
    assert_eq!(ops, vec![close(3), close(2), close(1), close(0), close(4)]);
    assert!(s.slots().is_empty());
    assert_eq!(s.indicator(), None);
    assert!(s.is_quiet());
    assert_eq!(ids(s.hidden_notification()), vec![5, 4, 3, 2, 1]);
    let counters: Vec<usize> = s.hidden_notification().iter().map(|r| r.counter).collect();
    assert_eq!(counters, vec![0, 1, 2, 3, 4]);
    // the closing surfaces still answer what they showed
    assert_eq!(s.slot_content(3).map(|r| r.unit.id), Some(5));
    assert_eq!(s.slot_content(0).map(|r| r.unit.id), Some(2));
}

#[test]
fn quiet_mode_off_reopens_top_slots() {
    let mut s = scenario_a();
    s.set_quiet(true);
    let ops = s.set_quiet(false);
    assert_eq!(
        ops,
        vec![
            open(5, 10, 5),
            open(6, 145, 4),
            open(7, 280, 3),
            open(8, 415, 2),
            SurfaceOp::OpenSurface { slot_id: 9, offset: 550, content: SurfaceContent::HiddenIndicator },
        ]
    );
    assert_eq!(ids(s.hidden_notification()), vec![1]);
    assert!(s.set_quiet(false).is_empty());
}

#[test]
fn quiet_mode_keeps_new_arrivals_hidden() {
    let mut s = NotificationStack::new();
    assert!(s.set_quiet(true).is_empty());
    assert!(s.notify(unit(1, "a", -1)).1.is_empty());
    assert!(s.notify(unit(2, "b", -1)).1.is_empty());
    assert_eq!(ids(s.hidden_notification()), vec![2, 1]);
    assert!(s.remove_notify(2).is_empty());
    assert_eq!(ids(s.hidden_notification()), vec![1]);
    check_counters(&s);
}

#[test]
fn scenario_d_timeout_expires_like_close() {
    let u = unit(7, "t", 5);
    assert_eq!(u.expiry_secs(), Some(5));
    assert_eq!(unit(1, "x", -1).expiry_secs(), None);
    assert_eq!(unit(1, "x", 0).expiry_secs(), None);

    let mut a = NotificationStack::new();
    let mut b = NotificationStack::new();
    let mut id = 0;
    for s in [&mut a, &mut b] {
        s.notify(unit(0, "one", -1));
        id = s.notify(unit(0, "t", 5)).0;
    }
    assert_eq!(id, 2);
    let (ops_a, cmd) = a.expire(id);
    let ops_b = b.remove_notify(id);
    assert_eq!(ops_a, ops_b);
    assert_eq!(ids(a.records()), ids(b.records()));
    assert_eq!(a.slots(), b.slots());
    match cmd {
        Some(NotifyCommand::NotificationClosed { id, reason }) => {
            assert_eq!(id, 2);
            assert_eq!(reason, NOTIFICATION_DELETED_BY_EXPIRED);
        }
        _ => panic!("expected an expiry signal"),
    }
    assert!(a.expire(2).1.is_none());
}

#[test]
fn renotify_replaces_content_only() {
    let mut s = scenario_a();
    let before: Vec<(usize, i32)> = s.records().iter().map(|r| (r.counter, r.upper)).collect();
    let slots = s.slots().clone();
    let (id, ops) = s.notify(unit(3, "changed", -1));
    assert_eq!(id, 3);
    assert!(ops.is_empty());
    let after: Vec<(usize, i32)> = s.records().iter().map(|r| (r.counter, r.upper)).collect();
    assert_eq!(before, after);
    assert_eq!(s.slots(), &slots);
    assert_eq!(s.records()[2].unit.summery, "changed");
    assert_eq!(s.records()[1].unit.summery, "s");
}

#[test]
fn removing_twice_or_unknown_changes_nothing() {
    let mut s = scenario_a();
    assert!(s.remove_notify(42).is_empty());
    assert_eq!(ids(s.records()), vec![5, 4, 3, 2, 1]);
    s.remove_notify(4);
    let recs = ids(s.records());
    let slots = s.slots().clone();
    assert!(s.remove_notify(4).is_empty());
    assert_eq!(ids(s.records()), recs);
    assert_eq!(s.slots(), &slots);
}

#[test]
fn capacity_never_exceeds_four() {
    let mut s = NotificationStack::new();
    for id in 1..=9 {
        s.notify(unit(id, "s", -1));
        assert!(s.slots().len() <= 4);
        let live = s.records().len();
        if live >= 4 {
            assert_eq!(s.hidden_notification().len(), live - 4);
        } else {
            assert_eq!(s.hidden_notification().len(), 0);
        }
    }
    assert_eq!(ids(s.hidden_notification()), vec![5, 4, 3, 2, 1]);
}

#[test]
fn visible_removal_closes_last_slot_and_defers_purge() {
    let mut s = NotificationStack::new();
    s.notify(unit(1, "a", -1));
    s.notify(unit(2, "b", -1));
    s.notify(unit(3, "c", -1));
    // slots: surface 2 shows 3, surface 1 shows 2, surface 0 shows 1
    let ops = s.remove_notify(2);
    assert_eq!(ops, vec![close(0)]);
    assert_eq!(s.slots(), &vec![slot(2, 3), slot(1, 1)]);
    assert_eq!(ids(s.records()), vec![3, 1]);
    check_counters(&s);
    // the closing surface still reports what it showed
    assert_eq!(s.slot_content(0).map(|r| r.unit.id), Some(1));
    assert!(!s.contains_id(2));
    s.surface_closed(0);
    assert_eq!(s.slot_content(0).map(|r| r.unit.id), None);
    assert_eq!(s.slot_content(1).map(|r| r.unit.id), Some(1));
    // a removed id is not handed out again
    assert_eq!(s.notify(unit(2, "again", -1)).0, 4);
    assert_eq!(ids(s.records()), vec![4, 3, 1]);
}

#[test]
fn resubmitting_a_removed_id_gets_a_fresh_one() {
    let mut s = NotificationStack::new();
    s.notify(unit(1, "a", -1));
    s.remove_notify(1);
    assert_eq!(s.notify(unit(1, "b", -1)), (2, vec![open(1, 10, 2)]));
    assert_eq!(s.records()[0].unit.summery, "b");
    assert!(s.surface_closed(0).is_empty());
    assert_eq!(ids(s.records()), vec![2]);
}

#[test]
fn new_ids_are_fresh() {
    let mut s = NotificationStack::new();
    assert_eq!(s.notify(unit(0, "a", -1)).0, 1);
    assert_eq!(s.notify(unit(0, "b", -1)).0, 2);
    assert_eq!(s.notify(unit(77, "c", -1)).0, 3);
    assert_eq!(s.notify(unit(2, "b2", -1)).0, 2);
    assert_eq!(ids(s.records()), vec![3, 2, 1]);
    assert_eq!(s.records()[1].unit.summery, "b2");
}

#[test]
fn a_lost_open_surface_is_replaced() {
    let mut s = scenario_a();
    // surface 1 shows rank 2
    assert_eq!(s.surface_closed(1), vec![open(5, 280, 3)]);
    assert_eq!(s.slots(), &vec![slot(3, 5), slot(2, 4), slot(5, 3), slot(0, 2)]);
    assert!(s.surface_closed(1).is_empty());
    assert_eq!(s.slots(), &vec![slot(3, 5), slot(2, 4), slot(5, 3), slot(0, 2)]);
    assert_eq!(
        s.surface_closed(4),
        vec![SurfaceOp::OpenSurface { slot_id: 6, offset: 550, content: SurfaceContent::HiddenIndicator }]
    );
    assert_eq!(s.indicator(), Some(6));
    assert!(s.surface_closed(4).is_empty());
    assert!(s.surfaces_left());
}

#[test]
fn a_second_close_report_changes_nothing() {
    let mut s = scenario_a();
    s.set_quiet(true);
    assert!(s.surface_closed(2).is_empty());
    assert_eq!(s.slot_content(2).map(|r| r.unit.id), None);
    assert_eq!(s.slot_content(1).map(|r| r.unit.id), Some(3));
    assert!(s.surface_closed(2).is_empty());
    assert_eq!(s.slot_content(1).map(|r| r.unit.id), Some(3));
}

#[test]
fn dismiss_and_reply_report_then_remove() {
    let mut s = NotificationStack::new();
    s.notify(unit(1, "a", -1));
    s.notify(unit(2, "b", -1));
    let (ops, cmd) = s.dismiss(2);
    assert_eq!(ops, vec![close(0)]);
    match cmd {
        Some(NotifyCommand::ActionInvoked { id, action_key }) => {
            assert_eq!(id, 2);
            assert_eq!(action_key, "default");
        }
        _ => panic!("expected an action"),
    }
    let (ops, cmd) = s.reply(1, "thanks".to_string());
    assert_eq!(ops, vec![close(1)]);
    match cmd {
        Some(NotifyCommand::InlineReply { id, text }) => {
            assert_eq!(id, 1);
            assert_eq!(text, "thanks");
        }
        _ => panic!("expected a reply"),
    }
    assert!(s.dismiss(1).1.is_none());
    assert!(s.records().is_empty());
}

#[test]
fn reply_text_goes_to_the_record_shown() {
    let mut s = NotificationStack::new();
    s.notify(unit(1, "a", -1));
    s.notify(unit(2, "b", -1));
    s.set_reply_text(0, "hello".to_string());
    assert_eq!(s.records()[1].inline_reply, "hello");
    assert_eq!(s.records()[0].inline_reply, "");
    s.set_reply_text(99, "lost".to_string());
    assert_eq!(s.records()[1].inline_reply, "hello");
}

#[test]
fn clear_all_closes_everything() {
    let mut s = scenario_a();
    let ops = s.clear_all();
    assert_eq!(ops, vec![close(3), close(2), close(1), close(0), close(4)]);
    assert!(s.records().is_empty());
    assert!(s.hidden_notification().is_empty());
    assert_eq!(s.slot_content(3).map(|r| r.unit.id), Some(5));
    assert!(!s.contains_id(5));
    assert_eq!(s.notify(unit(8, "x", -1)), (6, vec![open(5, 10, 6)]));
}

#[test]
fn room_is_reported() {
    let s = NotificationStack::new();
    assert!(s.has_room());
}
