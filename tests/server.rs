use lala_bar::server::{
    default_action, CheckStep, ExistenceCheck, NotifyCommand, NotifyMessage, LaLaMako,
    Signal, VersionInfo, NOTIFICATION_CLOSED_BY_DBUS,
};

fn server() -> LaLaMako {
    LaLaMako::new(
        vec!["body".to_string(), "actions".to_string()],
        VersionInfo {
            name: "LaLaMako".to_string(),
            vendor: "waycrate".to_string(),
            version: "0.1.0".to_string(),
            spec_version: "0".to_string(),
        },
    )
}

fn notify(s: &LaLaMako, replaces_id: u32, summery: &str) -> NotifyMessage {
    s.notify(
        "app".to_string(),
        replaces_id,
        "icon".to_string(),
        summery.to_string(),
        "body".to_string(),
        vec!["default".to_string(), "Open".to_string()],
        5,
        1,
        false,
        None,
    )
}

#[test]
fn notify_forwards_the_submission() {
    let s = server();
    match notify(&s, 7, "again") {
        NotifyMessage::UnitAdd(u) => {
            assert_eq!(u.id, 7);
            assert_eq!(u.summery, "again");
            assert_eq!(u.app_name, "app");
            assert_eq!(u.icon, "icon");
            assert_eq!(u.body, "body");
            assert_eq!(u.actions, vec!["default".to_string(), "Open".to_string()]);
            assert_eq!(u.timeout, 5);
            assert_eq!(u.urgency, 1);
        }
        NotifyMessage::UnitRemove(_) => panic!("expected an addition"),
    }
    assert!(matches!(notify(&s, 0, "new"), NotifyMessage::UnitAdd(u) if u.id == 0));
}

#[test]
fn close_emits_closed_by_call_then_removal() {
    let s = server();
    let (sig, msg) = s.close_notification(9);
    match sig {
        Signal::NotificationClosed { id, reason } => {
            assert_eq!(id, 9);
            assert_eq!(reason, NOTIFICATION_CLOSED_BY_DBUS);
            assert_eq!(reason, 3);
        }
        _ => panic!("expected a closed signal"),
    }
    assert!(matches!(msg, NotifyMessage::UnitRemove(9)));
}

#[test]
fn static_answers() {
    let s = server();
    assert_eq!(s.get_capabilities(), vec!["body".to_string(), "actions".to_string()]);
    let (name, vendor, version, spec) = s.get_server_information();
    assert_eq!(name, "LaLaMako");
    assert_eq!(vendor, "waycrate");
    assert_eq!(version, "0.1.0");
    assert_eq!(spec, "0");
}

#[test]
fn commands_become_their_signals() {
    match (NotifyCommand::ActionInvoked { id: 4, action_key: default_action() }).into_signal() {
        Signal::ActionInvoked { id, action_key } => {
            assert_eq!(id, 4);
            assert_eq!(action_key, "default");
        }
        _ => panic!("wrong signal"),
    }
    match (NotifyCommand::InlineReply { id: 5, text: "hi".to_string() }).into_signal() {
        Signal::NotificationReplied { id, text } => {
            assert_eq!(id, 5);
            assert_eq!(text, "hi");
        }
        _ => panic!("wrong signal"),
    }
    match (NotifyCommand::NotificationClosed { id: 6, reason: 2 }).into_signal() {
        Signal::NotificationClosed { id, reason } => {
            assert_eq!(id, 6);
            assert_eq!(reason, 2);
        }
        _ => panic!("wrong signal"),
    }
}

#[test]
fn existence_check_fails_closed() {
    let mut c = ExistenceCheck::new(3);
    assert_eq!(c.on_sent(false), CheckStep::Answer(false));
    assert_eq!(c.on_sent(true), CheckStep::PollAgain);
    assert_eq!(c.on_poll(None), CheckStep::PollAgain);
    assert_eq!(c.on_poll(None), CheckStep::PollAgain);
    assert_eq!(c.on_poll(None), CheckStep::Answer(false));
    assert_eq!(c.attempts_left, 0);
    assert_eq!(c.on_sent(true), CheckStep::Answer(false));
}

#[test]
fn existence_check_takes_the_reply() {
    let mut c = ExistenceCheck::new(3);
    assert_eq!(c.on_poll(None), CheckStep::PollAgain);
    assert_eq!(c.on_poll(Some(true)), CheckStep::Answer(true));
    let mut d = ExistenceCheck::new(1);
    assert_eq!(d.on_poll(Some(false)), CheckStep::Answer(false));
}
