use deskbar::notify::{
    assigned_id, expiry_ms, notification_time, urgency_classes, urgency_from_hint, CloseReason, Notification, NotifyMessage, Notifications,
    Urgency,
};
use deskbar::overview::OverviewData;
use deskbar::hyprland::WorkspaceInfo;
use deskbar::time::{date_time, hour_minute, ClockTime};

fn note(id: u32, generation: u64, summary: &str) -> Notification<()> {
    Notification {
        id,
        generation,
        app_name: "app".to_string(),
        app_icon: None,
        summary: summary.to_string(),
        body: String::new(),
        actions: vec![],
        hint_image: None,
        urgency: Urgency::Normal,
        time: ClockTime { hour: 7, minute: 3 },
    }
}

fn summaries(data: &Notifications<&'static str, ()>) -> Vec<(u32, String)> {
    data.notifications.iter().map(|n| (n.id, n.summary.clone())).collect()
}

#[test]
fn new_notifications_go_first() {
    let mut data: Notifications<&'static str, ()> = Notifications::new();
    assert!(!data.visible());
    let step = data.handle_event(Some(NotifyMessage::Notification(note(1, 0, "a"))));
    assert!(step.action.rebuild);
    assert!(step.report.is_none());
    data.handle_event(Some(NotifyMessage::Notification(note(2, 0, "b"))));
    assert_eq!(summaries(&data), vec![(2, "b".to_string()), (1, "a".to_string())]);
    assert!(data.visible());
}

#[test]
fn arrival_replaces_same_id_in_place() {
    let mut data: Notifications<&'static str, ()> = Notifications::new();
    data.handle_event(Some(NotifyMessage::Notification(note(1, 0, "a"))));
    data.handle_event(Some(NotifyMessage::Notification(note(2, 0, "b"))));
    data.handle_event(Some(NotifyMessage::Notification(note(1, 1, "a2"))));
    assert_eq!(summaries(&data), vec![(2, "b".to_string()), (1, "a2".to_string())]);
    assert_eq!(data.notifications[1].generation, 1);
}

#[test]
fn close_reports_only_when_connected() {
    let mut data: Notifications<&'static str, ()> = Notifications::new();
    data.handle_event(Some(NotifyMessage::Notification(note(1, 0, "a"))));
    let step = data.handle_event(Some(NotifyMessage::Close(1, None, CloseReason::Dismissed)));
    assert!(step.action.rebuild);
    assert_eq!(step.report, None);
    assert!(!data.visible());

    let step = data.handle_event(Some(NotifyMessage::Connected("bus")));
    assert!(!step.action.rebuild);
    assert_eq!(data.connection, Some("bus"));
    data.handle_event(Some(NotifyMessage::Notification(note(4, 2, "d"))));
    let step = data.handle_event(Some(NotifyMessage::Close(4, Some(2), CloseReason::Expired)));
    assert_eq!(step.report, Some((4, CloseReason::Expired)));
    assert!(data.notifications.is_empty());
}

#[test]
fn close_of_other_generation_or_unknown_id_does_nothing() {
    let mut data: Notifications<&'static str, ()> = Notifications::new();
    data.handle_event(Some(NotifyMessage::Connected("bus")));
    data.handle_event(Some(NotifyMessage::Notification(note(3, 5, "c"))));
    let step = data.handle_event(Some(NotifyMessage::Close(3, Some(4), CloseReason::Closed)));
    assert!(!step.action.rebuild);
    assert_eq!(step.report, None);
    let step = data.handle_event(Some(NotifyMessage::Close(9, None, CloseReason::Undefined)));
    assert!(!step.action.rebuild);
    assert_eq!(summaries(&data), vec![(3, "c".to_string())]);
    assert!(!data.handle_event(None).action.rebuild);
}

#[test]
fn chosen_actions_are_reported_once_connected() {
    let mut data: Notifications<&'static str, ()> = Notifications::new();
    let key = "open".to_string();
    assert_eq!(data.action_chosen(5, &key), None);
    data.handle_event(Some(NotifyMessage::Connected("bus")));
    assert_eq!(data.action_chosen(5, &key), Some((5, "open".to_string())));
}

#[test]
fn classes_and_times() {
    assert_eq!(urgency_classes(Urgency::Low), "notification low");
    assert_eq!(urgency_classes(Urgency::Normal), "notification normal");
    assert_eq!(urgency_classes(Urgency::Critical), "notification critical");
    assert_eq!(notification_time(&note(1, 0, "x")), "07:03");
    assert_eq!(hour_minute(ClockTime { hour: 13, minute: 45 }), "13:45");
    assert_eq!(date_time(ClockTime { hour: 0, minute: 9 }), ("00".to_string(), "09".to_string()));
}

#[test]
fn overview_takes_each_report() {
    let mut data = OverviewData::new();
    assert!(data.workspaces.is_empty());
    let action = data.handle_event(Some(vec![WorkspaceInfo { id: 2, windows: 1 }]));
    assert!(action.rebuild);
    assert_eq!(data.workspaces, vec![WorkspaceInfo { id: 2, windows: 1 }]);
    assert!(!data.handle_event(None).rebuild);
    assert_eq!(data.workspaces.len(), 1);
}

#[test]
fn closing_an_arrival_leaves_none_with_its_id() {
    let mut data: Notifications<&'static str, ()> = Notifications::new();
    data.handle_event(Some(NotifyMessage::Notification(note(1, 0, "a"))));
    data.handle_event(Some(NotifyMessage::Notification(note(2, 0, "b"))));
    data.handle_event(Some(NotifyMessage::Notification(note(2, 3, "b2"))));
    data.handle_event(Some(NotifyMessage::Close(2, Some(3), CloseReason::Dismissed)));
    assert!(data.notifications.iter().all(|n| n.id != 2));
    assert_eq!(summaries(&data), vec![(1, "a".to_string())]);
}

#[test]
fn service_decisions() {
    assert_eq!(urgency_from_hint(Some(0)), Urgency::Low);
    assert_eq!(urgency_from_hint(Some(1)), Urgency::Normal);
    assert_eq!(urgency_from_hint(Some(2)), Urgency::Critical);
    assert_eq!(urgency_from_hint(Some(7)), Urgency::Normal);
    assert_eq!(urgency_from_hint(None), Urgency::Normal);
    assert_eq!(assigned_id(0, 0), 1);
    assert_eq!(assigned_id(0, 41), 42);
    assert_eq!(assigned_id(9, 41), 9);
    assert_eq!(assigned_id(0, u32::MAX), 1);
    assert_eq!(expiry_ms(-1), Some(5000));
    assert_eq!(expiry_ms(0), None);
    assert_eq!(expiry_ms(1500), Some(1500));
}
