use ares::{pod_event_action, record_event_action, ObjectIdentity, PodAction, RecordAction, WatchEventKind};

fn id(uid: &str, version: &str) -> ObjectIdentity {
    ObjectIdentity { uid: Some(uid.to_string()), resource_version: Some(version.to_string()) }
}

#[test]
fn pod_events_recollect_only_on_add_and_delete() {
    assert_eq!(pod_event_action(WatchEventKind::Added), PodAction::Recollect);
    assert_eq!(pod_event_action(WatchEventKind::Deleted), PodAction::Recollect);
    assert_eq!(pod_event_action(WatchEventKind::Modified), PodAction::Ignore);
    assert_eq!(pod_event_action(WatchEventKind::Bookmark), PodAction::Ignore);
    assert_eq!(pod_event_action(WatchEventKind::Error), PodAction::Fail);
}

#[test]
fn record_events_on_the_watched_record() {
    let w = id("u1", "5");
    assert_eq!(record_event_action(&w, WatchEventKind::Added, &id("u1", "5")), RecordAction::Continue);
    assert_eq!(record_event_action(&w, WatchEventKind::Added, &id("u1", "6")), RecordAction::Refresh);
    assert_eq!(record_event_action(&w, WatchEventKind::Modified, &id("u1", "6")), RecordAction::Refresh);
    assert_eq!(record_event_action(&w, WatchEventKind::Deleted, &id("u1", "6")), RecordAction::Deleted);
    assert_eq!(record_event_action(&w, WatchEventKind::Bookmark, &id("u1", "7")), RecordAction::Continue);
    assert_eq!(record_event_action(&w, WatchEventKind::Error, &id("u1", "7")), RecordAction::Fail);
}

#[test]
fn record_events_on_other_records_pass() {
    let w = id("u1", "5");
    assert_eq!(record_event_action(&w, WatchEventKind::Modified, &id("u2", "6")), RecordAction::Continue);
    assert_eq!(record_event_action(&w, WatchEventKind::Deleted, &id("u2", "6")), RecordAction::Continue);
    assert_eq!(record_event_action(&w, WatchEventKind::Added, &id("u2", "6")), RecordAction::Continue);
    let none = ObjectIdentity { uid: None, resource_version: None };
    assert_eq!(record_event_action(&w, WatchEventKind::Deleted, &none), RecordAction::Continue);
}
