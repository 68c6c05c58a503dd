use bitcoin_alerts::dispatcher::record_publish;
use bitcoin_alerts::notification::{notification_id_for, NotificationStore};
use bitcoin_alerts::primitives::Target;
use bitcoin_alerts::util::sha512;

#[test]
fn identity_is_a_digest_prefix() {
    let id = notification_id_for(Target::Ntfy, "hello", "<b>hello</b>");
    assert_eq!(id.len(), 32);
    assert_eq!(id, sha512("ntfy:hello:<b>hello</b>")[..32].to_string());
    assert_ne!(id, notification_id_for(Target::Nostr, "hello", "<b>hello</b>"));
    assert_eq!(id, notification_id_for(Target::Ntfy, "hello", "<b>hello</b>"));
}

#[test]
fn target_names() {
    assert_eq!(Target::Matrix.as_str(), "matrix");
    assert_eq!(Target::Nostr.as_str(), "nostr");
    assert_eq!(Target::Ntfy.as_str(), "ntfy");
}

#[test]
fn enqueue_twice_keeps_one_row() {
    let mut store = NotificationStore::new();
    let a = store.create_notification(Target::Ntfy, "text", "html");
    let b = store.create_notification(Target::Ntfy, "text", "html");
    assert_eq!(a, b);
    let rows = store.get_notifications_by_target(Target::Ntfy);
    assert_eq!(rows.len(), 1);
    assert_eq!(rows[0].0, a);
    assert_eq!(rows[0].1.plain_text, "text");
    assert_eq!(rows[0].1.html, "html");
    assert!(store.get_notifications_by_target(Target::Nostr).is_empty());
}

#[test]
fn delete_twice_is_harmless() {
    let mut store = NotificationStore::new();
    let id = store.create_notification(Target::Nostr, "x", "x");
    store.delete_notification(&id);
    store.delete_notification(&id);
    store.delete_notification("not-an-id");
    assert!(store.get_notifications_by_target(Target::Nostr).is_empty());
    assert_eq!(store.target_of(&id), None);
}

#[test]
fn listing_filters_by_target() {
    let mut store = NotificationStore::new();
    store.create_notification(Target::Ntfy, "a", "a");
    store.create_notification(Target::Nostr, "a", "a");
    store.create_notification(Target::Ntfy, "b", "b");
    store.create_notification(Target::Matrix, "c", "<i>c</i>");
    let ntfy = store.get_notifications_by_target(Target::Ntfy);
    assert_eq!(ntfy.len(), 2);
    assert!(ntfy.iter().all(|(_, n)| n.target == Target::Ntfy));
    assert_eq!(store.get_notifications_by_target(Target::Nostr).len(), 1);
    assert_eq!(store.get_notifications_by_target(Target::Matrix).len(), 1);
}

#[test]
fn failing_channel_does_not_hold_back_another() {
    let mut store = NotificationStore::new();
    let ntfy_id = store.create_notification(Target::Ntfy, "event", "event");
    let nostr_id = store.create_notification(Target::Nostr, "event", "event");
    for cycle in 1..=5 {
        for (id, _) in store.get_notifications_by_target(Target::Nostr) {
            record_publish(&mut store, Target::Nostr, &id, true);
        }
        for (id, _) in store.get_notifications_by_target(Target::Ntfy) {
            record_publish(&mut store, Target::Ntfy, &id, false);
        }
        assert!(store.get_notifications_by_target(Target::Nostr).is_empty(), "cycle {cycle}");
        let ntfy = store.get_notifications_by_target(Target::Ntfy);
        assert_eq!(ntfy.len(), 1);
        assert_eq!(ntfy[0].0, ntfy_id);
    }
    assert_eq!(store.target_of(&nostr_id), None);
    assert_eq!(store.target_of(&ntfy_id), Some(Target::Ntfy));
}

#[test]
fn dispatcher_never_deletes_another_channels_row() {
    let mut store = NotificationStore::new();
    let nostr_id = store.create_notification(Target::Nostr, "event", "event");
    record_publish(&mut store, Target::Ntfy, &nostr_id, true);
    assert_eq!(store.target_of(&nostr_id), Some(Target::Nostr));
}
