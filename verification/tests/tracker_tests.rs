use online_tracker::classify::{classify, Status};
use online_tracker::store::PresenceStore;
use online_tracker::tracker::{apply_notification, build_snapshot, load_snapshot};

#[test]
fn classifier_partition() {
    assert!(classify(Status::Busy));
    assert!(classify(Status::Idle));
    assert!(classify(Status::Invisible));
    assert!(classify(Status::Active));
    assert!(!classify(Status::Offline));
    assert!(!classify(Status::Unknown));
}

#[test]
fn replace_all_installs_snapshot() {
    let mut store = PresenceStore::new();
    assert_eq!(store.len(), 0);
    store.replace_all(vec![(1, 100)]);
    assert_eq!(store.snapshot_view(), vec![(1, 100)]);
    assert_eq!(store.get_since(1), Some(100));
}

#[test]
fn replace_all_discards_prior_entries() {
    let mut store = PresenceStore::new();
    store.upsert(1, 5);
    store.upsert(2, 6);
    store.replace_all(vec![(3, 7)]);
    assert!(!store.contains(1));
    assert!(!store.contains(2));
    assert_eq!(store.get_since(3), Some(7));
    assert_eq!(store.len(), 1);
}

#[test]
fn upsert_is_idempotent() {
    let mut store = PresenceStore::new();
    store.upsert(1, 10);
    store.upsert(1, 99);
    assert_eq!(store.get_since(1), Some(10));
    assert_eq!(store.len(), 1);
}

#[test]
fn remove_absent_is_noop() {
    let mut store = PresenceStore::new();
    store.upsert(1, 10);
    store.remove(2);
    assert_eq!(store.snapshot_view(), vec![(1, 10)]);
}

#[test]
fn remove_present_deletes() {
    let mut store = PresenceStore::new();
    store.upsert(1, 10);
    store.remove(1);
    assert_eq!(store.len(), 0);
    assert_eq!(store.get_since(1), None);
}

#[test]
fn repeated_online_notification_keeps_timestamp() {
    let mut store = PresenceStore::new();
    apply_notification(&mut store, 1, Status::Active, 1000);
    assert_eq!(store.get_since(1), Some(1000));
    apply_notification(&mut store, 1, Status::Active, 1005);
    assert_eq!(store.get_since(1), Some(1000));
    assert_eq!(store.len(), 1);
}

#[test]
fn offline_notification_removes_entity() {
    let mut store = PresenceStore::new();
    store.upsert(1, 50);
    apply_notification(&mut store, 1, Status::Offline, 60);
    assert_eq!(store.len(), 0);
}

#[test]
fn unknown_status_is_treated_as_offline() {
    let mut store = PresenceStore::new();
    apply_notification(&mut store, 1, Status::Unknown, 70);
    assert_eq!(store.len(), 0);
    assert!(!store.contains(1));
}

#[test]
fn status_change_within_online_class_keeps_timestamp() {
    let mut store = PresenceStore::new();
    apply_notification(&mut store, 1, Status::Active, 100);
    apply_notification(&mut store, 1, Status::Idle, 200);
    apply_notification(&mut store, 1, Status::Busy, 300);
    assert_eq!(store.get_since(1), Some(100));
}

#[test]
fn last_notification_wins() {
    let mut store = PresenceStore::new();
    apply_notification(&mut store, 1, Status::Active, 10);
    apply_notification(&mut store, 2, Status::Active, 11);
    apply_notification(&mut store, 1, Status::Offline, 12);
    apply_notification(&mut store, 1, Status::Idle, 13);
    apply_notification(&mut store, 2, Status::Offline, 14);
    assert_eq!(store.get_since(1), Some(13));
    assert!(!store.contains(2));
    assert_eq!(store.len(), 1);
}

#[test]
fn build_snapshot_keeps_only_online_entities() {
    let listing = vec![
        (1, Status::Active),
        (2, Status::Offline),
        (3, Status::Idle),
        (4, Status::Unknown),
    ];
    assert_eq!(build_snapshot(&listing, 50), vec![(1, 50), (3, 50)]);
}

#[test]
fn load_snapshot_opens_new_epoch() {
    let mut store = PresenceStore::new();
    store.upsert(42, 1);
    let listing = vec![(5, Status::Idle), (6, Status::Offline)];
    load_snapshot(&mut store, &listing, 200);
    assert!(!store.contains(42));
    assert_eq!(store.get_since(5), Some(200));
    assert!(!store.contains(6));
    assert_eq!(store.len(), 1);
}

#[test]
fn empty_listing_yields_empty_store() {
    let mut store = PresenceStore::new();
    store.upsert(1, 10);
    let listing: Vec<(u64, Status)> = Vec::new();
    load_snapshot(&mut store, &listing, 20);
    assert_eq!(store.len(), 0);
}
