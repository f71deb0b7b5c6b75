use online_tracker::classify::Status;
use online_tracker::roster::{format_duration, roster_line, roster_reply};
use online_tracker::store::PresenceStore;
use online_tracker::tracker::load_snapshot;

#[test]
fn duration_one_hour_one_minute_one_second() {
    assert_eq!(format_duration(3661), "1h 1m 1s");
}

#[test]
fn duration_zero() {
    assert_eq!(format_duration(0), "0h 0m 0s");
}

#[test]
fn duration_just_under_a_minute() {
    assert_eq!(format_duration(59), "0h 0m 59s");
}

#[test]
fn duration_whole_hour() {
    assert_eq!(format_duration(3600), "1h 0m 0s");
}

#[test]
fn duration_multi_digit_fields() {
    assert_eq!(format_duration(36610), "10h 10m 10s");
    assert_eq!(format_duration(86400), "24h 0m 0s");
    assert_eq!(format_duration(7325), "2h 2m 5s");
}

#[test]
fn line_for_one_entity() {
    assert_eq!(
        roster_line("alice", 0, 3661),
        "alice has been connected for 1h 1m 1s\n"
    );
}

#[test]
fn query_after_an_hour_a_minute_and_a_second() {
    let t0 = 1000;
    let t1 = 2000;
    let rows = vec![("a".to_string(), t0), ("b".to_string(), t1)];
    let reply = roster_reply(&rows, t0 + 3661);
    assert!(reply.contains("a has been connected for 1h 1m 1s\n"));
}

#[test]
fn reply_lists_every_row_in_order() {
    let rows = vec![("a".to_string(), 100), ("b".to_string(), 40)];
    assert_eq!(
        roster_reply(&rows, 160),
        "the following users are online:\n\
         a has been connected for 0h 1m 0s\n\
         b has been connected for 0h 2m 0s\n"
    );
}

#[test]
fn reply_for_empty_roster_is_just_the_heading() {
    let rows: Vec<(String, u64)> = Vec::new();
    assert_eq!(roster_reply(&rows, 500), "the following users are online:\n");
}

#[test]
fn snapshot_to_reply_end_to_end() {
    let mut store = PresenceStore::new();
    let listing = vec![(7, Status::Active), (8, Status::Offline)];
    load_snapshot(&mut store, &listing, 1000);
    let rows: Vec<(String, u64)> = store
        .snapshot_view()
        .into_iter()
        .map(|(id, since)| (format!("user{}", id), since))
        .collect();
    assert_eq!(
        roster_reply(&rows, 4661),
        "the following users are online:\n\
         user7 has been connected for 1h 1m 1s\n"
    );
}
