use sure_shot::store::MessageStore;
use sure_shot::types::{Attachment, ReceivedMessage};

fn msg(body: &str, ts: &str) -> ReceivedMessage {
    ReceivedMessage {
        from: "192.168.1.10".to_string(),
        from_name: "alice".to_string(),
        message: body.to_string(),
        message_type: "text".to_string(),
        timestamp: ts.to_string(),
        is_self: false,
        attachments: Vec::new(),
    }
}

#[test]
fn append_then_recent_one_returns_it() {
    let mut store = MessageStore::new();
    store.save_message(msg("hello", "2024-01-01T10:00:00+00:00"));
    let recent = store.get_recent_messages(1);
    assert_eq!(recent.len(), 1);
    assert_eq!(recent[0].message, "hello");
    assert_eq!(recent[0].timestamp, "2024-01-01T10:00:00+00:00");
}

#[test]
fn hundred_and_one_appends_cap_working_set() {
    let mut store = MessageStore::new();
    for i in 0..101 {
        store.save_message(msg(&format!("m{}", i), &format!("2024-01-01T10:00:{:02}", i % 60)));
    }
    assert_eq!(store.get_message_count(), 101);
    let working = store.working_snapshot();
    assert_eq!(working.len(), 100);
    // The oldest message was evicted from the working set, in FIFO order.
    assert_eq!(working[0].message, "m1");
    assert_eq!(working[99].message, "m100");
    // The durable log still holds all of them.
    let all = store.get_recent_messages(200);
    assert_eq!(all.len(), 101);
    assert_eq!(all[0].message, "m0");
    assert_eq!(all[100].message, "m100");
}

#[test]
fn recent_returns_newest_last() {
    let mut store = MessageStore::new();
    store.save_message(msg("one", "2024-01-01T10:00:00+00:00"));
    store.save_message(msg("two", "2024-01-01T10:00:01+00:00"));
    store.save_message(msg("three", "2024-01-01T10:00:02+00:00"));
    let recent = store.get_recent_messages(2);
    assert_eq!(recent.len(), 2);
    assert_eq!(recent[0].message, "two");
    assert_eq!(recent[1].message, "three");
}

#[test]
fn ids_grow_from_one() {
    let mut store = MessageStore::new();
    let a = store.save_message(msg("a", "t1"));
    let b = store.save_message(msg("b", "t2"));
    assert_eq!(a, 1);
    assert_eq!(b, 2);
}

#[test]
fn range_is_inclusive_and_oldest_first() {
    let mut store = MessageStore::new();
    // Inserted out of timestamp order on purpose.
    store.save_message(msg("late", "2024-01-03T00:00:00+00:00"));
    store.save_message(msg("early", "2024-01-01T00:00:00+00:00"));
    store.save_message(msg("middle", "2024-01-02T00:00:00+00:00"));
    store.save_message(msg("outside", "2024-02-01T00:00:00+00:00"));
    let hits = store.get_messages_by_date_range(
        "2024-01-01T00:00:00+00:00",
        "2024-01-03T00:00:00+00:00",
        None,
    );
    assert_eq!(hits.len(), 3);
    assert_eq!(hits[0].message, "early");
    assert_eq!(hits[1].message, "middle");
    assert_eq!(hits[2].message, "late");
}

#[test]
fn range_limit_truncates_from_the_oldest() {
    let mut store = MessageStore::new();
    store.save_message(msg("b", "2024-01-02T00:00:00+00:00"));
    store.save_message(msg("a", "2024-01-01T00:00:00+00:00"));
    store.save_message(msg("c", "2024-01-03T00:00:00+00:00"));
    let hits = store.get_messages_by_date_range(
        "2024-01-01T00:00:00+00:00",
        "2024-01-03T00:00:00+00:00",
        Some(2),
    );
    assert_eq!(hits.len(), 2);
    assert_eq!(hits[0].message, "a");
    assert_eq!(hits[1].message, "b");
}

#[test]
fn search_finds_matches_newest_first() {
    let mut store = MessageStore::new();
    store.save_message(msg("the quick fox", "2024-01-01T00:00:00+00:00"));
    store.save_message(msg("lazy dog", "2024-01-02T00:00:00+00:00"));
    store.save_message(msg("quick brown", "2024-01-03T00:00:00+00:00"));
    let hits = store.search_messages("quick", None);
    assert_eq!(hits.len(), 2);
    assert_eq!(hits[0].message, "quick brown");
    assert_eq!(hits[1].message, "the quick fox");
}

#[test]
fn search_matches_sender_fields_too() {
    let mut store = MessageStore::new();
    store.save_message(msg("hello", "2024-01-01T00:00:00+00:00"));
    let by_name = store.search_messages("alice", None);
    assert_eq!(by_name.len(), 1);
    let by_ip = store.search_messages("192.168.1.10", None);
    assert_eq!(by_ip.len(), 1);
    let none = store.search_messages("bob", None);
    assert_eq!(none.len(), 0);
}

#[test]
fn search_limit_keeps_the_newest() {
    let mut store = MessageStore::new();
    store.save_message(msg("quick one", "2024-01-01T00:00:00+00:00"));
    store.save_message(msg("quick two", "2024-01-02T00:00:00+00:00"));
    store.save_message(msg("quick three", "2024-01-03T00:00:00+00:00"));
    let hits = store.search_messages("quick", Some(2));
    assert_eq!(hits.len(), 2);
    assert_eq!(hits[0].message, "quick three");
    assert_eq!(hits[1].message, "quick two");
}

#[test]
fn integrity_holds_after_appends() {
    let mut store = MessageStore::new();
    assert!(store.verify_integrity());
    for i in 0..5 {
        store.save_message(msg(&format!("m{}", i), "t"));
    }
    assert!(store.verify_integrity());
}

#[test]
fn from_log_rebuilds_log_and_working_set() {
    let mut rows = Vec::new();
    for i in 0..3 {
        rows.push(msg(&format!("m{}", i), &format!("t{}", i)));
    }
    let store = MessageStore::from_log(rows);
    assert_eq!(store.get_message_count(), 3);
    let working = store.working_snapshot();
    assert_eq!(working.len(), 3);
    assert_eq!(working[2].message, "m2");
}

#[test]
fn attachments_survive_the_store() {
    let mut store = MessageStore::new();
    let mut m = msg("with file", "2024-01-01T00:00:00+00:00");
    m.attachments.push(Attachment {
        id: "a1".to_string(),
        filename: "photo.png".to_string(),
        mime_type: "image/png".to_string(),
        size: 2048,
        data: "aGVsbG8=".to_string(),
        thumbnail: Some("dGh1bWI=".to_string()),
    });
    store.save_message(m);
    let recent = store.get_recent_messages(1);
    assert_eq!(recent[0].attachments.len(), 1);
    assert_eq!(recent[0].attachments[0].filename, "photo.png");
    assert_eq!(recent[0].attachments[0].size, 2048);
    assert_eq!(recent[0].attachments[0].thumbnail, Some("dGh1bWI=".to_string()));
}
