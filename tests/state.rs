use planabot::state::{
    is_group_chat, ChatKind, GroupRegistry, PlanabrainReplyRecord, PlanabrainReplyTracker,
    StateStore, REPLY_CAPACITY,
};

fn record(chat_id: i64, message_id: i32) -> PlanabrainReplyRecord {
    PlanabrainReplyRecord { chat_id, message_id }
}

#[test]
fn repeated_reply_is_promoted_not_duplicated() {
    let mut store = StateStore::new(PlanabrainReplyTracker::new(REPLY_CAPACITY), GroupRegistry::new());
    store.record_reply(100, 4);
    let first = store.record_reply(100, 5);
    let second = store.record_reply(100, 5);
    assert!(store.is_known_reply(100, 5));
    assert_eq!(first.len(), second.len());
    assert_eq!(second, vec![record(100, 4), record(100, 5)]);
}

#[test]
fn promotion_moves_an_older_reply_to_the_newest_end() {
    let mut tracker = PlanabrainReplyTracker::new(10);
    tracker.insert(1, 1);
    tracker.insert(2, 2);
    tracker.insert(1, 1);
    assert_eq!(tracker.records(), vec![record(2, 2), record(1, 1)]);
}

#[test]
fn insertion_beyond_capacity_evicts_the_oldest() {
    let mut tracker = PlanabrainReplyTracker::new(REPLY_CAPACITY);
    for i in 0..201 {
        tracker.insert(7, i);
    }
    let records = tracker.records();
    assert_eq!(records.len(), 200);
    assert_eq!(records[0], record(7, 1));
    assert_eq!(records[199], record(7, 200));
    assert!(!tracker.contains(7, 0));
    assert!(tracker.contains(7, 200));
}

#[test]
fn reply_list_round_trips_through_records() {
    for n in [0usize, 1, 200, 250] {
        let mut tracker = PlanabrainReplyTracker::new(REPLY_CAPACITY);
        for i in 0..n {
            tracker.insert(i as i64, i as i32);
        }
        let saved = tracker.records();
        let reloaded = PlanabrainReplyTracker::from_records(REPLY_CAPACITY, saved.clone());
        assert_eq!(reloaded.records(), saved);
        assert_eq!(saved.len(), n.min(200));
    }
}

#[test]
fn loading_more_records_than_capacity_keeps_the_newest() {
    let records: Vec<_> = (0..5).map(|i| record(1, i)).collect();
    let tracker = PlanabrainReplyTracker::from_records(3, records);
    assert_eq!(tracker.records(), vec![record(1, 2), record(1, 3), record(1, 4)]);
}

#[test]
fn zero_capacity_keeps_nothing() {
    let mut tracker = PlanabrainReplyTracker::new(0);
    tracker.insert(1, 1);
    assert!(tracker.records().is_empty());
}

#[test]
fn group_registry_is_sorted_and_deduplicated() {
    let registry = GroupRegistry::from_ids(&vec![5, -3, 5, 2]);
    assert_eq!(registry.ids(), vec![-3, 2, 5]);
    assert!(registry.contains(2));
    assert!(!registry.contains(4));
}

#[test]
fn group_insert_reports_only_new_chats() {
    let mut registry = GroupRegistry::new();
    assert!(registry.insert(10));
    assert!(!registry.insert(10));
    assert!(registry.insert(-1));
    assert_eq!(registry.ids(), vec![-1, 10]);
}

#[test]
fn only_group_chats_are_recorded_and_written() {
    let mut store = StateStore::new(PlanabrainReplyTracker::new(REPLY_CAPACITY), GroupRegistry::new());
    assert_eq!(store.record_group(9, ChatKind::Private), None);
    assert_eq!(store.record_group(9, ChatKind::Channel), None);
    assert_eq!(store.record_group(9, ChatKind::Supergroup), Some(vec![9]));
    assert_eq!(store.record_group(9, ChatKind::Group), None);
    assert_eq!(store.record_group(3, ChatKind::Group), Some(vec![3, 9]));
    assert_eq!(store.list_groups(), vec![3, 9]);
}

#[test]
fn chat_kinds() {
    assert!(is_group_chat(ChatKind::Group));
    assert!(is_group_chat(ChatKind::Supergroup));
    assert!(!is_group_chat(ChatKind::Private));
    assert!(!is_group_chat(ChatKind::Channel));
}

#[test]
fn groups_file_round_trip() {
    let registry = GroupRegistry::from_json("[5, -3, 5]");
    assert_eq!(registry.ids(), vec![-3, 5]);
    let text = registry.to_json();
    assert_eq!(text, "[\n  -3,\n  5\n]");
    assert_eq!(GroupRegistry::from_json(&text).ids(), vec![-3, 5]);
}

#[test]
fn unreadable_groups_file_is_an_empty_registry() {
    assert!(GroupRegistry::from_json("not json").ids().is_empty());
    assert!(GroupRegistry::from_json("[1.5]").ids().is_empty());
    assert_eq!(GroupRegistry::new().to_json(), "[]");
}

#[test]
fn store_writes_groups_file_after_new_group() {
    let mut store = StateStore::new(PlanabrainReplyTracker::new(REPLY_CAPACITY), GroupRegistry::new());
    store.record_group(4, ChatKind::Group);
    store.record_group(-2, ChatKind::Group);
    assert_eq!(store.groups_json(), "[\n  -2,\n  4\n]");
}
