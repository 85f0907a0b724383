//! Clipboard history tests: ordering, eviction, peer filters, lookup by
//! id, and the capacity invariant.

use openclipboard::ClipboardHistory;

#[test]
fn record_and_retrieve() {
    let mut h = ClipboardHistory::new(100);
    h.record("hello".into(), "local".into());
    h.record("world".into(), "phone".into());

    let all = h.get_recent(10);
    assert_eq!(all.len(), 2);
    assert_eq!(all[0].content, "world");
    assert_eq!(all[1].content, "hello");
}

#[test]
fn filter_by_peer() {
    let mut h = ClipboardHistory::new(100);
    h.record("a".into(), "local".into());
    h.record("b".into(), "phone".into());
    h.record("c".into(), "local".into());

    let local = h.get_for_peer("local", 10);
    assert_eq!(local.len(), 2);
    assert_eq!(local[0].content, "c");
    assert_eq!(local[1].content, "a");

    let phone = h.get_for_peer("phone", 10);
    assert_eq!(phone.len(), 1);
    assert_eq!(phone[0].content, "b");
}

#[test]
fn eviction_when_full() {
    let mut h = ClipboardHistory::new(3);
    h.record("a".into(), "local".into());
    h.record("b".into(), "local".into());
    h.record("c".into(), "local".into());
    assert_eq!(h.len(), 3);

    h.record("d".into(), "local".into());
    assert_eq!(h.len(), 3);

    let all = h.get_recent(10);
    assert_eq!(all[0].content, "d");
    assert_eq!(all[1].content, "c");
    assert_eq!(all[2].content, "b");
}

#[test]
fn get_by_id() {
    let mut h = ClipboardHistory::new(100);
    let id = h.record("findme".into(), "local".into());
    let entry = h.get_by_id(&id).unwrap();
    assert_eq!(entry.content, "findme");
    assert!(h.get_by_id("nonexistent").is_none());
}

#[test]
fn limit_works() {
    let mut h = ClipboardHistory::new(100);
    for i in 0..10 {
        h.record(format!("item{i}"), "local".into());
    }
    let limited = h.get_recent(3);
    assert_eq!(limited.len(), 3);
}

#[test]
fn empty_history_returns_empty() {
    let h = ClipboardHistory::new(100);
    assert_eq!(h.len(), 0);
    assert!(h.get_recent(10).is_empty());
    assert!(h.get_for_peer("any", 10).is_empty());
    assert!(h.get_by_id("anything").is_none());
}

#[test]
fn record_single_entry() {
    let mut h = ClipboardHistory::new(100);
    let id = h.record("hello".into(), "local".into());
    assert!(!id.is_empty());
    assert_eq!(h.len(), 1);

    let entries = h.get_recent(10);
    assert_eq!(entries.len(), 1);
    assert_eq!(entries[0].content, "hello");
    assert_eq!(entries[0].source_peer, "local");
    assert_eq!(entries[0].id, id);
}

#[test]
fn record_multiple_entries_ordering() {
    let mut h = ClipboardHistory::new(100);
    h.record("first".into(), "a".into());
    h.record("second".into(), "b".into());
    h.record("third".into(), "c".into());

    let entries = h.get_recent(10);
    assert_eq!(entries.len(), 3);
    assert_eq!(entries[0].content, "third");
    assert_eq!(entries[1].content, "second");
    assert_eq!(entries[2].content, "first");
}

#[test]
fn max_capacity_eviction() {
    let mut h = ClipboardHistory::new(3);
    let id_a = h.record("a".into(), "p".into());
    h.record("b".into(), "p".into());
    h.record("c".into(), "p".into());
    assert_eq!(h.len(), 3);

    h.record("d".into(), "p".into());
    assert_eq!(h.len(), 3);

    assert!(h.get_by_id(&id_a).is_none());

    let entries = h.get_recent(10);
    let contents: Vec<&str> = entries.iter().map(|e| e.content.as_str()).collect();
    assert_eq!(contents, vec!["d", "c", "b"]);
}

#[test]
fn capacity_of_one() {
    let mut h = ClipboardHistory::new(1);
    h.record("a".into(), "p".into());
    h.record("b".into(), "p".into());
    assert_eq!(h.len(), 1);
    assert_eq!(h.get_recent(10)[0].content, "b");
}

#[test]
fn capacity_zero_clamps_to_one() {
    let mut h = ClipboardHistory::new(0);
    h.record("a".into(), "p".into());
    assert_eq!(h.len(), 1);
    h.record("b".into(), "p".into());
    assert_eq!(h.len(), 1);
    assert_eq!(h.get_recent(10)[0].content, "b");
}

#[test]
fn peer_filtering_multiple_peers() {
    let mut h = ClipboardHistory::new(100);
    h.record("a1".into(), "alice".into());
    h.record("b1".into(), "bob".into());
    h.record("a2".into(), "alice".into());
    h.record("b2".into(), "bob".into());
    h.record("c1".into(), "charlie".into());

    let alice = h.get_for_peer("alice", 10);
    assert_eq!(alice.len(), 2);
    assert_eq!(alice[0].content, "a2");
    assert_eq!(alice[1].content, "a1");

    let bob = h.get_for_peer("bob", 10);
    assert_eq!(bob.len(), 2);
    assert_eq!(bob[0].content, "b2");

    let charlie = h.get_for_peer("charlie", 10);
    assert_eq!(charlie.len(), 1);
}

#[test]
fn unknown_peer_returns_empty() {
    let mut h = ClipboardHistory::new(100);
    h.record("x".into(), "known".into());
    assert!(h.get_for_peer("unknown", 10).is_empty());
}

#[test]
fn get_by_id_valid() {
    let mut h = ClipboardHistory::new(100);
    let id = h.record("target".into(), "p".into());
    let entry = h.get_by_id(&id).unwrap();
    assert_eq!(entry.content, "target");
    assert_eq!(entry.id, id);
}

#[test]
fn get_by_id_invalid() {
    let mut h = ClipboardHistory::new(100);
    h.record("x".into(), "p".into());
    assert!(h.get_by_id("nonexistent-id").is_none());
}

#[test]
fn get_by_id_after_eviction() {
    let mut h = ClipboardHistory::new(2);
    let id1 = h.record("first".into(), "p".into());
    h.record("second".into(), "p".into());
    h.record("third".into(), "p".into());
    assert!(h.get_by_id(&id1).is_none());
}

#[test]
fn limit_zero() {
    let mut h = ClipboardHistory::new(100);
    h.record("a".into(), "p".into());
    h.record("b".into(), "p".into());
    assert!(h.get_recent(0).is_empty());
    assert!(h.get_for_peer("p", 0).is_empty());
}

#[test]
fn limit_one() {
    let mut h = ClipboardHistory::new(100);
    h.record("a".into(), "p".into());
    h.record("b".into(), "p".into());
    let entries = h.get_recent(1);
    assert_eq!(entries.len(), 1);
    assert_eq!(entries[0].content, "b");
}

#[test]
fn limit_more_than_available() {
    let mut h = ClipboardHistory::new(100);
    h.record("a".into(), "p".into());
    h.record("b".into(), "p".into());
    let entries = h.get_recent(999);
    assert_eq!(entries.len(), 2);
}

#[test]
fn limit_exact_count() {
    let mut h = ClipboardHistory::new(100);
    for i in 0..5 {
        h.record(format!("item{i}"), "p".into());
    }
    let entries = h.get_recent(5);
    assert_eq!(entries.len(), 5);
}

#[test]
fn timestamps_are_monotonic() {
    let mut h = ClipboardHistory::new(100);
    for i in 0..20 {
        h.record(format!("item{i}"), "p".into());
    }

    let entries = h.get_recent(20);
    for window in entries.windows(2) {
        assert!(
            window[0].timestamp >= window[1].timestamp,
            "timestamps not monotonic: {} < {}",
            window[0].timestamp,
            window[1].timestamp
        );
    }
}

#[test]
fn timestamps_are_reasonable() {
    let mut h = ClipboardHistory::new(100);
    h.record("test".into(), "p".into());

    let entry = h.get_recent(1)[0].clone();
    assert!(entry.timestamp > 1_704_067_200_000, "timestamp too old: {}", entry.timestamp);
    assert!(
        entry.timestamp < 1_893_456_000_000,
        "timestamp too far in future: {}",
        entry.timestamp
    );
}

#[test]
fn content_special_characters() {
    let mut h = ClipboardHistory::new(100);

    let special = "h\u{00e9}llo w\u{00f6}rld \u{1F389} \n\t\r\0 \u{65e5}\u{672c}\u{8a9e} <script>alert('xss')</script>";
    let id = h.record(special.into(), "p".into());
    let entry = h.get_by_id(&id).unwrap();
    assert_eq!(entry.content, special);
}

#[test]
fn content_empty_string() {
    let mut h = ClipboardHistory::new(100);
    let id = h.record(String::new(), "p".into());
    let entry = h.get_by_id(&id).unwrap();
    assert_eq!(entry.content, "");
}

#[test]
fn content_very_long_string() {
    let mut h = ClipboardHistory::new(100);
    let long = "x".repeat(1_000_000);
    let id = h.record(long.clone(), "p".into());
    let entry = h.get_by_id(&id).unwrap();
    assert_eq!(entry.content.len(), 1_000_000);
    assert_eq!(entry.content, long);
}

#[test]
fn unique_ids() {
    let mut h = ClipboardHistory::new(1000);
    let mut ids = vec![];
    for i in 0..100 {
        ids.push(h.record(format!("item{i}"), "p".into()));
    }
    let mut sorted = ids.clone();
    sorted.sort();
    sorted.dedup();
    assert_eq!(sorted.len(), ids.len());
}

#[test]
fn peer_filter_with_limit() {
    let mut h = ClipboardHistory::new(100);
    for i in 0..10 {
        h.record(format!("a{i}"), "alice".into());
        h.record(format!("b{i}"), "bob".into());
    }

    let alice_3 = h.get_for_peer("alice", 3);
    assert_eq!(alice_3.len(), 3);
    assert_eq!(alice_3[0].content, "a9");
    assert_eq!(alice_3[1].content, "a8");
    assert_eq!(alice_3[2].content, "a7");
}

#[test]
fn history_records_from_multiple_peers() {
    let mut h = ClipboardHistory::new(100);
    h.record("from-phone".into(), "phone".into());
    h.record("from-laptop".into(), "laptop".into());
    h.record("from-phone2".into(), "phone".into());

    assert_eq!(h.len(), 3);
    assert_eq!(h.get_for_peer("phone", 10).len(), 2);
    assert_eq!(h.get_for_peer("laptop", 10).len(), 1);
}

#[test]
fn history_eviction_preserves_newest() {
    let mut h = ClipboardHistory::new(5);
    let mut ids = vec![];
    for i in 0..10 {
        ids.push(h.record(format!("item{i}"), "p".into()));
    }

    assert_eq!(h.len(), 5);
    for id in &ids[..5] {
        assert!(h.get_by_id(id).is_none());
    }
    for id in &ids[5..] {
        assert!(h.get_by_id(id).is_some());
    }
}
