//! Trust store tests: upserts, lookups, removal, and save idempotence.

use openclipboard::{MemoryTrustStore, TrustRecord};

fn record(peer_id: &str, pk: Vec<u8>, name: &str) -> TrustRecord {
    TrustRecord {
        peer_id: peer_id.to_string(),
        identity_pk: pk,
        display_name: name.to_string(),
        created_at: 1_700_000_000_000,
    }
}

#[test]
fn memory_store_crud() {
    let mut store = MemoryTrustStore::new();
    let rec = record("peer-a", vec![1, 2, 3], "Alice");

    store.save(rec.clone());
    assert!(store.is_trusted("peer-a"));
    assert!(!store.is_trusted("peer-b"));

    let got = store.get("peer-a").unwrap();
    assert_eq!(got, rec);

    let list = store.list();
    assert_eq!(list.len(), 1);

    assert!(store.remove("peer-a"));
    assert!(!store.remove("peer-a"));
    assert!(!store.is_trusted("peer-a"));
}

#[test]
fn save_is_replace_by_peer_id() {
    let mut store = MemoryTrustStore::new();
    store.save(record("p", vec![1], "Old"));
    store.save(record("p", vec![2], "New"));
    assert_eq!(store.list().len(), 1);
    let got = store.get("p").unwrap();
    assert_eq!(got.display_name, "New");
    assert_eq!(got.identity_pk, vec![2]);
}

#[test]
fn save_twice_same_record_is_single_save() {
    let mut once = MemoryTrustStore::new();
    once.save(record("p", vec![1], "A"));

    let mut twice = MemoryTrustStore::new();
    twice.save(record("p", vec![1], "A"));
    twice.save(record("p", vec![1], "A"));

    assert_eq!(once.list().len(), twice.list().len());
    assert_eq!(once.get("p"), twice.get("p"));
}

#[test]
fn list_returns_every_record() {
    let mut store = MemoryTrustStore::new();
    store.save(record("p1", vec![1], "One"));
    store.save(record("p2", vec![2], "Two"));
    store.save(record("p3", vec![3], "Three"));
    let mut ids: Vec<String> = store.list().iter().map(|r| r.peer_id.clone()).collect();
    ids.sort();
    assert_eq!(ids, vec!["p1", "p2", "p3"]);
}

#[test]
fn remove_leaves_others_untouched() {
    let mut store = MemoryTrustStore::new();
    store.save(record("p1", vec![1], "One"));
    store.save(record("p2", vec![2], "Two"));
    assert!(store.remove("p1"));
    assert!(!store.is_trusted("p1"));
    assert!(store.is_trusted("p2"));
    assert_eq!(store.list().len(), 1);
}
