//! Peer registry lifecycle and the clipboard watcher's decision rule.

use openclipboard::mesh::{watcher_step, WatcherStep};
use openclipboard::{
    ClipboardContent, EchoSuppressor, MemoryTrustStore, MockDiscovery, PeerInfo, PeerRegistry,
    PeerStatus, TrustRecord,
};

fn record(peer_id: &str, pk: Vec<u8>, name: &str) -> TrustRecord {
    TrustRecord {
        peer_id: peer_id.to_string(),
        identity_pk: pk,
        display_name: name.to_string(),
        created_at: 1_700_000_000_000,
    }
}

#[test]
fn peer_registry_basic() {
    let mut reg = PeerRegistry::new();
    let mut store = MemoryTrustStore::new();
    store.save(record("p1", vec![1], "Peer1"));
    store.save(record("p2", vec![2], "Peer2"));

    reg.load_from_trust(&store);
    assert_eq!(reg.list_all().len(), 2);
    assert_eq!(reg.list_online().len(), 0);

    reg.set_online("p1", Some("1.2.3.4:5000".into()));
    assert_eq!(reg.list_online().len(), 1);

    reg.set_offline("p1");
    assert_eq!(reg.list_online().len(), 0);
}

#[test]
fn peer_registry_empty() {
    let reg = PeerRegistry::new();
    assert!(reg.list_all().is_empty());
    assert!(reg.list_online().is_empty());
    assert!(reg.get("nonexistent").is_none());
}

#[test]
fn peer_registry_online_offline_toggle() {
    let mut reg = PeerRegistry::new();
    let mut store = MemoryTrustStore::new();
    store.save(record("p", vec![1], "P"));
    reg.load_from_trust(&store);

    assert_eq!(reg.get("p").unwrap().status, PeerStatus::Offline);
    reg.set_online("p", Some("addr:1".into()));
    let e = reg.get("p").unwrap();
    assert_eq!(e.status, PeerStatus::Online);
    assert_eq!(e.last_addr.as_deref(), Some("addr:1"));
    reg.set_offline("p");
    let e = reg.get("p").unwrap();
    assert_eq!(e.status, PeerStatus::Offline);
    // The last address is kept through the offline transition.
    assert_eq!(e.last_addr.as_deref(), Some("addr:1"));
}

#[test]
fn peer_registry_set_online_unknown_peer_is_noop() {
    let mut reg = PeerRegistry::new();
    reg.set_online("ghost", Some("x".into()));
    assert!(reg.get("ghost").is_none());
    assert!(reg.list_all().is_empty());
}

#[test]
fn peer_registry_load_preserves_existing_entries() {
    let mut reg = PeerRegistry::new();
    let mut store = MemoryTrustStore::new();
    store.save(record("p", vec![1], "P"));
    reg.load_from_trust(&store);
    reg.set_online("p", Some("addr".into()));
    // Loading again must not reset the online entry.
    reg.load_from_trust(&store);
    assert_eq!(reg.get("p").unwrap().status, PeerStatus::Online);
}

#[test]
fn watcher_skips_empty_and_unchanged() {
    let sup = EchoSuppressor::new(4);
    let step = watcher_step(&ClipboardContent::Empty, &None, &sup);
    assert_eq!(step, WatcherStep::Ignore);

    let cur = ClipboardContent::Text("same".into());
    let last = Some(ClipboardContent::Text("same".into()));
    assert_eq!(watcher_step(&cur, &last, &sup), WatcherStep::Ignore);
}

#[test]
fn watcher_suppresses_recent_remote_write() {
    let mut sup = EchoSuppressor::new(4);
    sup.note_remote_write("remote-text");
    let cur = ClipboardContent::Text("remote-text".into());
    assert_eq!(watcher_step(&cur, &None, &sup), WatcherStep::Remember);
}

#[test]
fn watcher_emits_genuine_changes() {
    let sup = EchoSuppressor::new(4);
    let cur = ClipboardContent::Text("fresh".into());
    let last = Some(ClipboardContent::Text("old".into()));
    assert_eq!(watcher_step(&cur, &last, &sup), WatcherStep::Emit);
}

#[test]
fn mock_discovery_advertise_and_scan() {
    let mut disc = MockDiscovery::new_shared();
    disc.advertise(PeerInfo { peer_id: "a".into(), name: "Alice".into(), addr: "mem-a".into() });
    disc.advertise(PeerInfo { peer_id: "b".into(), name: "Bob".into(), addr: "mem-b".into() });
    assert_eq!(disc.scan().len(), 2);

    // Advertising the same peer again replaces the entry.
    disc.advertise(PeerInfo { peer_id: "a".into(), name: "New".into(), addr: "mem-c".into() });
    let peers = disc.scan();
    assert_eq!(peers.len(), 2);
    let a = peers.iter().find(|p| p.peer_id == "a").unwrap();
    assert_eq!(a.name, "New");

    disc.stop_discovery();
    assert!(disc.scan().is_empty());
}
