//! Replay protector tests: per-peer windows, eviction, and nonce checks.

use openclipboard::replay::ReplayError;
use openclipboard::MemoryReplayProtector;

#[test]
fn detects_replay_per_peer() {
    let mut rp = MemoryReplayProtector::new(8);
    let nonce = [7u8; 32];
    rp.check_and_store("peer1", &nonce).unwrap();
    assert!(rp.check_and_store("peer1", &nonce).is_err());

    // A different peer does not share the window.
    rp.check_and_store("peer2", &nonce).unwrap();
}

#[test]
fn respects_capacity() {
    let mut rp = MemoryReplayProtector::new(1);
    let n1 = [1u8; 32];
    let n2 = [2u8; 32];
    rp.check_and_store("peer", &n1).unwrap();
    rp.check_and_store("peer", &n2).unwrap();

    // n1 was evicted, so it can be seen again without being flagged.
    rp.check_and_store("peer", &n1).unwrap();
}

#[test]
fn rejects_wrong_nonce_length() {
    let mut rp = MemoryReplayProtector::new(4);
    assert_eq!(rp.check_and_store("p", &[0u8; 31]), Err(ReplayError::InvalidNonce));
    assert_eq!(rp.check_and_store("p", &[0u8; 33]), Err(ReplayError::InvalidNonce));
    assert!(rp.check_and_store("p", &[0u8; 32]).is_ok());
}

#[test]
fn replay_error_kind_is_replayed() {
    let mut rp = MemoryReplayProtector::new(4);
    let n = [9u8; 32];
    rp.check_and_store("p", &n).unwrap();
    assert_eq!(rp.check_and_store("p", &n), Err(ReplayError::Replayed));
}

#[test]
fn replay_capacity_zero_clamps_to_one() {
    let mut rp = MemoryReplayProtector::new(0);
    let n1 = [1u8; 32];
    let n2 = [2u8; 32];
    rp.check_and_store("p", &n1).unwrap();
    assert!(rp.check_and_store("p", &n1).is_err());
    rp.check_and_store("p", &n2).unwrap();
    // With the clamped capacity of one, n1 was evicted by n2.
    rp.check_and_store("p", &n1).unwrap();
}
