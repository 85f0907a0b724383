//! Pairing tests: QR payload round trips, the confirmation code, the
//! initiator/responder exchange, and the binding of the emitted records.

use openclipboard::pairing::{pairing_init_qr, pairing_respond_qr};
use openclipboard::{
    derive_confirmation_code, pairing_finalize, Ed25519Identity, IdentityProvider, PairingPayload,
};

#[test]
fn pairing_payload_qr_roundtrip() {
    let payload = PairingPayload {
        version: 1,
        peer_id: "peer-a".into(),
        name: "Alice's Mac".into(),
        identity_pk: vec![1, 2, 3, 4],
        lan_port: 18455,
        nonce: vec![9; 32],
        lan_addrs: vec!["192.168.1.10".to_string(), "10.0.0.2".to_string()],
    };

    let s = payload.to_qr_string();
    let decoded = PairingPayload::from_qr_string(&s).unwrap();
    assert_eq!(payload.version, decoded.version);
    assert_eq!(payload.peer_id, decoded.peer_id);
    assert_eq!(payload.name, decoded.name);
    assert_eq!(payload.identity_pk, decoded.identity_pk);
    assert_eq!(payload.lan_port, decoded.lan_port);
    assert_eq!(payload.nonce, decoded.nonce);
    assert_eq!(payload.lan_addrs, decoded.lan_addrs);
}

#[test]
fn pairing_payload_from_qr_string_invalid_errors() {
    // Not base64url: parsing fails.
    assert!(PairingPayload::from_qr_string("not-a-qr").is_err());
}

#[test]
fn from_qr_string_rejects_garbage() {
    assert!(PairingPayload::from_qr_string("not valid base64url!!!").is_err());
    assert!(PairingPayload::from_qr_string("AAAA").is_err());
    assert!(PairingPayload::from_qr_string("").is_err());
}

#[test]
fn derive_code_is_deterministic_and_6_digits() {
    let nonce = vec![42u8; 32];
    let code1 = derive_confirmation_code(&nonce, "peer-a", "peer-b");
    let code2 = derive_confirmation_code(&nonce, "peer-a", "peer-b");
    assert_eq!(code1, code2);
    assert_eq!(code1.len(), 6);
    assert!(code1.chars().all(|c| c.is_ascii_digit()));
}

#[test]
fn derive_code_changes_with_inputs() {
    let nonce = vec![42u8; 32];
    let c1 = derive_confirmation_code(&nonce, "peer-a", "peer-b");
    let c2 = derive_confirmation_code(&nonce, "peer-a", "peer-c");
    assert_ne!(c1, c2);
    let other_nonce = vec![43u8; 32];
    let c3 = derive_confirmation_code(&other_nonce, "peer-a", "peer-b");
    assert_ne!(c1, c3);
}

#[test]
fn derive_confirmation_code_deterministic() {
    let nonce = vec![42u8; 32];
    let c1 = derive_confirmation_code(&nonce, "peer-a", "peer-b");
    let c2 = derive_confirmation_code(&nonce, "peer-a", "peer-b");
    assert_eq!(c1, c2);
    assert_eq!(c1.len(), 6);
}

#[test]
fn pairing_qr_roundtrip_init_respond_finalize() {
    let alice = Ed25519Identity::generate();
    let bob = Ed25519Identity::generate();
    let nonce = [7u8; 32];

    let init_qr = pairing_init_qr("Alice".into(), 1111, &alice, nonce);
    let (resp_qr, code1) = pairing_respond_qr(&init_qr, "Bob".into(), 2222, &bob).unwrap();
    let (code2, records) = pairing_finalize(&init_qr, &resp_qr).unwrap();

    assert_eq!(code1, code2);
    let ids: Vec<String> = records.iter().map(|r| r.peer_id.clone()).collect();
    assert!(ids.contains(&alice.peer_id().to_string()));
    assert!(ids.contains(&bob.peer_id().to_string()));
}

#[test]
fn finalize_rejects_nonce_mismatch() {
    let alice = Ed25519Identity::generate();
    let bob = Ed25519Identity::generate();
    let init_qr = pairing_init_qr("Alice".into(), 1111, &alice, [7u8; 32]);
    let other_qr = pairing_init_qr("Bob".into(), 2222, &bob, [8u8; 32]);
    assert!(pairing_finalize(&init_qr, &other_qr).is_err());
}

#[test]
fn finalize_records_bind_peer_id_to_public_key() {
    let alice = Ed25519Identity::generate();
    let bob = Ed25519Identity::generate();
    let nonce = [5u8; 32];
    let init_qr = pairing_init_qr("Alice".into(), 1111, &alice, nonce);
    let (resp_qr, _) = pairing_respond_qr(&init_qr, "Bob".into(), 2222, &bob).unwrap();
    let (_, records) = pairing_finalize(&init_qr, &resp_qr).unwrap();
    assert_eq!(records.len(), 2);
    for rec in records.iter() {
        let derived = Ed25519Identity::peer_id_from_public_key(&rec.identity_pk);
        assert_eq!(rec.peer_id, derived);
    }
}
