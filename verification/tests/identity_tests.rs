//! Identity tests: generation, signing, verification, and peer-id
//! derivation across the three providers.

use openclipboard::{Blake3Identity, Ed25519Identity, IdentityProvider, MockIdentity};

#[test]
fn blake3_identity_generate() {
    let id = Blake3Identity::generate();
    assert!(!id.peer_id().is_empty());
}

#[test]
fn blake3_sign_verify() {
    let id = Blake3Identity::generate();
    let data = b"hello world";
    let sig = id.sign(data);
    let pid = id.peer_id().to_string();
    assert!(id.verify(&pid, data, &sig));
    assert!(!id.verify(&pid, b"wrong", &sig));
}

#[test]
fn mock_identity_sign_verify() {
    let id = MockIdentity::new("peer-a");
    let sig = id.sign(b"test");
    assert!(id.verify("peer-a", b"test", &sig));
    assert!(!id.verify("peer-b", b"test", &sig));
}

#[test]
fn deterministic_peer_id() {
    let a = Blake3Identity::from_secret(vec![1, 2, 3]);
    let b = Blake3Identity::from_secret(vec![1, 2, 3]);
    assert_eq!(a.peer_id(), b.peer_id());
}

#[test]
fn ed25519_generate_sign_verify() {
    let id = Ed25519Identity::generate();
    assert!(!id.peer_id().is_empty());

    let data = b"hello ed25519";
    let sig = id.sign(data);
    let pid = id.peer_id().to_string();
    assert!(id.verify(&pid, data, &sig));
    assert!(!id.verify(&pid, b"wrong", &sig));
    assert!(!id.verify("other-peer", data, &sig));
}

#[test]
fn ed25519_peer_id_from_public_key_matches() {
    let id = Ed25519Identity::generate();
    let pk = id.public_key_bytes();
    let derived = Ed25519Identity::peer_id_from_public_key(&pk);
    assert_eq!(derived, id.peer_id());
}

#[test]
fn ed25519_verify_with_public_key() {
    let id = Ed25519Identity::generate();
    let data = b"cross verify";
    let sig = id.sign(data);
    let pk = id.public_key_bytes();

    assert!(Ed25519Identity::verify_with_public_key(data, &sig, &pk));
    assert!(!Ed25519Identity::verify_with_public_key(b"wrong", &sig, &pk));
}

#[test]
fn ed25519_seed_roundtrip_preserves_identity() {
    let id = Ed25519Identity::generate();
    let seed = id.signing_key_seed_bytes();
    let again = Ed25519Identity::from_seed(seed).unwrap();
    assert_eq!(id.peer_id(), again.peer_id());
    assert_eq!(id.public_key_bytes(), again.public_key_bytes());
}

#[test]
fn ed25519_rejects_bad_key_material() {
    assert!(Ed25519Identity::from_seed(vec![1, 2, 3]).is_none());
    let id = Ed25519Identity::generate();
    let sig = id.sign(b"data");
    // Wrong key length, wrong signature length: verification fails, no panic.
    assert!(!Ed25519Identity::verify_with_public_key(b"data", &sig, &[1, 2, 3]));
    assert!(!Ed25519Identity::verify_with_public_key(b"data", &[0u8; 3], &id.public_key_bytes()));
}

#[test]
fn peer_id_is_64_lowercase_hex_chars() {
    let id = Ed25519Identity::generate();
    let pid = id.peer_id().to_string();
    assert_eq!(pid.len(), 64);
    assert!(pid.chars().all(|c| c.is_ascii_hexdigit() && !c.is_ascii_uppercase()));
}
