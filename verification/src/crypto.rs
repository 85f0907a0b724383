//! Trusted bindings to the hash, signature, randomness and clock
//! primitives. Each function wraps one operation of an outside crate or of
//! the standard library; its contract names the result where the operation
//! is a pure function of its arguments, and promises nothing of values
//! drawn from randomness or the clock.

use vstd::prelude::*;

use ed25519_dalek::Signer;
use ed25519_dalek::Verifier;

verus! {

/// The BLAKE3 digest of a byte string.
pub uninterp spec fn hash_of(data: Seq<u8>) -> Seq<u8>;

/// The keyed BLAKE3 digest of a byte string under a 32-byte key.
pub uninterp spec fn keyed_hash_of(key: Seq<u8>, data: Seq<u8>) -> Seq<u8>;

/// The Ed25519 public key derived from a 32-byte seed.
pub uninterp spec fn ed25519_pk_of(seed: Seq<u8>) -> Seq<u8>;

/// The Ed25519 signature of a message under a 32-byte seed.
pub uninterp spec fn ed25519_sign(seed: Seq<u8>, data: Seq<u8>) -> Seq<u8>;

/// Whether a signature verifies over a message under a public key.
pub uninterp spec fn ed25519_verifies(data: Seq<u8>, sig: Seq<u8>, pk: Seq<u8>) -> bool;

/// Relies on `blake3::hash`: a pure function of the input returning a
/// 32-byte digest.
#[verifier::external_body]
pub fn hash32(data: &[u8]) -> (r: Vec<u8>)
    ensures
        r@ == hash_of(data@),
        r@.len() == 32,
{
    blake3::hash(data).as_bytes().to_vec()
}

/// Relies on `blake3::keyed_hash`: a pure function of key and input
/// returning a 32-byte digest.
#[verifier::external_body]
pub fn keyed_hash32(key: &[u8], data: &[u8]) -> (r: Vec<u8>)
    requires
        key@.len() == 32,
    ensures
        r@ == keyed_hash_of(key@, data@),
        r@.len() == 32,
{
    let mut k = [0u8; 32];
    k.copy_from_slice(key);
    blake3::keyed_hash(&k, data).as_bytes().to_vec()
}

/// Relies on `ed25519_dalek::SigningKey::from_bytes` and `verifying_key`:
/// the public key is a pure function of the 32-byte seed.
#[verifier::external_body]
pub fn ed25519_public_key(seed: &[u8]) -> (r: Vec<u8>)
    requires
        seed@.len() == 32,
    ensures
        r@ == ed25519_pk_of(seed@),
        r@.len() == 32,
{
    let mut s = [0u8; 32];
    s.copy_from_slice(seed);
    let sk = ed25519_dalek::SigningKey::from_bytes(&s);
    sk.verifying_key().as_bytes().to_vec()
}

/// Relies on `ed25519_dalek::Signer::sign`: Ed25519 signing is
/// deterministic in seed and message, produces 64 bytes, and its output
/// verifies under the seed's public key.
#[verifier::external_body]
pub fn ed25519_sign_with_seed(seed: &[u8], data: &[u8]) -> (r: Vec<u8>)
    requires
        seed@.len() == 32,
    ensures
        r@ == ed25519_sign(seed@, data@),
        r@.len() == 64,
        ed25519_verifies(data@, r@, ed25519_pk_of(seed@)),
{
    let mut s = [0u8; 32];
    s.copy_from_slice(seed);
    let sk = ed25519_dalek::SigningKey::from_bytes(&s);
    sk.sign(data).to_bytes().to_vec()
}

/// Relies on `ed25519_dalek::VerifyingKey::verify`: deterministic
/// verification of a 64-byte signature under a 32-byte public key; a public
/// key that is no valid curve point verifies nothing.
#[verifier::external_body]
pub fn ed25519_verify(data: &[u8], sig: &[u8], pk: &[u8]) -> (r: bool)
    requires
        sig@.len() == 64,
        pk@.len() == 32,
    ensures
        r == ed25519_verifies(data@, sig@, pk@),
{
    let mut pkb = [0u8; 32];
    pkb.copy_from_slice(pk);
    let vk = match ed25519_dalek::VerifyingKey::from_bytes(&pkb) {
        Ok(vk) => vk,
        Err(_) => {
            return false;
        },
    };
    let mut sigb = [0u8; 64];
    sigb.copy_from_slice(sig);
    let s = ed25519_dalek::Signature::from_bytes(&sigb);
    vk.verify(data, &s).is_ok()
}

/// Relies on `rand_core::OsRng::fill_bytes`: 32 bytes from the operating
/// system's randomness source; nothing is promised of their values.
#[verifier::external_body]
pub fn random_bytes_32() -> (r: Vec<u8>)
    ensures
        r@.len() == 32,
{
    let mut b = [0u8; 32];
    rand_core::RngCore::fill_bytes(&mut rand_core::OsRng, &mut b);
    b.to_vec()
}

/// Relies on `rand::random`: an unpredictable 128-bit value.
#[verifier::external_body]
pub fn random_u128() -> (r: u128)
{
    rand::random::<u128>()
}

/// Relies on `std::time::SystemTime::now`: the wall clock as milliseconds
/// since the Unix epoch, zero when the clock reads before the epoch.
#[verifier::external_body]
pub fn now_ms() -> (r: u64)
{
    std::time::SystemTime::now().duration_since(std::time::UNIX_EPOCH).unwrap_or_default(
    ).as_millis() as u64
}

} // verus!
