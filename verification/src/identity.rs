//! Peer identities: the signature keypair and the peer-id derived from the
//! public key as its lowercase-hex BLAKE3 digest.

use vstd::prelude::*;
use vstd::utf8::encode_utf8;

use crate::crypto::{
    ed25519_pk_of, ed25519_public_key, ed25519_sign, ed25519_sign_with_seed, ed25519_verifies,
    ed25519_verify, hash32, hash_of, keyed_hash32, keyed_hash_of, random_bytes_32,
};
use crate::text::bytes_eq;
use crate::protocol::append_slice;
use crate::text::{hex_chars, string_bytes, to_hex};

verus! {

/// A provider of a peer identity: a stable peer-id, signing, and
/// verification of claimed signatures.
pub trait IdentityProvider: Sized {
    /// The peer-id this provider answers to.
    spec fn spec_peer_id(&self) -> Seq<char>;

    /// The public key bytes this provider hands out.
    spec fn spec_public_key(&self) -> Seq<u8>;

    /// The signature this provider computes over given bytes.
    spec fn spec_sign(&self, data: Seq<u8>) -> Seq<u8>;

    /// Whether this provider accepts a signature for a claimed peer-id.
    spec fn spec_verify(&self, peer_id: Seq<char>, data: Seq<u8>, signature: Seq<u8>) -> bool;

    /// This peer's unique id.
    fn peer_id(&self) -> (r: &str)
        ensures
            r@ == self.spec_peer_id(),
    ;

    /// Sign data, returning the signature bytes.
    fn sign(&self, data: &[u8]) -> (r: Vec<u8>)
        ensures
            r@ == self.spec_sign(data@),
    ;

    /// Verify a signature claimed by `peer_id`.
    fn verify(&self, peer_id: &str, data: &[u8], signature: &[u8]) -> (r: bool)
        ensures
            r == self.spec_verify(peer_id@, data@, signature@),
    ;

    /// The public key bytes, for serialization and pairing.
    fn public_key_bytes(&self) -> (r: Vec<u8>)
        ensures
            r@ == self.spec_public_key(),
    ;
}

/// An Ed25519 identity: the peer-id is the lowercase hex of the BLAKE3
/// digest of the verifying key.
pub struct Ed25519Identity {
    seed: Vec<u8>,
    pk: Vec<u8>,
    id: String,
}

impl Ed25519Identity {
    /// The 32-byte signing-key seed.
    pub closed spec fn spec_seed(&self) -> Seq<u8> {
        self.seed@
    }

    /// The derived public key and peer-id are consistent with the seed.
    #[verifier::type_invariant]
    pub closed spec fn wf(self) -> bool {
        &&& self.seed@.len() == 32
        &&& self.pk@ == ed25519_pk_of(self.seed@)
        &&& self.pk@.len() == 32
        &&& self.id@ == hex_chars(hash_of(self.pk@))
    }

    /// Build the identity of a 32-byte signing-key seed.
    pub fn from_seed(seed: Vec<u8>) -> (r: Option<Ed25519Identity>)
        ensures
            match r {
                Some(id) => {
                    &&& seed@.len() == 32
                    &&& id.spec_seed() == seed@
                    &&& id.spec_public_key() == ed25519_pk_of(seed@)
                    &&& id.spec_peer_id() == hex_chars(hash_of(ed25519_pk_of(seed@)))
                },
                None => seed@.len() != 32,
            },
    {
        if seed.len() != 32 {
            return None;
        }
        let pk = ed25519_public_key(seed.as_slice());
        let id = to_hex(hash32(pk.as_slice()).as_slice());
        Some(Ed25519Identity { seed, pk, id })
    }

    /// Generate a fresh identity from the system's randomness source.
    pub fn generate() -> (r: Ed25519Identity)
        ensures
            r.spec_seed().len() == 32,
            r.spec_public_key() == ed25519_pk_of(r.spec_seed()),
            r.spec_peer_id() == hex_chars(hash_of(r.spec_public_key())),
    {
        let seed = random_bytes_32();
        match Ed25519Identity::from_seed(seed) {
            Some(id) => id,
            None => {
                proof {
                    assert(false);
                }
                vstd::pervasive::unreached()
            },
        }
    }

    /// Export the signing-key seed bytes, for local persistence.
    pub fn signing_key_seed_bytes(&self) -> (r: Vec<u8>)
        ensures
            r@ == self.spec_seed(),
            r@.len() == 32,
    {
        proof {
            use_type_invariant(self);
        }
        let mut out: Vec<u8> = Vec::new();
        append_slice(&mut out, self.seed.as_slice());
        out
    }

    /// Verify a signature against raw public key bytes: false whenever the
    /// key is not 32 bytes, the signature not 64, or verification fails.
    pub fn verify_with_public_key(data: &[u8], signature: &[u8], public_key: &[u8]) -> (r: bool)
        ensures
            r == (public_key@.len() == 32 && signature@.len() == 64 && ed25519_verifies(
                data@,
                signature@,
                public_key@,
            )),
    {
        if public_key.len() != 32 {
            return false;
        }
        if signature.len() != 64 {
            return false;
        }
        ed25519_verify(data, signature, public_key)
    }

    /// The peer-id of a public key: lowercase hex of its BLAKE3 digest.
    pub fn peer_id_from_public_key(public_key: &[u8]) -> (r: String)
        ensures
            r@ == hex_chars(hash_of(public_key@)),
    {
        to_hex(hash32(public_key).as_slice())
    }
}

impl IdentityProvider for Ed25519Identity {
    open spec fn spec_peer_id(&self) -> Seq<char> {
        hex_chars(hash_of(self.spec_public_key()))
    }

    closed spec fn spec_public_key(&self) -> Seq<u8> {
        self.pk@
    }

    open spec fn spec_sign(&self, data: Seq<u8>) -> Seq<u8> {
        ed25519_sign(self.spec_seed(), data)
    }

    open spec fn spec_verify(&self, peer_id: Seq<char>, data: Seq<u8>, signature: Seq<u8>) -> bool {
        peer_id == self.spec_peer_id() && signature.len() == 64 && ed25519_verifies(
            data,
            signature,
            self.spec_public_key(),
        )
    }

    fn peer_id(&self) -> (r: &str)
        ensures
            r@ == self.spec_peer_id(),
    {
        proof {
            use_type_invariant(self);
        }
        self.id.as_str()
    }

    fn sign(&self, data: &[u8]) -> (r: Vec<u8>)
        ensures
            r@ == self.spec_sign(data@),
    {
        proof {
            use_type_invariant(self);
        }
        ed25519_sign_with_seed(self.seed.as_slice(), data)
    }

    fn verify(&self, peer_id: &str, data: &[u8], signature: &[u8]) -> (r: bool)
        ensures
            r == self.spec_verify(peer_id@, data@, signature@),
    {
        proof {
            use_type_invariant(self);
        }
        let my_id = self.id.as_str();
        let pid_bytes = string_bytes(peer_id);
        let my_bytes = string_bytes(my_id);
        if !bytes_eq(pid_bytes.as_slice(), my_bytes.as_slice()) {
            proof {
                if peer_id@ == self.id@ {
                    assert(encode_utf8(peer_id@) == encode_utf8(self.id@));
                }
            }
            return false;
        }
        proof {
            crate::message::lemma_encode_utf8_injective(peer_id@, self.id@);
        }
        Ed25519Identity::verify_with_public_key(data, signature, self.pk.as_slice())
    }

    fn public_key_bytes(&self) -> (r: Vec<u8>)
        ensures
            r@ == self.spec_public_key(),
    {
        proof {
            use_type_invariant(self);
        }
        let mut out: Vec<u8> = Vec::new();
        append_slice(&mut out, self.pk.as_slice());
        out
    }
}

impl Clone for Ed25519Identity {
    /// A clone answers to the same identity.
    fn clone(&self) -> (r: Ed25519Identity)
        ensures
            r.spec_seed() == self.spec_seed(),
            r.spec_public_key() == self.spec_public_key(),
            r.spec_peer_id() == self.spec_peer_id(),
    {
        proof {
            use_type_invariant(self);
        }
        let mut seed: Vec<u8> = Vec::new();
        append_slice(&mut seed, self.seed.as_slice());
        let mut pk: Vec<u8> = Vec::new();
        append_slice(&mut pk, self.pk.as_slice());
        let id = self.id.clone();
        Ed25519Identity { seed, pk, id }
    }
}

/// A BLAKE3-keyed stand-in identity: signatures are keyed digests, and the
/// peer-id is the hex digest of the secret.
pub struct Blake3Identity {
    secret: Vec<u8>,
    id: String,
}

/// The secret clipped or zero-padded to exactly 32 bytes.
pub open spec fn padded_key_spec(secret: Seq<u8>) -> Seq<u8> {
    Seq::new(32, |i: int| if i < secret.len() { secret[i] } else { 0u8 })
}

/// Clip or zero-pad a secret to exactly 32 bytes.
pub fn padded_key(secret: &[u8]) -> (r: Vec<u8>)
    ensures
        r@ == padded_key_spec(secret@),
{
    let mut out: Vec<u8> = Vec::new();
    let mut i: usize = 0;
    while i < 32
        invariant
            i <= 32,
            out@.len() == i,
            forall|j: int|
                0 <= j < i ==> #[trigger] out@[j] == (if j < secret@.len() {
                    secret@[j]
                } else {
                    0u8
                }),
        decreases 32 - i,
    {
        if i < secret.len() {
            out.push(secret[i]);
        } else {
            out.push(0u8);
        }
        i = i + 1;
    }
    proof {
        assert(out@ =~= padded_key_spec(secret@));
    }
    out
}

impl Blake3Identity {
    /// The secret this identity signs with.
    pub closed spec fn spec_secret(&self) -> Seq<u8> {
        self.secret@
    }

    /// The peer-id is the hex digest of the secret.
    #[verifier::type_invariant]
    pub closed spec fn wf(self) -> bool {
        self.id@ == hex_chars(hash_of(self.secret@))
    }

    /// Generate an identity from a random 32-byte secret.
    pub fn generate() -> (r: Blake3Identity)
        ensures
            r.spec_peer_id() == hex_chars(hash_of(r.spec_secret())),
    {
        let secret = random_bytes_32();
        Blake3Identity::from_secret(secret)
    }

    /// Build the identity of a given secret.
    pub fn from_secret(secret: Vec<u8>) -> (r: Blake3Identity)
        ensures
            r.spec_secret() == secret@,
            r.spec_peer_id() == hex_chars(hash_of(secret@)),
    {
        let id = to_hex(hash32(secret.as_slice()).as_slice());
        Blake3Identity { secret, id }
    }
}

impl IdentityProvider for Blake3Identity {
    open spec fn spec_peer_id(&self) -> Seq<char> {
        hex_chars(hash_of(self.spec_secret()))
    }

    open spec fn spec_public_key(&self) -> Seq<u8> {
        self.spec_secret()
    }

    open spec fn spec_sign(&self, data: Seq<u8>) -> Seq<u8> {
        keyed_hash_of(padded_key_spec(self.spec_secret()), data)
    }

    open spec fn spec_verify(&self, peer_id: Seq<char>, data: Seq<u8>, signature: Seq<u8>) -> bool {
        peer_id == self.spec_peer_id() && signature == self.spec_sign(data)
    }

    fn peer_id(&self) -> (r: &str)
        ensures
            r@ == self.spec_peer_id(),
    {
        proof {
            use_type_invariant(self);
        }
        self.id.as_str()
    }

    fn sign(&self, data: &[u8]) -> (r: Vec<u8>)
        ensures
            r@ == self.spec_sign(data@),
    {
        let key = padded_key(self.secret.as_slice());
        keyed_hash32(key.as_slice(), data)
    }

    fn verify(&self, peer_id: &str, data: &[u8], signature: &[u8]) -> (r: bool)
        ensures
            r == self.spec_verify(peer_id@, data@, signature@),
    {
        proof {
            use_type_invariant(self);
        }
        let pid_bytes = string_bytes(peer_id);
        let my_bytes = string_bytes(self.id.as_str());
        if !bytes_eq(pid_bytes.as_slice(), my_bytes.as_slice()) {
            proof {
                if peer_id@ == self.id@ {
                    assert(encode_utf8(peer_id@) == encode_utf8(self.id@));
                }
            }
            return false;
        }
        proof {
            crate::message::lemma_encode_utf8_injective(peer_id@, self.id@);
        }
        let expected = self.sign(data);
        bytes_eq(expected.as_slice(), signature)
    }

    fn public_key_bytes(&self) -> (r: Vec<u8>)
        ensures
            r@ == self.spec_public_key(),
    {
        let mut out: Vec<u8> = Vec::new();
        append_slice(&mut out, self.secret.as_slice());
        out
    }
}

/// A mock identity whose signatures are plain digests of the claimed id
/// and data; any holder of the id verifies them.
pub struct MockIdentity {
    id: String,
}

impl MockIdentity {
    /// Wrap an id.
    pub fn new(id: &str) -> (r: MockIdentity)
        ensures
            r.spec_peer_id() == id@,
    {
        MockIdentity { id: <String as vstd::string::StringExecFns>::from_str(id) }
    }
}

impl IdentityProvider for MockIdentity {
    closed spec fn spec_peer_id(&self) -> Seq<char> {
        self.id@
    }

    open spec fn spec_public_key(&self) -> Seq<u8> {
        encode_utf8(self.spec_peer_id())
    }

    open spec fn spec_sign(&self, data: Seq<u8>) -> Seq<u8> {
        hash_of(encode_utf8(self.spec_peer_id()) + data)
    }

    open spec fn spec_verify(&self, peer_id: Seq<char>, data: Seq<u8>, signature: Seq<u8>) -> bool {
        signature == hash_of(encode_utf8(peer_id) + data)
    }

    fn peer_id(&self) -> (r: &str)
        ensures
            r@ == self.spec_peer_id(),
    {
        self.id.as_str()
    }

    fn sign(&self, data: &[u8]) -> (r: Vec<u8>)
        ensures
            r@ == self.spec_sign(data@),
    {
        let mut buf = string_bytes(self.id.as_str());
        append_slice(&mut buf, data);
        hash32(buf.as_slice())
    }

    fn verify(&self, peer_id: &str, data: &[u8], signature: &[u8]) -> (r: bool)
        ensures
            r == self.spec_verify(peer_id@, data@, signature@),
    {
        let mut buf = string_bytes(peer_id);
        append_slice(&mut buf, data);
        let expected = hash32(buf.as_slice());
        bytes_eq(expected.as_slice(), signature)
    }

    fn public_key_bytes(&self) -> (r: Vec<u8>)
        ensures
            r@ == self.spec_public_key(),
    {
        string_bytes(self.id.as_str())
    }
}

} // verus!
