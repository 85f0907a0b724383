//! Session: the authenticated handshake verification rules and the typed
//! message plane. The session holds no transport; the surrounding runtime
//! sends and receives the frames this module builds and checks.

use vstd::prelude::*;
use vstd::utf8::encode_utf8;

use crate::b64::{b64_decode, b64_decode_spec, b64_encode, b64_of};
use crate::clipboard::{ClipboardContent, ClipboardProvider};
use crate::crypto::{ed25519_verifies, hash_of, now_ms, random_bytes_32};
use crate::identity::{Ed25519Identity, IdentityProvider};
use crate::message::{
    decode_payload, encode_payload, payload_bytes, Message, MessageView,
};
use crate::protocol::{hello_transcript, hello_transcript_bytes, Frame, MAX_PAYLOAD_LEN};
use crate::replay::{window_after, MemoryReplayProtector, ReplayError};
use crate::text::{bytes_eq, hex_chars, str_eq};
use crate::trust::{MemoryTrustStore, TrustRecordView};
use crate::wire::PROTOCOL_VERSION;

verus! {

/// Why a session operation failed.
#[derive(Debug, Clone, Copy, PartialEq, Eq, Structural)]
pub enum SessionError {
    /// The frame payload encodes no message.
    Decode,
    /// A message other than `Hello` arrived during the handshake.
    UnexpectedMessage,
    /// A binary field is not valid base64.
    BadEncoding,
    /// The presented identity key is not 32 bytes.
    InvalidPkLength,
    /// The presented nonce is not 32 bytes.
    InvalidNonceLength,
    /// The presented signature is not 64 bytes.
    InvalidSigLength,
    /// The claimed peer-id is not derived from the presented key.
    BindingMismatch,
    /// The signature does not verify over the transcript.
    BadSignature,
    /// The nonce was already seen for this peer.
    Replayed,
    /// The peer is not in the trust store.
    Untrusted,
    /// The pinned public key differs from the presented one.
    KeyMismatch,
    /// The message payload would exceed the frame cap.
    TooLarge,
    /// The platform clipboard refused an operation.
    Clipboard,
}

/// The peer-id a `Hello` message claims; empty for other messages.
pub open spec fn hello_peer_id(m: MessageView) -> Seq<char> {
    match m {
        MessageView::Hello { peer_id, .. } => peer_id,
        _ => Seq::empty(),
    }
}

/// The nonce bytes a `Hello` message carries, once base64-decoded.
pub open spec fn hello_nonce(m: MessageView) -> Seq<u8> {
    match m {
        MessageView::Hello { nonce_b64, .. } => match b64_decode_spec(nonce_b64) {
            Some(n) => n,
            None => Seq::empty(),
        },
        _ => Seq::empty(),
    }
}

/// The verdict of the handshake checks on a received message, in the
/// prescribed order: base64 decoding, field lengths, peer-id binding,
/// proof of possession, replay, then the trust-store gate (skipped in
/// pairing mode). `window` is the replay window of the claimed peer when
/// replay protection is configured.
pub open spec fn hello_verdict(
    m: MessageView,
    pairing: bool,
    trust: Option<Map<Seq<char>, TrustRecordView>>,
    window: Option<Seq<Seq<u8>>>,
) -> Result<Seq<char>, SessionError> {
    match m {
        MessageView::Hello { peer_id, version, identity_pk_b64, nonce_b64, sig_b64 } => {
            match (b64_decode_spec(identity_pk_b64), b64_decode_spec(nonce_b64), b64_decode_spec(
                sig_b64,
            )) {
                (Some(pk), Some(nonce), Some(sig)) => {
                    if pk.len() != 32 {
                        Err(SessionError::InvalidPkLength)
                    } else if nonce.len() != 32 {
                        Err(SessionError::InvalidNonceLength)
                    } else if sig.len() != 64 {
                        Err(SessionError::InvalidSigLength)
                    } else if hex_chars(hash_of(pk)) != peer_id {
                        Err(SessionError::BindingMismatch)
                    } else if !ed25519_verifies(
                        hello_transcript_bytes(version, encode_utf8(peer_id), pk, nonce),
                        sig,
                        pk,
                    ) {
                        Err(SessionError::BadSignature)
                    } else if window matches Some(w) && w.contains(nonce) {
                        Err(SessionError::Replayed)
                    } else if trust matches Some(t) && !pairing && !t.contains_key(peer_id) {
                        Err(SessionError::Untrusted)
                    } else if trust matches Some(t) && !pairing && t[peer_id].identity_pk != pk {
                        Err(SessionError::KeyMismatch)
                    } else {
                        Ok(peer_id)
                    }
                },
                _ => Err(SessionError::BadEncoding),
            }
        },
        _ => Err(SessionError::UnexpectedMessage),
    }
}

/// A successful handshake returns the peer-id derived from the presented
/// public key: claiming another peer's id under one's own key is refused.
pub proof fn lemma_handshake_binding(
    m: MessageView,
    pairing: bool,
    trust: Option<Map<Seq<char>, TrustRecordView>>,
    window: Option<Seq<Seq<u8>>>,
)
    requires
        hello_verdict(m, pairing, trust, window) is Ok,
    ensures
        m is Hello,
        hello_verdict(m, pairing, trust, window) == Ok::<Seq<char>, SessionError>(
            hex_chars(
                hash_of(
                    b64_decode_spec(m->Hello_identity_pk_b64).unwrap(),
                ),
            ),
        ),
{
}

/// Outside pairing mode, a successful handshake returns a peer-id that is
/// pinned in the trust store under the very key the peer presented.
pub proof fn lemma_handshake_trusted(
    m: MessageView,
    trust: Map<Seq<char>, TrustRecordView>,
    window: Option<Seq<Seq<u8>>>,
)
    requires
        hello_verdict(m, false, Some(trust), window) matches Ok(pid),
    ensures
        ({
            let pid = hello_verdict(m, false, Some(trust), window).unwrap();
            &&& trust.contains_key(pid)
            &&& trust[pid].identity_pk == b64_decode_spec(m->Hello_identity_pk_b64).unwrap()
        }),
{
}

/// With replay protection, a verdict is `Replayed` exactly when the nonce
/// already stands in the peer's window; an accepted nonce joins the window,
/// so presenting the same hello again is refused while it stays there.
pub proof fn lemma_handshake_replay(
    m: MessageView,
    pairing: bool,
    trust: Option<Map<Seq<char>, TrustRecordView>>,
    w: Seq<Seq<u8>>,
    cap: nat,
)
    requires
        hello_verdict(m, pairing, trust, Some(w)) is Ok,
        cap >= 1,
        w.len() <= cap,
    ensures
        hello_verdict(m, pairing, trust, Some(window_after(w, hello_nonce(m), cap)))
            == Err::<Seq<char>, SessionError>(SessionError::Replayed),
{
    crate::replay::lemma_accepted_nonce_in_window(w, hello_nonce(m), cap);
}

/// The sequence counter after one frame: incremented, wrapping at the top.
pub open spec fn seq_after(s: u64) -> u64 {
    if s == u64::MAX {
        0u64
    } else {
        (s + 1) as u64
    }
}

/// A secure session: the local identity, the clipboard it reads and
/// writes, the optional trust and replay gates, and the per-session
/// sequence counter.
pub struct Session<I: IdentityProvider, CB: ClipboardProvider> {
    pub identity: I,
    pub clipboard: CB,
    trust_store: Option<MemoryTrustStore>,
    replay: Option<MemoryReplayProtector>,
    pairing_mode: bool,
    seq: u64,
}

impl<I: IdentityProvider, CB: ClipboardProvider> Session<I, CB> {
    /// The local identity.
    pub closed spec fn spec_identity(&self) -> I {
        self.identity
    }

    /// The local clipboard provider.
    pub closed spec fn spec_clipboard(&self) -> CB {
        self.clipboard
    }

    /// The hello message this session emits over a given nonce.
    pub open spec fn spec_hello_message(&self, nonce: Seq<u8>) -> MessageView {
        MessageView::Hello {
            peer_id: self.spec_identity().spec_peer_id(),
            version: PROTOCOL_VERSION,
            identity_pk_b64: b64_of(self.spec_identity().spec_public_key()),
            nonce_b64: b64_of(nonce),
            sig_b64: b64_of(
                self.spec_identity().spec_sign(
                    hello_transcript_bytes(
                        PROTOCOL_VERSION,
                        encode_utf8(self.spec_identity().spec_peer_id()),
                        self.spec_identity().spec_public_key(),
                        nonce,
                    ),
                ),
            ),
        }
    }

    /// The next outgoing sequence number.
    pub closed spec fn spec_seq(&self) -> u64 {
        self.seq
    }

    /// Whether the trust-store gate is bypassed for pairing.
    pub closed spec fn spec_pairing(&self) -> bool {
        self.pairing_mode
    }

    /// The pinned trust records, when a trust store is configured.
    pub closed spec fn spec_trust(&self) -> Option<Map<Seq<char>, TrustRecordView>> {
        match self.trust_store {
            Some(ref t) => Some(t@),
            None => None,
        }
    }

    /// Whether replay protection is configured.
    pub closed spec fn spec_has_replay(&self) -> bool {
        self.replay is Some
    }

    /// The replay window of a peer; empty without replay protection.
    pub closed spec fn spec_replay_window(&self, pid: Seq<char>) -> Seq<Seq<u8>> {
        match self.replay {
            Some(ref rp) => rp.spec_window(pid),
            None => Seq::empty(),
        }
    }

    /// The replay capacity; zero without replay protection.
    pub closed spec fn spec_replay_cap(&self) -> nat {
        match self.replay {
            Some(ref rp) => rp.spec_capacity(),
            None => 0,
        }
    }

    /// The configuration and gates are unchanged between two states.
    pub open spec fn config_unchanged(pre: Self, post: Self) -> bool {
        &&& post.spec_pairing() == pre.spec_pairing()
        &&& post.spec_trust() == pre.spec_trust()
        &&& post.spec_has_replay() == pre.spec_has_replay()
        &&& post.spec_replay_cap() == pre.spec_replay_cap()
    }

    /// A bare session: accepts any peer (tests only).
    pub fn new(identity: I, clipboard: CB) -> (r: Session<I, CB>)
        ensures
            r.spec_seq() == 0,
            !r.spec_pairing(),
            r.spec_trust() is None,
            !r.spec_has_replay(),
    {
        Session {
            identity,
            clipboard,
            trust_store: None,
            replay: None,
            pairing_mode: false,
            seq: 0,
        }
    }

    /// A session that rejects peers absent from the trust store.
    pub fn with_trust(identity: I, clipboard: CB, trust_store: MemoryTrustStore) -> (r: Session<
        I,
        CB,
    >)
        ensures
            r.spec_seq() == 0,
            !r.spec_pairing(),
            r.spec_trust() == Some(trust_store@),
            !r.spec_has_replay(),
    {
        Session {
            identity,
            clipboard,
            trust_store: Some(trust_store),
            replay: None,
            pairing_mode: false,
            seq: 0,
        }
    }

    /// A session with the trust gate and nonce replay protection.
    pub fn with_trust_and_replay(
        identity: I,
        clipboard: CB,
        trust_store: MemoryTrustStore,
        replay: MemoryReplayProtector,
    ) -> (r: Session<I, CB>)
        ensures
            r.spec_seq() == 0,
            !r.spec_pairing(),
            r.spec_trust() == Some(trust_store@),
            r.spec_has_replay(),
            r.spec_replay_cap() == replay.spec_capacity(),
            forall|pid: Seq<char>|
                #[trigger] r.spec_replay_window(pid) == replay.spec_window(pid),
    {
        Session {
            identity,
            clipboard,
            trust_store: Some(trust_store),
            replay: Some(replay),
            pairing_mode: false,
            seq: 0,
        }
    }

    /// A pairing-mode session: unknown peers are accepted, but every
    /// cryptographic check still applies.
    pub fn with_pairing_mode(identity: I, clipboard: CB, trust_store: MemoryTrustStore) -> (r:
        Session<I, CB>)
        ensures
            r.spec_seq() == 0,
            r.spec_pairing(),
            r.spec_trust() == Some(trust_store@),
            !r.spec_has_replay(),
    {
        Session {
            identity,
            clipboard,
            trust_store: Some(trust_store),
            replay: None,
            pairing_mode: true,
            seq: 0,
        }
    }

    /// A pairing-mode session with replay protection.
    pub fn with_pairing_mode_and_replay(
        identity: I,
        clipboard: CB,
        trust_store: MemoryTrustStore,
        replay: MemoryReplayProtector,
    ) -> (r: Session<I, CB>)
        ensures
            r.spec_seq() == 0,
            r.spec_pairing(),
            r.spec_trust() == Some(trust_store@),
            r.spec_has_replay(),
            r.spec_replay_cap() == replay.spec_capacity(),
            forall|pid: Seq<char>|
                #[trigger] r.spec_replay_window(pid) == replay.spec_window(pid),
    {
        Session {
            identity,
            clipboard,
            trust_store: Some(trust_store),
            replay: Some(replay),
            pairing_mode: true,
            seq: 0,
        }
    }

    /// Hand the replay protector back to the caller, so one protector can
    /// guard consecutive sessions; the session keeps its other state.
    pub fn take_replay(&mut self) -> (r: Option<MemoryReplayProtector>)
        ensures
            !final(self).spec_has_replay(),
            final(self).spec_pairing() == old(self).spec_pairing(),
            final(self).spec_trust() == old(self).spec_trust(),
            final(self).spec_seq() == old(self).spec_seq(),
            final(self).spec_identity() == old(self).spec_identity(),
            final(self).spec_clipboard() == old(self).spec_clipboard(),
            r is Some <==> old(self).spec_has_replay(),
            r matches Some(rp) ==> rp.spec_capacity() == old(self).spec_replay_cap() && forall|
                pid: Seq<char>,
            | #[trigger] rp.spec_window(pid) == old(self).spec_replay_window(pid),
    {
        let mut taken: Option<MemoryReplayProtector> = None;
        core::mem::swap(&mut taken, &mut self.replay);
        taken
    }

    /// Advance the sequence counter, wrapping at the top.
    fn next_seq(&mut self) -> (r: u64)
        ensures
            r == old(self).spec_seq(),
            final(self).spec_seq() == (if old(self).spec_seq() == u64::MAX {
                0u64
            } else {
                (old(self).spec_seq() + 1) as u64
            }),
            Self::config_unchanged(*old(self), *final(self)),
            final(self).spec_identity() == old(self).spec_identity(),
            final(self).spec_clipboard() == old(self).spec_clipboard(),
            forall|pid: Seq<char>|
                #[trigger] final(self).spec_replay_window(pid) == old(self).spec_replay_window(
                    pid,
                ),
    {
        let s = self.seq;
        self.seq = if s == u64::MAX {
            0
        } else {
            s + 1
        };
        s
    }

    /// Build the outgoing frame of a message, assigning the next sequence
    /// number. Fails exactly when the payload exceeds the frame cap.
    pub fn outgoing_frame(&mut self, msg: &Message) -> (r: Result<Frame, SessionError>)
        ensures
            Self::config_unchanged(*old(self), *final(self)),
            final(self).spec_identity() == old(self).spec_identity(),
            final(self).spec_clipboard() == old(self).spec_clipboard(),
            forall|pid: Seq<char>|
                #[trigger] final(self).spec_replay_window(pid) == old(self).spec_replay_window(
                    pid,
                ),
            r is Ok <==> payload_bytes(msg@).len() <= MAX_PAYLOAD_LEN,
            match r {
                Ok(f) => {
                    &&& f@.payload == payload_bytes(msg@)
                    &&& f@.seq == old(self).spec_seq()
                    &&& f@.version == PROTOCOL_VERSION
                    &&& f@.msg_type == msg@.spec_msg_type().spec_code()
                    &&& f@.stream_id == msg@.spec_stream_id().spec_code()
                    &&& final(self).spec_seq() == seq_after(old(self).spec_seq())
                },
                Err(e) => e == SessionError::TooLarge && *final(self) == *old(self),
            },
    {
        let payload = encode_payload(msg);
        if payload.len() > MAX_PAYLOAD_LEN {
            return Err(SessionError::TooLarge);
        }
        let seq = self.next_seq();
        let f = Frame::new(msg.msg_type(), msg.stream_id(), seq, payload);
        proof {
            if old(self).spec_seq() != u64::MAX {
                assert(self.spec_seq() == old(self).spec_seq() + 1);
            }
        }
        Ok(f)
    }

    /// Build this side's `Hello` frame over a fresh 32-byte nonce: the
    /// identity's peer-id and public key, and a signature over the
    /// canonical transcript, all base64 where binary.
    pub fn hello_frame(&mut self, nonce: &[u8]) -> (r: Result<Frame, SessionError>)
        requires
            nonce@.len() == 32,
        ensures
            Self::config_unchanged(*old(self), *final(self)),
            final(self).spec_clipboard() == old(self).spec_clipboard(),
            forall|pid: Seq<char>|
                #[trigger] final(self).spec_replay_window(pid) == old(self).spec_replay_window(
                    pid,
                ),
            r is Ok <==> payload_bytes(old(self).spec_hello_message(nonce@)).len()
                <= MAX_PAYLOAD_LEN,
            match r {
                Ok(f) => {
                    &&& f@.seq == old(self).spec_seq()
                    &&& f@.payload == payload_bytes(old(self).spec_hello_message(nonce@))
                    &&& f@.version == PROTOCOL_VERSION
                    &&& f@.msg_type == 1
                    &&& f@.stream_id == 1
                    &&& final(self).spec_seq() == seq_after(old(self).spec_seq())
                },
                Err(e) => e == SessionError::TooLarge && final(self).spec_seq() == old(
                    self,
                ).spec_seq(),
            },
    {
        let peer_id = <String as vstd::string::StringExecFns>::from_str(self.identity.peer_id());
        let pk = self.identity.public_key_bytes();
        let transcript = hello_transcript(
            PROTOCOL_VERSION,
            peer_id.as_str(),
            pk.as_slice(),
            nonce,
        );
        let sig = self.identity.sign(transcript.as_slice());
        let msg = Message::Hello {
            peer_id,
            version: PROTOCOL_VERSION,
            identity_pk_b64: b64_encode(pk.as_slice()),
            nonce_b64: b64_encode(nonce),
            sig_b64: b64_encode(sig.as_slice()),
        };
        self.outgoing_frame(&msg)
    }

    /// Build a `Hello` frame over a nonce drawn from the system's
    /// randomness source.
    pub fn send_hello(&mut self) -> (r: Result<Frame, SessionError>)
        ensures
            Self::config_unchanged(*old(self), *final(self)),
            final(self).spec_clipboard() == old(self).spec_clipboard(),
            forall|pid: Seq<char>|
                #[trigger] final(self).spec_replay_window(pid) == old(self).spec_replay_window(
                    pid,
                ),
            match r {
                Ok(f) => {
                    &&& exists|nonce: Seq<u8>|
                        #![trigger payload_bytes(old(self).spec_hello_message(nonce))]
                        nonce.len() == 32 && f@.payload == payload_bytes(
                            old(self).spec_hello_message(nonce),
                        )
                    &&& f@.seq == old(self).spec_seq()
                    &&& f@.version == PROTOCOL_VERSION
                    &&& f@.msg_type == 1
                    &&& f@.stream_id == 1
                    &&& final(self).spec_seq() == seq_after(old(self).spec_seq())
                },
                Err(e) => {
                    &&& e == SessionError::TooLarge
                    &&& final(self).spec_seq() == old(self).spec_seq()
                    &&& exists|nonce: Seq<u8>|
                        #![trigger payload_bytes(old(self).spec_hello_message(nonce))]
                        nonce.len() == 32 && payload_bytes(old(self).spec_hello_message(nonce)).len()
                            > MAX_PAYLOAD_LEN
                },
            },
    {
        let nonce = random_bytes_32();
        let r = self.hello_frame(nonce.as_slice());
        proof {
            assert(nonce@.len() == 32);
        }
        r
    }

    /// Verify a received `Hello` frame, in the prescribed order, closing
    /// nothing itself: the caller closes the transport on any error.
    ///
    /// The result equals the spec-level verdict of the unique message the
    /// payload encodes; on success the peer's nonce joins its replay
    /// window, and nothing else changes.
    pub fn process_hello(&mut self, frame: &Frame) -> (r: Result<String, SessionError>)
        ensures
            Self::config_unchanged(*old(self), *final(self)),
            final(self).spec_seq() == old(self).spec_seq(),
            final(self).spec_identity() == old(self).spec_identity(),
            final(self).spec_clipboard() == old(self).spec_clipboard(),
            (r matches Err(e) && e == SessionError::Decode) <==> (forall|m: MessageView|
                frame@.payload != payload_bytes(m)),
            (forall|m: MessageView| frame@.payload != payload_bytes(m)) ==> forall|p2: Seq<char>|
                #[trigger] final(self).spec_replay_window(p2) == old(self).spec_replay_window(p2),
            forall|m: MessageView| #![trigger payload_bytes(m)]
                frame@.payload == payload_bytes(m) ==> ({
                    let verdict = hello_verdict(
                        m,
                        old(self).spec_pairing(),
                        old(self).spec_trust(),
                        if old(self).spec_has_replay() {
                            Some(old(self).spec_replay_window(hello_peer_id(m)))
                        } else {
                            None
                        },
                    );
                    let stored = verdict is Ok || verdict == Err::<Seq<char>, SessionError>(
                        SessionError::Untrusted,
                    ) || verdict == Err::<Seq<char>, SessionError>(SessionError::KeyMismatch);
                    &&& (match r {
                        Ok(pid) => verdict == Ok::<Seq<char>, SessionError>(pid@),
                        Err(e) => verdict == Err::<Seq<char>, SessionError>(e),
                    })
                    &&& forall|p2: Seq<char>|
                        #[trigger] final(self).spec_replay_window(p2) == (
                        if old(self).spec_has_replay() && stored && p2 == hello_peer_id(m) {
                            window_after(
                                old(self).spec_replay_window(p2),
                                hello_nonce(m),
                                old(self).spec_replay_cap(),
                            )
                        } else {
                            old(self).spec_replay_window(p2)
                        })
                }),
    {
        let msg = match decode_payload(frame.payload.as_slice()) {
            Some(m) => m,
            None => {
                return Err(SessionError::Decode);
            },
        };
        let ghost mv = msg@;
        match msg {
            Message::Hello { peer_id, version, identity_pk_b64, nonce_b64, sig_b64 } => {
                let pk = match b64_decode(identity_pk_b64.as_str()) {
                    Some(v) => v,
                    None => {
                        return Err(SessionError::BadEncoding);
                    },
                };
                let nonce = match b64_decode(nonce_b64.as_str()) {
                    Some(v) => v,
                    None => {
                        return Err(SessionError::BadEncoding);
                    },
                };
                let sig = match b64_decode(sig_b64.as_str()) {
                    Some(v) => v,
                    None => {
                        return Err(SessionError::BadEncoding);
                    },
                };
                if pk.len() != 32 {
                    return Err(SessionError::InvalidPkLength);
                }
                if nonce.len() != 32 {
                    return Err(SessionError::InvalidNonceLength);
                }
                if sig.len() != 64 {
                    return Err(SessionError::InvalidSigLength);
                }
                let derived = Ed25519Identity::peer_id_from_public_key(pk.as_slice());
                if !str_eq(derived.as_str(), peer_id.as_str()) {
                    return Err(SessionError::BindingMismatch);
                }
                let transcript = hello_transcript(
                    version,
                    peer_id.as_str(),
                    pk.as_slice(),
                    nonce.as_slice(),
                );
                if !Ed25519Identity::verify_with_public_key(
                    transcript.as_slice(),
                    sig.as_slice(),
                    pk.as_slice(),
                ) {
                    return Err(SessionError::BadSignature);
                }
                match &mut self.replay {
                    Some(rp) => {
                        match rp.check_and_store(peer_id.as_str(), nonce.as_slice()) {
                            Ok(()) => {},
                            Err(ReplayError::Replayed) => {
                                return Err(SessionError::Replayed);
                            },
                            Err(ReplayError::InvalidNonce) => {
                                proof {
                                    assert(false);
                                }
                                return Err(SessionError::InvalidNonceLength);
                            },
                        }
                    },
                    None => {},
                }
                match &self.trust_store {
                    Some(store) => {
                        if !self.pairing_mode {
                            match store.get(peer_id.as_str()) {
                                None => {
                                    return Err(SessionError::Untrusted);
                                },
                                Some(rec) => {
                                    if !bytes_eq(rec.identity_pk.as_slice(), pk.as_slice()) {
                                        return Err(SessionError::KeyMismatch);
                                    }
                                },
                            }
                        }
                    },
                    None => {},
                }
                Ok(peer_id)
            },
            _ => Err(SessionError::UnexpectedMessage),
        }
    }

    /// The message that carries given clipboard content: nothing for an
    /// empty clipboard, `ClipText` for text, `ClipImage` with base64 bytes
    /// for an image.
    pub fn clip_message(content: &ClipboardContent, ts_ms: u64) -> (r: Option<Message>)
        ensures
            match r {
                Some(m) => match content@ {
                    crate::clipboard::ClipboardContentView::Empty => false,
                    crate::clipboard::ClipboardContentView::Text(t) => m@
                        == MessageView::ClipText { mime: "text/plain"@, text: t, ts_ms },
                    crate::clipboard::ClipboardContentView::Image {
                        mime,
                        width,
                        height,
                        bytes,
                    } => m@ == MessageView::ClipImage {
                        mime,
                        width,
                        height,
                        bytes_b64: b64_of(bytes),
                        ts_ms,
                    },
                },
                None => content@ is Empty,
            },
    {
        match content {
            ClipboardContent::Empty => None,
            ClipboardContent::Text(t) => Some(
                Message::ClipText {
                    mime: <String as vstd::string::StringExecFns>::from_str("text/plain"),
                    text: t.clone(),
                    ts_ms,
                },
            ),
            ClipboardContent::Image { mime, width, height, bytes } => Some(
                Message::ClipImage {
                    mime: mime.clone(),
                    width: *width,
                    height: *height,
                    bytes_b64: b64_encode(bytes.as_slice()),
                    ts_ms,
                },
            ),
        }
    }

    /// Read the local clipboard and build the frame that carries it: no
    /// frame for an empty clipboard, `ClipText` for text, `ClipImage` for
    /// an image, stamped with the wall clock.
    pub fn send_clipboard(&mut self) -> (r: Result<Option<Frame>, SessionError>)
        ensures
            Self::config_unchanged(*old(self), *final(self)),
            final(self).spec_identity() == old(self).spec_identity(),
            forall|pid: Seq<char>|
                #[trigger] final(self).spec_replay_window(pid) == old(self).spec_replay_window(
                    pid,
                ),
            match r {
                Ok(of) => match of {
                    Some(f) => exists|m: MessageView|
                        #![trigger payload_bytes(m)]
                        f@.payload == payload_bytes(m) && (m is ClipText || m is ClipImage),
                    None => true,
                },
                Err(e) => e == SessionError::Clipboard || e == SessionError::TooLarge,
            },
    {
        let content = match self.clipboard.read() {
            Ok(c) => c,
            Err(_) => {
                return Err(SessionError::Clipboard);
            },
        };
        let ts = now_ms();
        let msg = match Self::clip_message(&content, ts) {
            Some(m) => m,
            None => {
                return Ok(None);
            },
        };
        match self.outgoing_frame(&msg) {
            Ok(f) => {
                proof {
                    assert(!(content@ is Empty));
                }
                Ok(Some(f))
            },
            Err(_) => Err(SessionError::TooLarge),
        }
    }

    /// Apply a received clipboard frame to the local clipboard: text is
    /// written as text, images after base64 decoding; other messages are
    /// ignored. Returns the content that was written, or nothing for an
    /// ignored message.
    pub fn receive_clipboard(&mut self, frame: &Frame) -> (r: Result<
        Option<ClipboardContent>,
        SessionError,
    >)
        ensures
            Self::config_unchanged(*old(self), *final(self)),
            final(self).spec_seq() == old(self).spec_seq(),
            final(self).spec_identity() == old(self).spec_identity(),
            forall|pid: Seq<char>|
                #[trigger] final(self).spec_replay_window(pid) == old(self).spec_replay_window(
                    pid,
                ),
            (r matches Err(e) && e == SessionError::Decode) <==> (forall|m: MessageView|
                frame@.payload != payload_bytes(m)),
            forall|m: MessageView| #![trigger payload_bytes(m)]
                frame@.payload == payload_bytes(m) ==> ({
                    &&& (!(m is ClipText) && !(m is ClipImage) ==> (r matches Ok(c) && c is None
                        && final(self).spec_clipboard() == old(self).spec_clipboard()))
                    &&& ((r matches Err(e) && e == SessionError::BadEncoding) <==> (
                    m matches MessageView::ClipImage { bytes_b64, .. } && b64_decode_spec(
                        bytes_b64,
                    ) is None))
                    &&& (m matches MessageView::ClipText { text, .. } ==> match r {
                        Ok(c) => c matches Some(cc) && cc@
                            == crate::clipboard::ClipboardContentView::Text(text),
                        Err(e) => e == SessionError::Clipboard,
                    })
                    &&& (m matches MessageView::ClipImage { mime, width, height, bytes_b64, .. }
                        ==> (b64_decode_spec(bytes_b64) matches Some(bytes) ==> match r {
                        Ok(c) => c matches Some(cc) && cc@
                            == (crate::clipboard::ClipboardContentView::Image {
                            mime,
                            width,
                            height,
                            bytes,
                        }),
                        Err(e) => e == SessionError::Clipboard,
                    }))
                }),
    {
        let msg = match decode_payload(frame.payload.as_slice()) {
            Some(m) => m,
            None => {
                return Err(SessionError::Decode);
            },
        };
        match msg {
            Message::ClipText { text, .. } => {
                let content = ClipboardContent::Text(text);
                match self.clipboard.write(content.duplicate()) {
                    Ok(()) => Ok(Some(content)),
                    Err(_) => Err(SessionError::Clipboard),
                }
            },
            Message::ClipImage { mime, width, height, bytes_b64, .. } => {
                let bytes = match b64_decode(bytes_b64.as_str()) {
                    Some(v) => v,
                    None => {
                        return Err(SessionError::BadEncoding);
                    },
                };
                let content = ClipboardContent::Image { mime, width, height, bytes };
                match self.clipboard.write(content.duplicate()) {
                    Ok(()) => Ok(Some(content)),
                    Err(_) => Err(SessionError::Clipboard),
                }
            },
            _ => Ok(None),
        }
    }

    /// Build a `FileOffer` frame.
    pub fn send_file_offer(&mut self, file_id: &str, name: &str, size: u64, mime: &str) -> (r:
        Result<Frame, SessionError>)
        ensures
            Self::config_unchanged(*old(self), *final(self)),
            final(self).spec_identity() == old(self).spec_identity(),
            final(self).spec_clipboard() == old(self).spec_clipboard(),
            ({
                let mv = MessageView::FileOffer {
                    file_id: file_id@,
                    name: name@,
                    size,
                    mime: mime@,
                };
                &&& (r is Ok <==> payload_bytes(mv).len() <= MAX_PAYLOAD_LEN)
                &&& match r {
                    Ok(f) => {
                        &&& f@.payload == payload_bytes(mv)
                        &&& f@.seq == old(self).spec_seq()
                        &&& f@.version == PROTOCOL_VERSION
                        &&& f@.msg_type == 20
                        &&& f@.stream_id == 3
                        &&& final(self).spec_seq() == seq_after(old(self).spec_seq())
                    },
                    Err(e) => e == SessionError::TooLarge && final(self).spec_seq() == old(
                        self,
                    ).spec_seq(),
                }
            }),
    {
        let msg = Message::FileOffer {
            file_id: <String as vstd::string::StringExecFns>::from_str(file_id),
            name: <String as vstd::string::StringExecFns>::from_str(name),
            size,
            mime: <String as vstd::string::StringExecFns>::from_str(mime),
        };
        self.outgoing_frame(&msg)
    }

    /// Build a `FileAccept` frame.
    pub fn send_file_accept(&mut self, file_id: &str) -> (r: Result<Frame, SessionError>)
        ensures
            Self::config_unchanged(*old(self), *final(self)),
            final(self).spec_identity() == old(self).spec_identity(),
            final(self).spec_clipboard() == old(self).spec_clipboard(),
            ({
                let mv = MessageView::FileAccept { file_id: file_id@ };
                &&& (r is Ok <==> payload_bytes(mv).len() <= MAX_PAYLOAD_LEN)
                &&& match r {
                    Ok(f) => {
                        &&& f@.payload == payload_bytes(mv)
                        &&& f@.seq == old(self).spec_seq()
                        &&& f@.version == PROTOCOL_VERSION
                        &&& f@.msg_type == 21
                        &&& f@.stream_id == 3
                        &&& final(self).spec_seq() == seq_after(old(self).spec_seq())
                    },
                    Err(e) => e == SessionError::TooLarge && final(self).spec_seq() == old(
                        self,
                    ).spec_seq(),
                }
            }),
    {
        let msg = Message::FileAccept {
            file_id: <String as vstd::string::StringExecFns>::from_str(file_id),
        };
        self.outgoing_frame(&msg)
    }

    /// Build a `FileChunk` frame: the bytes travel base64-encoded.
    pub fn send_file_chunk(&mut self, file_id: &str, offset: u64, data: &[u8]) -> (r: Result<
        Frame,
        SessionError,
    >)
        ensures
            Self::config_unchanged(*old(self), *final(self)),
            final(self).spec_identity() == old(self).spec_identity(),
            final(self).spec_clipboard() == old(self).spec_clipboard(),
            ({
                let mv = MessageView::FileChunk {
                    file_id: file_id@,
                    offset,
                    data_b64: b64_of(data@),
                };
                &&& (r is Ok <==> payload_bytes(mv).len() <= MAX_PAYLOAD_LEN)
                &&& match r {
                    Ok(f) => {
                        &&& f@.payload == payload_bytes(mv)
                        &&& f@.seq == old(self).spec_seq()
                        &&& f@.version == PROTOCOL_VERSION
                        &&& f@.msg_type == 23
                        &&& f@.stream_id == 3
                        &&& final(self).spec_seq() == seq_after(old(self).spec_seq())
                    },
                    Err(e) => e == SessionError::TooLarge && final(self).spec_seq() == old(
                        self,
                    ).spec_seq(),
                }
            }),
    {
        let msg = Message::FileChunk {
            file_id: <String as vstd::string::StringExecFns>::from_str(file_id),
            offset,
            data_b64: b64_encode(data),
        };
        self.outgoing_frame(&msg)
    }

    /// Build a `FileDone` frame carrying the content hash.
    pub fn send_file_done(&mut self, file_id: &str, hash: &str) -> (r: Result<Frame, SessionError>)
        ensures
            Self::config_unchanged(*old(self), *final(self)),
            final(self).spec_identity() == old(self).spec_identity(),
            final(self).spec_clipboard() == old(self).spec_clipboard(),
            ({
                let mv = MessageView::FileDone { file_id: file_id@, hash: hash@ };
                &&& (r is Ok <==> payload_bytes(mv).len() <= MAX_PAYLOAD_LEN)
                &&& match r {
                    Ok(f) => {
                        &&& f@.payload == payload_bytes(mv)
                        &&& f@.seq == old(self).spec_seq()
                        &&& f@.version == PROTOCOL_VERSION
                        &&& f@.msg_type == 24
                        &&& f@.stream_id == 3
                        &&& final(self).spec_seq() == seq_after(old(self).spec_seq())
                    },
                    Err(e) => e == SessionError::TooLarge && final(self).spec_seq() == old(
                        self,
                    ).spec_seq(),
                }
            }),
    {
        let msg = Message::FileDone {
            file_id: <String as vstd::string::StringExecFns>::from_str(file_id),
            hash: <String as vstd::string::StringExecFns>::from_str(hash),
        };
        self.outgoing_frame(&msg)
    }

    /// Parse the message a received frame carries.
    pub fn recv_message(&self, frame: &Frame) -> (r: Result<Message, SessionError>)
        ensures
            match r {
                Ok(m) => frame@.payload == payload_bytes(m@) && (forall|v: MessageView|
                    frame@.payload == payload_bytes(v) ==> v == m@),
                Err(e) => e == SessionError::Decode && (forall|v: MessageView|
                    frame@.payload != payload_bytes(v)),
            },
    {
        match decode_payload(frame.payload.as_slice()) {
            Some(m) => Ok(m),
            None => Err(SessionError::Decode),
        }
    }
}

} // verus!
