//! Session handshake and message-plane tests: trusted acceptance, spoof
//! and signature rejection, replay, field lengths, clipboard transfer,
//! and file transfer integrity.

use base64::Engine as _;

use openclipboard::text::to_hex;
use openclipboard::{
    decode_frame, encode_message, hello_transcript, ClipboardContent, ClipboardProvider,
    Ed25519Identity, Frame, IdentityProvider, MemoryReplayProtector, MemoryTrustStore, Message,
    MockClipboard, Session, SessionError, TrustRecord, PROTOCOL_VERSION,
};

fn trust_of(id: &Ed25519Identity, name: &str) -> TrustRecord {
    TrustRecord {
        peer_id: id.peer_id().to_string(),
        identity_pk: id.public_key_bytes(),
        display_name: name.to_string(),
        created_at: 1_700_000_000_000,
    }
}

fn b64(data: &[u8]) -> String {
    base64::engine::general_purpose::STANDARD.encode(data)
}

/// A signed hello frame, with every field under the caller's control.
fn make_signed_hello(
    signing_identity: &Ed25519Identity,
    claimed_peer_id: String,
    presented_pk: Vec<u8>,
    nonce: [u8; 32],
    sig_override: Option<Vec<u8>>,
) -> Frame {
    let version = PROTOCOL_VERSION;
    let transcript = hello_transcript(version, &claimed_peer_id, &presented_pk, &nonce);
    let sig = sig_override.unwrap_or_else(|| signing_identity.sign(&transcript));
    let msg = Message::Hello {
        peer_id: claimed_peer_id,
        version,
        identity_pk_b64: b64(&presented_pk),
        nonce_b64: b64(&nonce),
        sig_b64: b64(&sig),
    };
    let bytes = encode_message(&msg, 1).unwrap();
    decode_frame(&bytes).unwrap()
}

#[test]
fn handshake_accept_trusted_peer_with_pinned_key() {
    let alice = Ed25519Identity::generate();
    let bob = Ed25519Identity::generate();

    let mut trust_a = MemoryTrustStore::new();
    trust_a.save(trust_of(&bob, "Bob"));
    let mut trust_b = MemoryTrustStore::new();
    trust_b.save(trust_of(&alice, "Alice"));

    let alice_id = alice.peer_id().to_string();
    let bob_id = bob.peer_id().to_string();

    let mut session_a = Session::with_trust(alice, MockClipboard::new(), trust_a);
    let mut session_b = Session::with_trust(bob, MockClipboard::new(), trust_b);

    let hello_a = session_a.send_hello().unwrap();
    let hello_b = session_b.send_hello().unwrap();

    assert_eq!(session_a.process_hello(&hello_b).unwrap(), bob_id);
    assert_eq!(session_b.process_hello(&hello_a).unwrap(), alice_id);
}

#[test]
fn handshake_reject_spoofed_peer_id_with_different_public_key() {
    let alice = Ed25519Identity::generate();
    let victim = Ed25519Identity::generate();
    let attacker = Ed25519Identity::generate();

    // Alice trusts the victim's peer-id and public key.
    let mut trust_a = MemoryTrustStore::new();
    trust_a.save(trust_of(&victim, "Victim"));
    let mut session_a = Session::with_trust(alice, MockClipboard::new(), trust_a);

    // The attacker claims the victim's peer-id under its own key.
    let spoof = make_signed_hello(
        &attacker,
        victim.peer_id().to_string(),
        attacker.public_key_bytes(),
        [9u8; 32],
        None,
    );
    assert_eq!(session_a.process_hello(&spoof), Err(SessionError::BindingMismatch));
}

#[test]
fn handshake_reject_bad_signature() {
    let alice = Ed25519Identity::generate();
    let bob = Ed25519Identity::generate();

    let mut trust_a = MemoryTrustStore::new();
    trust_a.save(trust_of(&bob, "Bob"));
    let mut session_a = Session::with_trust(alice, MockClipboard::new(), trust_a);

    let bad = make_signed_hello(
        &bob,
        bob.peer_id().to_string(),
        bob.public_key_bytes(),
        [1u8; 32],
        Some(vec![0u8; 64]),
    );
    assert_eq!(session_a.process_hello(&bad), Err(SessionError::BadSignature));
}

#[test]
fn handshake_reject_untrusted_peer_when_not_pairing() {
    let alice = Ed25519Identity::generate();
    let bob = Ed25519Identity::generate();

    let trust_a = MemoryTrustStore::new();
    let mut session_a = Session::with_trust(alice, MockClipboard::new(), trust_a);

    let hello = make_signed_hello(
        &bob,
        bob.peer_id().to_string(),
        bob.public_key_bytes(),
        [2u8; 32],
        None,
    );
    assert_eq!(session_a.process_hello(&hello), Err(SessionError::Untrusted));
}

#[test]
fn handshake_reject_rotated_key_of_trusted_peer() {
    let alice = Ed25519Identity::generate();
    let bob = Ed25519Identity::generate();
    let bob_rotated = Ed25519Identity::generate();

    // Alice pinned Bob's old key under Bob's ROTATED peer-id: the presented
    // key differs from the pinned one while the binding check passes.
    let mut trust_a = MemoryTrustStore::new();
    trust_a.save(TrustRecord {
        peer_id: bob_rotated.peer_id().to_string(),
        identity_pk: bob.public_key_bytes(),
        display_name: "Bob".into(),
        created_at: 1,
    });
    let mut session_a = Session::with_trust(alice, MockClipboard::new(), trust_a);

    let hello = make_signed_hello(
        &bob_rotated,
        bob_rotated.peer_id().to_string(),
        bob_rotated.public_key_bytes(),
        [3u8; 32],
        None,
    );
    assert_eq!(session_a.process_hello(&hello), Err(SessionError::KeyMismatch));
}

#[test]
fn handshake_pairing_mode_accepts_unknown_peer_with_valid_hello() {
    let alice = Ed25519Identity::generate();
    let bob = Ed25519Identity::generate();

    let trust_a = MemoryTrustStore::new();
    let mut session_a = Session::with_pairing_mode(alice, MockClipboard::new(), trust_a);

    let hello = make_signed_hello(
        &bob,
        bob.peer_id().to_string(),
        bob.public_key_bytes(),
        [3u8; 32],
        None,
    );
    assert_eq!(session_a.process_hello(&hello).unwrap(), bob.peer_id().to_string());
}

#[test]
fn handshake_rejects_replayed_hello_nonce_when_replay_protector_enabled() {
    let alice = Ed25519Identity::generate();
    let bob = Ed25519Identity::generate();

    let trust_a = MemoryTrustStore::new();
    let replay = MemoryReplayProtector::new(16);
    let mut session_a = Session::with_pairing_mode_and_replay(
        alice,
        MockClipboard::new(),
        trust_a,
        replay,
    );

    let replayed = make_signed_hello(
        &bob,
        bob.peer_id().to_string(),
        bob.public_key_bytes(),
        [4u8; 32],
        None,
    );
    assert!(session_a.process_hello(&replayed).is_ok());
    assert_eq!(session_a.process_hello(&replayed), Err(SessionError::Replayed));
}

#[test]
fn handshake_rejects_bad_field_lengths() {
    let alice = Ed25519Identity::generate();
    let bob = Ed25519Identity::generate();
    let trust_a = MemoryTrustStore::new();
    let mut session_a = Session::with_pairing_mode(alice, MockClipboard::new(), trust_a);

    // 31-byte public key.
    let msg = Message::Hello {
        peer_id: bob.peer_id().to_string(),
        version: PROTOCOL_VERSION,
        identity_pk_b64: b64(&[1u8; 31]),
        nonce_b64: b64(&[2u8; 32]),
        sig_b64: b64(&[3u8; 64]),
    };
    let frame = decode_frame(&encode_message(&msg, 1).unwrap()).unwrap();
    assert_eq!(session_a.process_hello(&frame), Err(SessionError::InvalidPkLength));

    // 31-byte nonce.
    let msg = Message::Hello {
        peer_id: bob.peer_id().to_string(),
        version: PROTOCOL_VERSION,
        identity_pk_b64: b64(&bob.public_key_bytes()),
        nonce_b64: b64(&[2u8; 31]),
        sig_b64: b64(&[3u8; 64]),
    };
    let frame = decode_frame(&encode_message(&msg, 1).unwrap()).unwrap();
    assert_eq!(session_a.process_hello(&frame), Err(SessionError::InvalidNonceLength));

    // 63-byte signature.
    let msg = Message::Hello {
        peer_id: bob.peer_id().to_string(),
        version: PROTOCOL_VERSION,
        identity_pk_b64: b64(&bob.public_key_bytes()),
        nonce_b64: b64(&[2u8; 32]),
        sig_b64: b64(&[3u8; 63]),
    };
    let frame = decode_frame(&encode_message(&msg, 1).unwrap()).unwrap();
    assert_eq!(session_a.process_hello(&frame), Err(SessionError::InvalidSigLength));
}

#[test]
fn handshake_rejects_non_hello_message() {
    let alice = Ed25519Identity::generate();
    let trust_a = MemoryTrustStore::new();
    let mut session_a = Session::with_trust(alice, MockClipboard::new(), trust_a);
    let frame = decode_frame(&encode_message(&Message::Ping { ts_ms: 1 }, 1).unwrap()).unwrap();
    assert_eq!(session_a.process_hello(&frame), Err(SessionError::UnexpectedMessage));
}

#[test]
fn send_receive_clipboard_text() {
    let mut cb_a = MockClipboard::new();
    cb_a.write(ClipboardContent::Text("hello world".into())).unwrap();
    let mut session_a = Session::new(Ed25519Identity::generate(), cb_a);
    let session_b = Session::new(Ed25519Identity::generate(), MockClipboard::new());

    let frame = session_a.send_clipboard().unwrap().unwrap();
    let msg = session_b.recv_message(&frame).unwrap();
    match msg {
        Message::ClipText { mime, text, .. } => {
            assert_eq!(mime, "text/plain");
            assert_eq!(text, "hello world");
        },
        other => panic!("expected ClipText, got {:?}", other),
    }
}

#[test]
fn empty_clipboard_noop() {
    let mut session_a = Session::new(Ed25519Identity::generate(), MockClipboard::new());
    assert!(session_a.send_clipboard().unwrap().is_none());
}

#[test]
fn receive_clipboard_applies_text() {
    let mut session_a = Session::new(Ed25519Identity::generate(), MockClipboard::new());
    let mut sender = Session::new(Ed25519Identity::generate(), MockClipboard::new());
    let frame = sender
        .outgoing_frame(&Message::ClipText {
            mime: "text/plain".into(),
            text: "incoming".into(),
            ts_ms: 5,
        })
        .unwrap();
    let applied = session_a.receive_clipboard(&frame).unwrap().unwrap();
    assert!(applied.same_as(&ClipboardContent::Text("incoming".into())));
    assert!(session_a.clipboard.read().unwrap().same_as(&ClipboardContent::Text(
        "incoming".into()
    )));
}

#[test]
fn receive_clipboard_ignores_control_messages() {
    let mut session_a = Session::new(Ed25519Identity::generate(), MockClipboard::new());
    let mut sender = Session::new(Ed25519Identity::generate(), MockClipboard::new());
    let frame = sender.outgoing_frame(&Message::Ping { ts_ms: 7 }).unwrap();
    let applied = session_a.receive_clipboard(&frame).unwrap();
    assert!(applied.is_none());
    assert!(session_a.clipboard.read().unwrap().same_as(&ClipboardContent::Empty));
}

#[test]
fn hello_frame_travels_on_control_stream() {
    let mut s = Session::new(Ed25519Identity::generate(), MockClipboard::new());
    let f = s.send_hello().unwrap();
    assert_eq!(f.version, PROTOCOL_VERSION);
    assert_eq!(f.msg_type, 1);
    assert_eq!(f.stream_id, 1);
    assert_eq!(f.seq, 0);
}

#[test]
fn sequence_numbers_increase_per_frame() {
    let mut s = Session::new(Ed25519Identity::generate(), MockClipboard::new());
    let f0 = s.outgoing_frame(&Message::Ping { ts_ms: 0 }).unwrap();
    let f1 = s.outgoing_frame(&Message::Ping { ts_ms: 1 }).unwrap();
    let f2 = s.outgoing_frame(&Message::Pong { ts_ms: 2 }).unwrap();
    assert_eq!(f0.seq, 0);
    assert_eq!(f1.seq, 1);
    assert_eq!(f2.seq, 2);
}

#[test]
fn file_transfer_integrity() {
    // The sender offers 8 MiB of deterministic bytes; the receiver
    // reassembles the chunks and verifies length and content hash.
    let size: usize = 8 * 1024 * 1024;
    let mut data = Vec::with_capacity(size);
    for i in 0..size {
        data.push((i % 251) as u8);
    }
    let file_id = to_hex(&openclipboard::crypto::hash32(
        format!("file.bin:{}", size).as_bytes(),
    ));
    let expected_hash = to_hex(&openclipboard::crypto::hash32(&data));

    let mut sender = Session::new(Ed25519Identity::generate(), MockClipboard::new());
    let receiver = Session::new(Ed25519Identity::generate(), MockClipboard::new());

    let mut frames = Vec::new();
    frames.push(sender.send_file_offer(&file_id, "file.bin", size as u64, "application/octet-stream").unwrap());
    let chunk = 64 * 1024;
    let mut offset: usize = 0;
    while offset < size {
        let end = (offset + chunk).min(size);
        frames.push(sender.send_file_chunk(&file_id, offset as u64, &data[offset..end]).unwrap());
        offset = end;
    }
    frames.push(sender.send_file_done(&file_id, &expected_hash).unwrap());
    assert_eq!(frames.len(), 2 + 128);

    let mut received: Vec<u8> = Vec::new();
    let mut announced_size: u64 = 0;
    let mut done_hash = String::new();
    for frame in &frames {
        match receiver.recv_message(frame).unwrap() {
            Message::FileOffer { file_id: fid, size: s, .. } => {
                assert_eq!(fid, file_id);
                announced_size = s;
            },
            Message::FileChunk { file_id: fid, offset, data_b64 } => {
                assert_eq!(fid, file_id);
                assert_eq!(offset as usize, received.len());
                let bytes = base64::engine::general_purpose::STANDARD.decode(data_b64).unwrap();
                received.extend_from_slice(&bytes);
            },
            Message::FileDone { file_id: fid, hash } => {
                assert_eq!(fid, file_id);
                done_hash = hash;
            },
            other => panic!("unexpected message {:?}", other),
        }
    }
    assert_eq!(received.len() as u64, announced_size);
    assert_eq!(received, data);
    assert_eq!(done_hash, to_hex(&openclipboard::crypto::hash32(&received)));
}

#[test]
fn mesh_fanout_reaches_all_trusted_peers_and_never_the_sender() {
    // Three peers with mutual trust; the sender's text reaches both
    // others' histories and never returns to the sender, whose suppressor
    // silences the echoed write.
    let a = Ed25519Identity::generate();
    let b = Ed25519Identity::generate();
    let c = Ed25519Identity::generate();

    let mut cb_a = MockClipboard::new();
    cb_a.write(ClipboardContent::Text("mesh-hello".into())).unwrap();
    let mut session_a = Session::new(a.clone(), cb_a);
    let frame = session_a.send_clipboard().unwrap().unwrap();

    let mut histories = vec![
        (b.peer_id().to_string(), openclipboard::ClipboardHistory::new(16)),
        (c.peer_id().to_string(), openclipboard::ClipboardHistory::new(16)),
    ];
    let receiver_b = Session::new(b, MockClipboard::new());
    let receiver_c = Session::new(c, MockClipboard::new());
    for (i, receiver) in [receiver_b, receiver_c].iter().enumerate() {
        if let Message::ClipText { text, .. } = receiver.recv_message(&frame).unwrap() {
            histories[i].1.record(text, a.peer_id().to_string());
        } else {
            panic!("expected ClipText");
        }
    }
    for (_, h) in histories.iter() {
        let got = h.get_for_peer(a.peer_id(), 10);
        assert_eq!(got.len(), 1);
        assert_eq!(got[0].content, "mesh-hello");
    }

    // The sender's suppressor keeps the echoed text from rebroadcasting.
    let mut sup = openclipboard::EchoSuppressor::new(8);
    sup.note_remote_write("mesh-hello");
    assert!(sup.should_ignore_local_change("mesh-hello"));
}
