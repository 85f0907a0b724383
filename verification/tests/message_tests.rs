//! Message catalogue round trips: every variant survives an encode and
//! decode, keeping its sequence number.

use openclipboard::{decode_message, encode_message, Message, MsgType};

fn roundtrip(msg: Message) {
    let enc = encode_message(&msg, 1).unwrap();
    let (dec, seq) = decode_message(&enc).unwrap();
    assert_eq!(seq, 1);
    assert_eq!(dec, msg);
}

#[test]
fn roundtrip_hello() {
    roundtrip(Message::Hello {
        peer_id: "abc".into(),
        version: 0,
        identity_pk_b64: "AQID".into(),
        nonce_b64: "BAUG".into(),
        sig_b64: "BwgJ".into(),
    });
}

#[test]
fn roundtrip_ping() {
    roundtrip(Message::Ping { ts_ms: 123 });
}

#[test]
fn roundtrip_pong() {
    roundtrip(Message::Pong { ts_ms: 456 });
}

#[test]
fn roundtrip_clip_text() {
    roundtrip(Message::ClipText { mime: "text/plain".into(), text: "hello".into(), ts_ms: 1 });
}

#[test]
fn roundtrip_clip_image() {
    roundtrip(Message::ClipImage {
        mime: "image/png".into(),
        width: 10,
        height: 10,
        bytes_b64: "AAAA".into(),
        ts_ms: 2,
    });
}

#[test]
fn roundtrip_file_offer() {
    roundtrip(Message::FileOffer {
        file_id: "f1".into(),
        name: "a.txt".into(),
        size: 100,
        mime: "text/plain".into(),
    });
}

#[test]
fn roundtrip_file_accept() {
    roundtrip(Message::FileAccept { file_id: "f1".into() });
}

#[test]
fn roundtrip_file_reject() {
    roundtrip(Message::FileReject { file_id: "f1".into(), reason: "no".into() });
}

#[test]
fn roundtrip_file_chunk() {
    roundtrip(Message::FileChunk { file_id: "f1".into(), offset: 0, data_b64: "AQID".into() });
}

#[test]
fn roundtrip_file_done() {
    roundtrip(Message::FileDone { file_id: "f1".into(), hash: "abc123".into() });
}

fn xorshift(state: &mut u64) -> u64 {
    let mut x = *state;
    x ^= x << 13;
    x ^= x >> 7;
    x ^= x << 17;
    *state = x;
    x
}

fn arb_string(state: &mut u64) -> String {
    let len = (xorshift(state) % 64) as usize;
    let mut s = String::new();
    for _ in 0..len {
        // A mix of printable ASCII, separators, and multibyte characters.
        let c = match xorshift(state) % 6 {
            0 => ':',
            1 => '\n',
            2 => '\u{00e9}',
            3 => '\u{1F389}',
            4 => '"',
            _ => ((xorshift(state) % 94) as u8 + 32) as char,
        };
        s.push(c);
    }
    s
}

#[test]
fn message_encode_decode_roundtrip() {
    let mut state: u64 = 0x9E3779B97F4A7C15;
    for round in 0..60 {
        let seq = xorshift(&mut state);
        let msg = match round % 10 {
            0 => Message::Hello {
                peer_id: arb_string(&mut state),
                version: (xorshift(&mut state) & 0xff) as u8,
                identity_pk_b64: arb_string(&mut state),
                nonce_b64: arb_string(&mut state),
                sig_b64: arb_string(&mut state),
            },
            1 => Message::Ping { ts_ms: xorshift(&mut state) },
            2 => Message::Pong { ts_ms: xorshift(&mut state) },
            3 => Message::ClipText {
                mime: arb_string(&mut state),
                text: arb_string(&mut state),
                ts_ms: xorshift(&mut state),
            },
            4 => Message::ClipImage {
                mime: arb_string(&mut state),
                width: (xorshift(&mut state) & 0xffff_ffff) as u32,
                height: (xorshift(&mut state) & 0xffff_ffff) as u32,
                bytes_b64: arb_string(&mut state),
                ts_ms: xorshift(&mut state),
            },
            5 => Message::FileOffer {
                file_id: arb_string(&mut state),
                name: arb_string(&mut state),
                size: xorshift(&mut state),
                mime: arb_string(&mut state),
            },
            6 => Message::FileAccept { file_id: arb_string(&mut state) },
            7 => Message::FileReject {
                file_id: arb_string(&mut state),
                reason: arb_string(&mut state),
            },
            8 => Message::FileChunk {
                file_id: arb_string(&mut state),
                offset: xorshift(&mut state),
                data_b64: arb_string(&mut state),
            },
            _ => Message::FileDone {
                file_id: arb_string(&mut state),
                hash: arb_string(&mut state),
            },
        };
        let enc = encode_message(&msg, seq).expect("encode_message");
        let (dec, got_seq) = decode_message(&enc).expect("decode_message");
        assert_eq!(got_seq, seq);
        assert_eq!(dec, msg);
    }
}

#[test]
fn msg_type_codes_match_catalogue() {
    assert_eq!(MsgType::Hello.code(), 1);
    assert_eq!(MsgType::Ping.code(), 2);
    assert_eq!(MsgType::Pong.code(), 3);
    assert_eq!(MsgType::ClipText.code(), 10);
    assert_eq!(MsgType::ClipImage.code(), 11);
    assert_eq!(MsgType::FileOffer.code(), 20);
    assert_eq!(MsgType::FileAccept.code(), 21);
    assert_eq!(MsgType::FileReject.code(), 22);
    assert_eq!(MsgType::FileChunk.code(), 23);
    assert_eq!(MsgType::FileDone.code(), 24);
    assert_eq!(MsgType::from_u8(10), Some(MsgType::ClipText));
    assert_eq!(MsgType::from_u8(99), None);
}
