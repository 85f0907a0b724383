//! Frame codec tests: round trips, the payload cap, and decoder
//! robustness on arbitrary bytes.

use openclipboard::wire::put_be_u32;
use openclipboard::{decode_frame, encode_frame, Frame, FrameDecodeError, MsgType, StreamId};

#[test]
fn roundtrip_frame() {
    let f = Frame::new(MsgType::Ping, StreamId::Control, 42, b"hi".to_vec());
    let enc = encode_frame(&f);
    let dec = decode_frame(&enc).unwrap();
    assert_eq!(dec, f);
}

#[test]
fn frame_roundtrip() {
    let f = Frame::new(MsgType::Ping, StreamId::Control, 42, b"hi".to_vec());
    let enc = encode_frame(&f);
    let dec = decode_frame(&enc).unwrap();
    assert_eq!(dec, f);
}

#[test]
fn reject_oversized_payload_len() {
    // Only provide the header; the decoder must reject on the declared
    // length before reading any payload.
    let mut b: Vec<u8> = Vec::new();
    b.push(openclipboard::PROTOCOL_VERSION);
    b.push(MsgType::Ping.code());
    put_be_u32(&mut b, StreamId::Control.code());
    openclipboard::wire::put_be_u64(&mut b, 1);
    put_be_u32(&mut b, (openclipboard::MAX_PAYLOAD_LEN as u32) + 1);
    let err = decode_frame(&b).unwrap_err();
    assert_eq!(err, FrameDecodeError::PayloadTooLarge);
}

#[test]
fn reject_truncated_and_short_inputs() {
    assert_eq!(decode_frame(&[]).unwrap_err(), FrameDecodeError::Insufficient);
    assert_eq!(decode_frame(&[0u8; 17]).unwrap_err(), FrameDecodeError::Insufficient);
    let mut b: Vec<u8> = vec![0u8; 14];
    put_be_u32(&mut b, 5);
    assert_eq!(decode_frame(&b).unwrap_err(), FrameDecodeError::PayloadTruncated);
}

fn xorshift(state: &mut u64) -> u64 {
    let mut x = *state;
    x ^= x << 13;
    x ^= x >> 7;
    x ^= x << 17;
    *state = x;
    x
}

#[test]
fn decode_frame_never_panics() {
    let mut state: u64 = 0x243F6A8885A308D3;
    for round in 0..200 {
        let len = (xorshift(&mut state) % 4096) as usize;
        let mut data = Vec::with_capacity(len);
        for _ in 0..len {
            data.push((xorshift(&mut state) & 0xff) as u8);
        }
        let _ = decode_frame(&data);
        let _ = openclipboard::decode_message(&data);
        let _ = round;
    }
}

#[test]
fn header_fields_roundtrip_exactly() {
    let f = Frame::new(
        MsgType::FileChunk,
        StreamId::File,
        0xDEAD_BEEF_CAFE_F00D,
        vec![7u8; 1000],
    );
    let enc = encode_frame(&f);
    let dec = decode_frame(&enc).unwrap();
    assert_eq!(dec.version, openclipboard::PROTOCOL_VERSION);
    assert_eq!(dec.msg_type, MsgType::FileChunk.code());
    assert_eq!(dec.stream_id, StreamId::File.code());
    assert_eq!(dec.seq, 0xDEAD_BEEF_CAFE_F00D);
    assert_eq!(dec.payload, vec![7u8; 1000]);
}
