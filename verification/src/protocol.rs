//! Frame codec: fixed 18-byte big-endian header followed by payload bytes.

use vstd::prelude::*;
use vstd::string::StringSliceAdditionalSpecFns;

use crate::wire::{
    be_u32_bytes, be_u32_of, be_u64_bytes, be_u64_of, get_be_u32, get_be_u64,
    lemma_be_u32_roundtrip, lemma_be_u64_roundtrip, put_be_u32, put_be_u64, PROTOCOL_VERSION,
};

verus! {

/// Maximum allowed frame payload length: 4 MiB.
///
/// Enforced on decode so an adversarial length field cannot demand
/// an unbounded allocation.
pub const MAX_PAYLOAD_LEN: usize = 4 * 1024 * 1024;

/// Byte length of the fixed frame header.
pub const FRAME_HEADER_LEN: usize = 18;

/// Logical stream identifiers for application-level multiplexing.
#[derive(Debug, Clone, Copy, PartialEq, Eq, Structural)]
pub enum StreamId {
    Control,
    Clipboard,
    File,
}

impl StreamId {
    /// The wire value of this stream identifier.
    pub open spec fn spec_code(self) -> u32 {
        match self {
            StreamId::Control => 1,
            StreamId::Clipboard => 2,
            StreamId::File => 3,
        }
    }

    /// The wire value of this stream identifier.
    #[verifier::when_used_as_spec(spec_code)]
    pub fn code(self) -> (r: u32)
        ensures
            r == self.spec_code(),
    {
        match self {
            StreamId::Control => 1,
            StreamId::Clipboard => 2,
            StreamId::File => 3,
        }
    }
}

/// Application-level message types.
#[derive(Debug, Clone, Copy, PartialEq, Eq, Structural)]
pub enum MsgType {
    Hello,
    Ping,
    Pong,
    ClipText,
    ClipImage,
    FileOffer,
    FileAccept,
    FileReject,
    FileChunk,
    FileDone,
}

impl MsgType {
    /// The wire value of this message type.
    pub open spec fn spec_code(self) -> u8 {
        match self {
            MsgType::Hello => 1,
            MsgType::Ping => 2,
            MsgType::Pong => 3,
            MsgType::ClipText => 10,
            MsgType::ClipImage => 11,
            MsgType::FileOffer => 20,
            MsgType::FileAccept => 21,
            MsgType::FileReject => 22,
            MsgType::FileChunk => 23,
            MsgType::FileDone => 24,
        }
    }

    /// The wire value of this message type.
    #[verifier::when_used_as_spec(spec_code)]
    pub fn code(self) -> (r: u8)
        ensures
            r == self.spec_code(),
    {
        match self {
            MsgType::Hello => 1,
            MsgType::Ping => 2,
            MsgType::Pong => 3,
            MsgType::ClipText => 10,
            MsgType::ClipImage => 11,
            MsgType::FileOffer => 20,
            MsgType::FileAccept => 21,
            MsgType::FileReject => 22,
            MsgType::FileChunk => 23,
            MsgType::FileDone => 24,
        }
    }

    /// The message type denoted by wire value `v`, if any.
    pub open spec fn spec_from_u8(v: u8) -> Option<MsgType> {
        match v {
            1u8 => Some(MsgType::Hello),
            2u8 => Some(MsgType::Ping),
            3u8 => Some(MsgType::Pong),
            10u8 => Some(MsgType::ClipText),
            11u8 => Some(MsgType::ClipImage),
            20u8 => Some(MsgType::FileOffer),
            21u8 => Some(MsgType::FileAccept),
            22u8 => Some(MsgType::FileReject),
            23u8 => Some(MsgType::FileChunk),
            24u8 => Some(MsgType::FileDone),
            _ => None,
        }
    }

    /// Parse a wire value; unknown values are rejected.
    pub fn from_u8(v: u8) -> (r: Option<MsgType>)
        ensures
            r == MsgType::spec_from_u8(v),
            r matches Some(t) ==> t.spec_code() == v,
    {
        match v {
            1u8 => Some(MsgType::Hello),
            2u8 => Some(MsgType::Ping),
            3u8 => Some(MsgType::Pong),
            10u8 => Some(MsgType::ClipText),
            11u8 => Some(MsgType::ClipImage),
            20u8 => Some(MsgType::FileOffer),
            21u8 => Some(MsgType::FileAccept),
            22u8 => Some(MsgType::FileReject),
            23u8 => Some(MsgType::FileChunk),
            24u8 => Some(MsgType::FileDone),
            _ => None,
        }
    }
}

/// A wire frame: header fields plus payload.
#[derive(Debug, Clone, PartialEq, Eq)]
pub struct Frame {
    pub version: u8,
    pub msg_type: u8,
    pub stream_id: u32,
    pub seq: u64,
    pub payload: Vec<u8>,
}

/// Mathematical model of a frame.
pub struct FrameView {
    pub version: u8,
    pub msg_type: u8,
    pub stream_id: u32,
    pub seq: u64,
    pub payload: Seq<u8>,
}

impl View for Frame {
    type V = FrameView;

    open spec fn view(&self) -> FrameView {
        FrameView {
            version: self.version,
            msg_type: self.msg_type,
            stream_id: self.stream_id,
            seq: self.seq,
            payload: self.payload@,
        }
    }
}

impl FrameView {
    /// A frame is valid when its payload respects the decode cap.
    pub open spec fn valid(self) -> bool {
        self.payload.len() <= MAX_PAYLOAD_LEN
    }
}

impl Frame {
    /// Build a frame for `msg_type` on `stream_id` with the given
    /// sequence number and payload, at the current protocol version.
    pub fn new(msg_type: MsgType, stream_id: StreamId, seq: u64, payload: Vec<u8>) -> (r: Frame)
        ensures
            r@.version == PROTOCOL_VERSION,
            r@.msg_type == msg_type.spec_code(),
            r@.stream_id == stream_id.spec_code(),
            r@.seq == seq,
            r@.payload == payload@,
    {
        Frame {
            version: PROTOCOL_VERSION,
            msg_type: msg_type.code(),
            stream_id: stream_id.code(),
            seq,
            payload,
        }
    }
}

/// The serialized bytes of a frame: 18-byte big-endian header, then payload.
pub open spec fn frame_bytes(f: FrameView) -> Seq<u8> {
    seq![f.version, f.msg_type] + be_u32_bytes(f.stream_id) + be_u64_bytes(f.seq) + be_u32_bytes(
        f.payload.len() as u32,
    ) + f.payload
}

/// Reasons a byte buffer fails to decode as a frame.
#[derive(Debug, Clone, Copy, PartialEq, Eq, Structural)]
pub enum FrameDecodeError {
    /// Fewer bytes than one header.
    Insufficient,
    /// Declared payload length exceeds the 4 MiB cap.
    PayloadTooLarge,
    /// Declared payload length exceeds the bytes that follow the header.
    PayloadTruncated,
}

/// The frame denoted by `b`, if `b` starts with a well-formed frame.
///
/// Bytes beyond the declared payload length are ignored: the
/// length-prefixed transport hands the codec exactly one frame at a time.
pub open spec fn decode_frame_spec(b: Seq<u8>) -> Option<FrameView> {
    if b.len() < 18 {
        None
    } else {
        let len = be_u32_of(b[14], b[15], b[16], b[17]) as int;
        if len > MAX_PAYLOAD_LEN {
            None
        } else if b.len() - 18 < len {
            None
        } else {
            Some(
                FrameView {
                    version: b[0],
                    msg_type: b[1],
                    stream_id: be_u32_of(b[2], b[3], b[4], b[5]),
                    seq: be_u64_of(b[6], b[7], b[8], b[9], b[10], b[11], b[12], b[13]),
                    payload: b.subrange(18, 18 + len),
                },
            )
        }
    }
}

/// Encode a frame to a contiguous byte buffer.
pub fn encode_frame(f: &Frame) -> (r: Vec<u8>)
    requires
        f@.valid(),
    ensures
        r@ == frame_bytes(f@),
{
    let mut out: Vec<u8> = Vec::new();
    out.push(f.version);
    out.push(f.msg_type);
    put_be_u32(&mut out, f.stream_id);
    put_be_u64(&mut out, f.seq);
    put_be_u32(&mut out, f.payload.len() as u32);
    let mut i: usize = 0;
    let ghost prefix = out@;
    while i < f.payload.len()
        invariant
            i <= f.payload@.len(),
            out@ == prefix + f.payload@.subrange(0, i as int),
        decreases f.payload@.len() - i,
    {
        out.push(f.payload[i]);
        i = i + 1;
        assert(out@ =~= prefix + f.payload@.subrange(0, i as int));
    }
    assert(f.payload@.subrange(0, f.payload@.len() as int) =~= f.payload@);
    assert(out@ =~= frame_bytes(f@));
    out
}

/// Decode a frame.
///
/// Succeeds exactly when the input holds at least one header, the declared
/// payload length is within the 4 MiB cap, and that many payload bytes
/// follow the header.
pub fn decode_frame(bytes: &[u8]) -> (r: Result<Frame, FrameDecodeError>)
    ensures
        match r {
            Ok(f) => decode_frame_spec(bytes@) == Some(f@),
            Err(e) => {
                &&& decode_frame_spec(bytes@) is None
                &&& (e == FrameDecodeError::Insufficient <==> bytes@.len() < 18)
                &&& (e == FrameDecodeError::PayloadTooLarge <==> bytes@.len() >= 18 && be_u32_of(
                    bytes@[14],
                    bytes@[15],
                    bytes@[16],
                    bytes@[17],
                ) > MAX_PAYLOAD_LEN)
            },
        },
{
    if bytes.len() < 18 {
        return Err(FrameDecodeError::Insufficient);
    }
    let version = bytes[0];
    let msg_type = bytes[1];
    let stream_id = get_be_u32(bytes, 2);
    let seq = get_be_u64(bytes, 6);
    let len32 = get_be_u32(bytes, 14);
    let len = len32 as usize;
    if len > MAX_PAYLOAD_LEN {
        return Err(FrameDecodeError::PayloadTooLarge);
    }
    if bytes.len() - 18 < len {
        return Err(FrameDecodeError::PayloadTruncated);
    }
    let mut payload: Vec<u8> = Vec::new();
    let mut i: usize = 0;
    while i < len
        invariant
            i <= len,
            len <= MAX_PAYLOAD_LEN,
            18 + len <= bytes@.len(),
            payload@ == bytes@.subrange(18, 18 + i as int),
        decreases len - i,
    {
        payload.push(bytes[18 + i]);
        i = i + 1;
        assert(payload@ =~= bytes@.subrange(18, 18 + i as int));
    }
    Ok(Frame { version, msg_type, stream_id, seq, payload })
}

/// Round trip: every valid frame decodes from its own encoding.
///
/// Stated over the codec's models; the executable functions are tied to
/// these models by their contracts.
pub proof fn lemma_frame_roundtrip(f: FrameView)
    requires
        f.valid(),
    ensures
        decode_frame_spec(frame_bytes(f)) == Some(f),
{
    let b = frame_bytes(f);
    lemma_be_u32_roundtrip(f.stream_id);
    lemma_be_u64_roundtrip(f.seq);
    lemma_be_u32_roundtrip(f.payload.len() as u32);
    assert(b.len() == 18 + f.payload.len());
    assert(be_u32_of(b[14], b[15], b[16], b[17]) == f.payload.len() as u32);
    let g = decode_frame_spec(b).unwrap();
    assert(b.subrange(18, 18 + f.payload.len() as int) =~= f.payload);
    assert(be_u32_of(b[2], b[3], b[4], b[5]) == f.stream_id);
    assert(be_u64_of(b[6], b[7], b[8], b[9], b[10], b[11], b[12], b[13]) == f.seq);
}

/// Canonical transcript signed by a `Hello` message.
///
/// Layout: the fixed prefix, the protocol version byte, then each of
/// peer-id, identity public key and nonce as a big-endian u32 length
/// followed by the raw bytes.
pub open spec fn hello_transcript_bytes(
    version: u8,
    peer_id_utf8: Seq<u8>,
    identity_pk: Seq<u8>,
    nonce: Seq<u8>,
) -> Seq<u8> {
    "openclipboard-hello"@.map(|_i: int, c: char| c as u8) + seq![version] + be_u32_bytes(
        (peer_id_utf8.len() % 0x1_0000_0000) as u32,
    ) + peer_id_utf8 + be_u32_bytes((identity_pk.len() % 0x1_0000_0000) as u32) + identity_pk
        + be_u32_bytes((nonce.len() % 0x1_0000_0000) as u32) + nonce
}

/// Build the canonical `Hello` transcript over the given fields.
pub fn hello_transcript(version: u8, peer_id: &str, identity_pk: &[u8], nonce: &[u8]) -> (r: Vec<
    u8,
>)
    ensures
        r@ == hello_transcript_bytes(
            version,
            vstd::utf8::encode_utf8(peer_id@),
            identity_pk@,
            nonce@,
        ),
{
    broadcast use vstd::string::is_ascii_spec_bytes;

    let mut out: Vec<u8> = Vec::new();
    let prefix = "openclipboard-hello";
    proof {
        reveal_strlit("openclipboard-hello");
        assert(prefix.is_ascii());
    }
    append_slice(&mut out, prefix.as_bytes());
    proof {
        assert(prefix.spec_bytes() =~= "openclipboard-hello"@.map(|_i: int, c: char| c as u8));
    }
    out.push(version);
    let pid = peer_id.as_bytes();
    let plen: u32 = ((pid.len() as u64) % 0x1_0000_0000) as u32;
    proof {
        assert(plen == (pid@.len() % 0x1_0000_0000) as u32);
    }
    put_be_u32(&mut out, plen);
    append_slice(&mut out, pid);
    let klen: u32 = ((identity_pk.len() as u64) % 0x1_0000_0000) as u32;
    proof {
        assert(klen == (identity_pk@.len() % 0x1_0000_0000) as u32);
    }
    put_be_u32(&mut out, klen);
    append_slice(&mut out, identity_pk);
    let nlen: u32 = ((nonce.len() as u64) % 0x1_0000_0000) as u32;
    proof {
        assert(nlen == (nonce@.len() % 0x1_0000_0000) as u32);
    }
    put_be_u32(&mut out, nlen);
    append_slice(&mut out, nonce);
    proof {
        assert(out@ =~= hello_transcript_bytes(
            version,
            vstd::utf8::encode_utf8(peer_id@),
            identity_pk@,
            nonce@,
        ));
    }
    out
}

/// Append all of `src` to `out`.
pub fn append_slice(out: &mut Vec<u8>, src: &[u8])
    ensures
        final(out)@ == old(out)@ + src@,
{
    let mut i: usize = 0;
    let ghost prefix = out@;
    while i < src.len()
        invariant
            i <= src@.len(),
            out@ == prefix + src@.subrange(0, i as int),
        decreases src@.len() - i,
    {
        out.push(src[i]);
        i = i + 1;
        assert(out@ =~= prefix + src@.subrange(0, i as int));
    }
    assert(src@.subrange(0, src@.len() as int) =~= src@);
}

} // verus!
