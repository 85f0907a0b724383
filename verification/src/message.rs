//! Typed application messages and their payload codec.
//!
//! A payload is a self-describing textual document: a `type` record naming
//! the variant, then one record per field in declaration order. Strings are
//! carried as UTF-8 bytes, numbers in canonical decimal, binary fields as
//! base64 strings produced by the caller.

use vstd::prelude::*;
use vstd::utf8::{
    decode_utf8, encode_utf8, encode_utf8_decode_utf8, encode_utf8_valid_utf8, valid_utf8,
};

use crate::payload::{push_record, read_record, record_at, record_bytes};
use crate::text::bytes_eq;
use crate::protocol::{frame_bytes, Frame, FrameView, MsgType, StreamId};
use crate::text::{dec_u64, push_dec_u64, string_bytes, string_from_utf8};

verus! {

/// Typed application messages.
#[derive(Debug, Clone, PartialEq)]
pub enum Message {
    /// Authenticated hello: binds a peer-id to a public key and proves
    /// possession by a signature over the canonical transcript.
    Hello {
        peer_id: String,
        version: u8,
        identity_pk_b64: String,
        nonce_b64: String,
        sig_b64: String,
    },
    Ping { ts_ms: u64 },
    Pong { ts_ms: u64 },
    ClipText { mime: String, text: String, ts_ms: u64 },
    ClipImage { mime: String, width: u32, height: u32, bytes_b64: String, ts_ms: u64 },
    FileOffer { file_id: String, name: String, size: u64, mime: String },
    FileAccept { file_id: String },
    FileReject { file_id: String, reason: String },
    FileChunk { file_id: String, offset: u64, data_b64: String },
    FileDone { file_id: String, hash: String },
}

/// Mathematical model of a message.
pub enum MessageView {
    Hello {
        peer_id: Seq<char>,
        version: u8,
        identity_pk_b64: Seq<char>,
        nonce_b64: Seq<char>,
        sig_b64: Seq<char>,
    },
    Ping { ts_ms: u64 },
    Pong { ts_ms: u64 },
    ClipText { mime: Seq<char>, text: Seq<char>, ts_ms: u64 },
    ClipImage { mime: Seq<char>, width: u32, height: u32, bytes_b64: Seq<char>, ts_ms: u64 },
    FileOffer { file_id: Seq<char>, name: Seq<char>, size: u64, mime: Seq<char> },
    FileAccept { file_id: Seq<char> },
    FileReject { file_id: Seq<char>, reason: Seq<char> },
    FileChunk { file_id: Seq<char>, offset: u64, data_b64: Seq<char> },
    FileDone { file_id: Seq<char>, hash: Seq<char> },
}

impl View for Message {
    type V = MessageView;

    open spec fn view(&self) -> MessageView {
        match self {
            Message::Hello { peer_id, version, identity_pk_b64, nonce_b64, sig_b64 } =>
                MessageView::Hello {
                    peer_id: peer_id@,
                    version: *version,
                    identity_pk_b64: identity_pk_b64@,
                    nonce_b64: nonce_b64@,
                    sig_b64: sig_b64@,
                },
            Message::Ping { ts_ms } => MessageView::Ping { ts_ms: *ts_ms },
            Message::Pong { ts_ms } => MessageView::Pong { ts_ms: *ts_ms },
            Message::ClipText { mime, text, ts_ms } => MessageView::ClipText {
                mime: mime@,
                text: text@,
                ts_ms: *ts_ms,
            },
            Message::ClipImage { mime, width, height, bytes_b64, ts_ms } =>
                MessageView::ClipImage {
                    mime: mime@,
                    width: *width,
                    height: *height,
                    bytes_b64: bytes_b64@,
                    ts_ms: *ts_ms,
                },
            Message::FileOffer { file_id, name, size, mime } => MessageView::FileOffer {
                file_id: file_id@,
                name: name@,
                size: *size,
                mime: mime@,
            },
            Message::FileAccept { file_id } => MessageView::FileAccept { file_id: file_id@ },
            Message::FileReject { file_id, reason } => MessageView::FileReject {
                file_id: file_id@,
                reason: reason@,
            },
            Message::FileChunk { file_id, offset, data_b64 } => MessageView::FileChunk {
                file_id: file_id@,
                offset: *offset,
                data_b64: data_b64@,
            },
            Message::FileDone { file_id, hash } => MessageView::FileDone {
                file_id: file_id@,
                hash: hash@,
            },
        }
    }
}

impl MessageView {
    /// The message type of this variant.
    pub open spec fn spec_msg_type(self) -> MsgType {
        match self {
            MessageView::Hello { .. } => MsgType::Hello,
            MessageView::Ping { .. } => MsgType::Ping,
            MessageView::Pong { .. } => MsgType::Pong,
            MessageView::ClipText { .. } => MsgType::ClipText,
            MessageView::ClipImage { .. } => MsgType::ClipImage,
            MessageView::FileOffer { .. } => MsgType::FileOffer,
            MessageView::FileAccept { .. } => MsgType::FileAccept,
            MessageView::FileReject { .. } => MsgType::FileReject,
            MessageView::FileChunk { .. } => MsgType::FileChunk,
            MessageView::FileDone { .. } => MsgType::FileDone,
        }
    }

    /// The logical stream this variant travels on: control messages on
    /// Control, clipboard payloads on Clipboard, file transfer on File.
    pub open spec fn spec_stream_id(self) -> StreamId {
        match self {
            MessageView::Hello { .. }
            | MessageView::Ping { .. }
            | MessageView::Pong { .. } => StreamId::Control,
            MessageView::ClipText { .. } | MessageView::ClipImage { .. } => StreamId::Clipboard,
            MessageView::FileOffer { .. }
            | MessageView::FileAccept { .. }
            | MessageView::FileReject { .. }
            | MessageView::FileChunk { .. }
            | MessageView::FileDone { .. } => StreamId::File,
        }
    }

    /// The variant tag carried in the `type` record.
    pub open spec fn tag(self) -> Seq<char> {
        match self {
            MessageView::Hello { .. } => "Hello"@,
            MessageView::Ping { .. } => "Ping"@,
            MessageView::Pong { .. } => "Pong"@,
            MessageView::ClipText { .. } => "ClipText"@,
            MessageView::ClipImage { .. } => "ClipImage"@,
            MessageView::FileOffer { .. } => "FileOffer"@,
            MessageView::FileAccept { .. } => "FileAccept"@,
            MessageView::FileReject { .. } => "FileReject"@,
            MessageView::FileChunk { .. } => "FileChunk"@,
            MessageView::FileDone { .. } => "FileDone"@,
        }
    }
}

impl Message {
    /// The message type of this message.
    pub fn msg_type(&self) -> (r: MsgType)
        ensures
            r == self@.spec_msg_type(),
    {
        match self {
            Message::Hello { .. } => MsgType::Hello,
            Message::Ping { .. } => MsgType::Ping,
            Message::Pong { .. } => MsgType::Pong,
            Message::ClipText { .. } => MsgType::ClipText,
            Message::ClipImage { .. } => MsgType::ClipImage,
            Message::FileOffer { .. } => MsgType::FileOffer,
            Message::FileAccept { .. } => MsgType::FileAccept,
            Message::FileReject { .. } => MsgType::FileReject,
            Message::FileChunk { .. } => MsgType::FileChunk,
            Message::FileDone { .. } => MsgType::FileDone,
        }
    }

    /// The logical stream this message travels on.
    pub fn stream_id(&self) -> (r: StreamId)
        ensures
            r == self@.spec_stream_id(),
    {
        match self {
            Message::Hello { .. } | Message::Ping { .. } | Message::Pong { .. } =>
                StreamId::Control,
            Message::ClipText { .. } | Message::ClipImage { .. } => StreamId::Clipboard,
            Message::FileOffer { .. }
            | Message::FileAccept { .. }
            | Message::FileReject { .. }
            | Message::FileChunk { .. }
            | Message::FileDone { .. } => StreamId::File,
        }
    }
}

/// A record holding a string field: the value is the string's UTF-8 bytes.
pub open spec fn str_record(key: Seq<char>, s: Seq<char>) -> Seq<u8> {
    record_bytes(encode_utf8(key), encode_utf8(s))
}

/// A record holding a numeric field in canonical decimal.
pub open spec fn num_record(key: Seq<char>, n: u64) -> Seq<u8> {
    record_bytes(encode_utf8(key), dec_u64(n))
}

/// The serialized payload of a message: the `type` record, then the fields.
pub open spec fn payload_bytes(m: MessageView) -> Seq<u8> {
    str_record("type"@, m.tag()) + fields_bytes(m)
}

/// The field records of a message, in declaration order.
pub open spec fn fields_bytes(m: MessageView) -> Seq<u8> {
    match m {
        MessageView::Hello { peer_id, version, identity_pk_b64, nonce_b64, sig_b64 } =>
            str_record("peer_id"@, peer_id) + num_record("version"@, version as u64) + str_record(
                "identity_pk_b64"@,
                identity_pk_b64,
            ) + str_record("nonce_b64"@, nonce_b64) + str_record("sig_b64"@, sig_b64),
        MessageView::Ping { ts_ms } => num_record("ts_ms"@, ts_ms),
        MessageView::Pong { ts_ms } => num_record("ts_ms"@, ts_ms),
        MessageView::ClipText { mime, text, ts_ms } => str_record("mime"@, mime) + str_record(
            "text"@,
            text,
        ) + num_record("ts_ms"@, ts_ms),
        MessageView::ClipImage { mime, width, height, bytes_b64, ts_ms } => str_record(
            "mime"@,
            mime,
        ) + num_record("width"@, width as u64) + num_record("height"@, height as u64) + str_record(
            "bytes_b64"@,
            bytes_b64,
        ) + num_record("ts_ms"@, ts_ms),
        MessageView::FileOffer { file_id, name, size, mime } => str_record("file_id"@, file_id)
            + str_record("name"@, name) + num_record("size"@, size) + str_record("mime"@, mime),
        MessageView::FileAccept { file_id } => str_record("file_id"@, file_id),
        MessageView::FileReject { file_id, reason } => str_record("file_id"@, file_id)
            + str_record("reason"@, reason),
        MessageView::FileChunk { file_id, offset, data_b64 } => str_record("file_id"@, file_id)
            + num_record("offset"@, offset) + str_record("data_b64"@, data_b64),
        MessageView::FileDone { file_id, hash } => str_record("file_id"@, file_id) + str_record(
            "hash"@,
            hash,
        ),
    }
}

/// Append the record of a string field.
fn push_str_field(out: &mut Vec<u8>, key: &str, s: &str)
    ensures
        final(out)@ == old(out)@ + str_record(key@, s@),
{
    let kb = string_bytes(key);
    let vb = string_bytes(s);
    push_record(out, kb.as_slice(), vb.as_slice());
}

/// Append the record of a numeric field.
fn push_num_field(out: &mut Vec<u8>, key: &str, n: u64)
    ensures
        final(out)@ == old(out)@ + num_record(key@, n),
{
    let kb = string_bytes(key);
    let mut vb: Vec<u8> = Vec::new();
    push_dec_u64(&mut vb, n);
    push_record(out, kb.as_slice(), vb.as_slice());
}

/// Encode a message payload.
pub fn encode_payload(m: &Message) -> (r: Vec<u8>)
    ensures
        r@ == payload_bytes(m@),
{
    let mut out: Vec<u8> = Vec::new();
    match m {
        Message::Hello { peer_id, version, identity_pk_b64, nonce_b64, sig_b64 } => {
            push_str_field(&mut out, "type", "Hello");
            push_str_field(&mut out, "peer_id", peer_id.as_str());
            push_num_field(&mut out, "version", *version as u64);
            push_str_field(&mut out, "identity_pk_b64", identity_pk_b64.as_str());
            push_str_field(&mut out, "nonce_b64", nonce_b64.as_str());
            push_str_field(&mut out, "sig_b64", sig_b64.as_str());
        },
        Message::Ping { ts_ms } => {
            push_str_field(&mut out, "type", "Ping");
            push_num_field(&mut out, "ts_ms", *ts_ms);
        },
        Message::Pong { ts_ms } => {
            push_str_field(&mut out, "type", "Pong");
            push_num_field(&mut out, "ts_ms", *ts_ms);
        },
        Message::ClipText { mime, text, ts_ms } => {
            push_str_field(&mut out, "type", "ClipText");
            push_str_field(&mut out, "mime", mime.as_str());
            push_str_field(&mut out, "text", text.as_str());
            push_num_field(&mut out, "ts_ms", *ts_ms);
        },
        Message::ClipImage { mime, width, height, bytes_b64, ts_ms } => {
            push_str_field(&mut out, "type", "ClipImage");
            push_str_field(&mut out, "mime", mime.as_str());
            push_num_field(&mut out, "width", *width as u64);
            push_num_field(&mut out, "height", *height as u64);
            push_str_field(&mut out, "bytes_b64", bytes_b64.as_str());
            push_num_field(&mut out, "ts_ms", *ts_ms);
        },
        Message::FileOffer { file_id, name, size, mime } => {
            push_str_field(&mut out, "type", "FileOffer");
            push_str_field(&mut out, "file_id", file_id.as_str());
            push_str_field(&mut out, "name", name.as_str());
            push_num_field(&mut out, "size", *size);
            push_str_field(&mut out, "mime", mime.as_str());
        },
        Message::FileAccept { file_id } => {
            push_str_field(&mut out, "type", "FileAccept");
            push_str_field(&mut out, "file_id", file_id.as_str());
        },
        Message::FileReject { file_id, reason } => {
            push_str_field(&mut out, "type", "FileReject");
            push_str_field(&mut out, "file_id", file_id.as_str());
            push_str_field(&mut out, "reason", reason.as_str());
        },
        Message::FileChunk { file_id, offset, data_b64 } => {
            push_str_field(&mut out, "type", "FileChunk");
            push_str_field(&mut out, "file_id", file_id.as_str());
            push_num_field(&mut out, "offset", *offset);
            push_str_field(&mut out, "data_b64", data_b64.as_str());
        },
        Message::FileDone { file_id, hash } => {
            push_str_field(&mut out, "type", "FileDone");
            push_str_field(&mut out, "file_id", file_id.as_str());
            push_str_field(&mut out, "hash", hash.as_str());
        },
    }
    proof {
        assert(out@ =~= payload_bytes(m@));
    }
    out
}

/// UTF-8 encoding is injective.
pub proof fn lemma_encode_utf8_injective(a: Seq<char>, b: Seq<char>)
    requires
        encode_utf8(a) == encode_utf8(b),
    ensures
        a == b,
{
    encode_utf8_decode_utf8(a);
    encode_utf8_decode_utf8(b);
}

/// Two messages with the same tag are of the same variant.
pub proof fn lemma_tag_identifies(a: MessageView, b: MessageView)
    requires
        a.tag() == b.tag(),
    ensures
        a is Hello <==> b is Hello,
        a is Ping <==> b is Ping,
        a is Pong <==> b is Pong,
        a is ClipText <==> b is ClipText,
        a is ClipImage <==> b is ClipImage,
        a is FileOffer <==> b is FileOffer,
        a is FileAccept <==> b is FileAccept,
        a is FileReject <==> b is FileReject,
        a is FileChunk <==> b is FileChunk,
        a is FileDone <==> b is FileDone,
{
    reveal_strlit("Hello");
    reveal_strlit("Ping");
    reveal_strlit("Pong");
    reveal_strlit("ClipText");
    reveal_strlit("ClipImage");
    reveal_strlit("FileOffer");
    reveal_strlit("FileAccept");
    reveal_strlit("FileReject");
    reveal_strlit("FileChunk");
    reveal_strlit("FileDone");
    assert("Ping"@ != "Pong"@) by {
        assert("Ping"@[1] != "Pong"@[1]);
    }
    assert("ClipText"@ != "FileDone"@) by {
        assert("ClipText"@[0] != "FileDone"@[0]);
    }
    assert("ClipImage"@ != "FileOffer"@) by {
        assert("ClipImage"@[0] != "FileOffer"@[0]);
    }
    assert("ClipImage"@ != "FileChunk"@) by {
        assert("ClipImage"@[0] != "FileChunk"@[0]);
    }
    assert("FileOffer"@ != "FileChunk"@) by {
        assert("FileOffer"@[4] != "FileChunk"@[4]);
    }
    assert("FileAccept"@ != "FileReject"@) by {
        assert("FileAccept"@[4] != "FileReject"@[4]);
    }
    assert("Hello"@.len() == 5);
    assert("Ping"@.len() == 4);
    assert("Pong"@.len() == 4);
    assert("ClipText"@.len() == 8);
    assert("ClipImage"@.len() == 9);
    assert("FileOffer"@.len() == 9);
    assert("FileAccept"@.len() == 10);
    assert("FileReject"@.len() == 10);
    assert("FileChunk"@.len() == 9);
    assert("FileDone"@.len() == 8);
    match a {
        MessageView::Hello { .. } => {
            assert(a.tag() == "Hello"@);
            match b {
                MessageView::Hello { .. } => {},
                MessageView::Ping { .. } => {
                    assert(b.tag() == "Ping"@);
                    assert(false);
                },
                MessageView::Pong { .. } => {
                    assert(b.tag() == "Pong"@);
                    assert(false);
                },
                MessageView::ClipText { .. } => {
                    assert(b.tag() == "ClipText"@);
                    assert(false);
                },
                MessageView::ClipImage { .. } => {
                    assert(b.tag() == "ClipImage"@);
                    assert(false);
                },
                MessageView::FileOffer { .. } => {
                    assert(b.tag() == "FileOffer"@);
                    assert(false);
                },
                MessageView::FileAccept { .. } => {
                    assert(b.tag() == "FileAccept"@);
                    assert(false);
                },
                MessageView::FileReject { .. } => {
                    assert(b.tag() == "FileReject"@);
                    assert(false);
                },
                MessageView::FileChunk { .. } => {
                    assert(b.tag() == "FileChunk"@);
                    assert(false);
                },
                MessageView::FileDone { .. } => {
                    assert(b.tag() == "FileDone"@);
                    assert(false);
                },
            }
        },
        MessageView::Ping { .. } => {
            assert(a.tag() == "Ping"@);
            match b {
                MessageView::Hello { .. } => {
                    assert(b.tag() == "Hello"@);
                    assert(false);
                },
                MessageView::Ping { .. } => {},
                MessageView::Pong { .. } => {
                    assert(b.tag() == "Pong"@);
                    assert(false);
                },
                MessageView::ClipText { .. } => {
                    assert(b.tag() == "ClipText"@);
                    assert(false);
                },
                MessageView::ClipImage { .. } => {
                    assert(b.tag() == "ClipImage"@);
                    assert(false);
                },
                MessageView::FileOffer { .. } => {
                    assert(b.tag() == "FileOffer"@);
                    assert(false);
                },
                MessageView::FileAccept { .. } => {
                    assert(b.tag() == "FileAccept"@);
                    assert(false);
                },
                MessageView::FileReject { .. } => {
                    assert(b.tag() == "FileReject"@);
                    assert(false);
                },
                MessageView::FileChunk { .. } => {
                    assert(b.tag() == "FileChunk"@);
                    assert(false);
                },
                MessageView::FileDone { .. } => {
                    assert(b.tag() == "FileDone"@);
                    assert(false);
                },
            }
        },
        MessageView::Pong { .. } => {
            assert(a.tag() == "Pong"@);
            match b {
                MessageView::Hello { .. } => {
                    assert(b.tag() == "Hello"@);
                    assert(false);
                },
                MessageView::Ping { .. } => {
                    assert(b.tag() == "Ping"@);
                    assert(false);
                },
                MessageView::Pong { .. } => {},
                MessageView::ClipText { .. } => {
                    assert(b.tag() == "ClipText"@);
                    assert(false);
                },
                MessageView::ClipImage { .. } => {
                    assert(b.tag() == "ClipImage"@);
                    assert(false);
                },
                MessageView::FileOffer { .. } => {
                    assert(b.tag() == "FileOffer"@);
                    assert(false);
                },
                MessageView::FileAccept { .. } => {
                    assert(b.tag() == "FileAccept"@);
                    assert(false);
                },
                MessageView::FileReject { .. } => {
                    assert(b.tag() == "FileReject"@);
                    assert(false);
                },
                MessageView::FileChunk { .. } => {
                    assert(b.tag() == "FileChunk"@);
                    assert(false);
                },
                MessageView::FileDone { .. } => {
                    assert(b.tag() == "FileDone"@);
                    assert(false);
                },
            }
        },
        MessageView::ClipText { .. } => {
            assert(a.tag() == "ClipText"@);
            match b {
                MessageView::Hello { .. } => {
                    assert(b.tag() == "Hello"@);
                    assert(false);
                },
                MessageView::Ping { .. } => {
                    assert(b.tag() == "Ping"@);
                    assert(false);
                },
                MessageView::Pong { .. } => {
                    assert(b.tag() == "Pong"@);
                    assert(false);
                },
                MessageView::ClipText { .. } => {},
                MessageView::ClipImage { .. } => {
                    assert(b.tag() == "ClipImage"@);
                    assert(false);
                },
                MessageView::FileOffer { .. } => {
                    assert(b.tag() == "FileOffer"@);
                    assert(false);
                },
                MessageView::FileAccept { .. } => {
                    assert(b.tag() == "FileAccept"@);
                    assert(false);
                },
                MessageView::FileReject { .. } => {
                    assert(b.tag() == "FileReject"@);
                    assert(false);
                },
                MessageView::FileChunk { .. } => {
                    assert(b.tag() == "FileChunk"@);
                    assert(false);
                },
                MessageView::FileDone { .. } => {
                    assert(b.tag() == "FileDone"@);
                    assert(false);
                },
            }
        },
        MessageView::ClipImage { .. } => {
            assert(a.tag() == "ClipImage"@);
            match b {
                MessageView::Hello { .. } => {
                    assert(b.tag() == "Hello"@);
                    assert(false);
                },
                MessageView::Ping { .. } => {
                    assert(b.tag() == "Ping"@);
                    assert(false);
                },
                MessageView::Pong { .. } => {
                    assert(b.tag() == "Pong"@);
                    assert(false);
                },
                MessageView::ClipText { .. } => {
                    assert(b.tag() == "ClipText"@);
                    assert(false);
                },
                MessageView::ClipImage { .. } => {},
                MessageView::FileOffer { .. } => {
                    assert(b.tag() == "FileOffer"@);
                    assert(false);
                },
                MessageView::FileAccept { .. } => {
                    assert(b.tag() == "FileAccept"@);
                    assert(false);
                },
                MessageView::FileReject { .. } => {
                    assert(b.tag() == "FileReject"@);
                    assert(false);
                },
                MessageView::FileChunk { .. } => {
                    assert(b.tag() == "FileChunk"@);
                    assert(false);
                },
                MessageView::FileDone { .. } => {
                    assert(b.tag() == "FileDone"@);
                    assert(false);
                },
            }
        },
        MessageView::FileOffer { .. } => {
            assert(a.tag() == "FileOffer"@);
            match b {
                MessageView::Hello { .. } => {
                    assert(b.tag() == "Hello"@);
                    assert(false);
                },
                MessageView::Ping { .. } => {
                    assert(b.tag() == "Ping"@);
                    assert(false);
                },
                MessageView::Pong { .. } => {
                    assert(b.tag() == "Pong"@);
                    assert(false);
                },
                MessageView::ClipText { .. } => {
                    assert(b.tag() == "ClipText"@);
                    assert(false);
                },
                MessageView::ClipImage { .. } => {
                    assert(b.tag() == "ClipImage"@);
                    assert(false);
                },
                MessageView::FileOffer { .. } => {},
                MessageView::FileAccept { .. } => {
                    assert(b.tag() == "FileAccept"@);
                    assert(false);
                },
                MessageView::FileReject { .. } => {
                    assert(b.tag() == "FileReject"@);
                    assert(false);
                },
                MessageView::FileChunk { .. } => {
                    assert(b.tag() == "FileChunk"@);
                    assert(false);
                },
                MessageView::FileDone { .. } => {
                    assert(b.tag() == "FileDone"@);
                    assert(false);
                },
            }
        },
        MessageView::FileAccept { .. } => {
            assert(a.tag() == "FileAccept"@);
            match b {
                MessageView::Hello { .. } => {
                    assert(b.tag() == "Hello"@);
                    assert(false);
                },
                MessageView::Ping { .. } => {
                    assert(b.tag() == "Ping"@);
                    assert(false);
                },
                MessageView::Pong { .. } => {
                    assert(b.tag() == "Pong"@);
                    assert(false);
                },
                MessageView::ClipText { .. } => {
                    assert(b.tag() == "ClipText"@);
                    assert(false);
                },
                MessageView::ClipImage { .. } => {
                    assert(b.tag() == "ClipImage"@);
                    assert(false);
                },
                MessageView::FileOffer { .. } => {
                    assert(b.tag() == "FileOffer"@);
                    assert(false);
                },
                MessageView::FileAccept { .. } => {},
                MessageView::FileReject { .. } => {
                    assert(b.tag() == "FileReject"@);
                    assert(false);
                },
                MessageView::FileChunk { .. } => {
                    assert(b.tag() == "FileChunk"@);
                    assert(false);
                },
                MessageView::FileDone { .. } => {
                    assert(b.tag() == "FileDone"@);
                    assert(false);
                },
            }
        },
        MessageView::FileReject { .. } => {
            assert(a.tag() == "FileReject"@);
            match b {
                MessageView::Hello { .. } => {
                    assert(b.tag() == "Hello"@);
                    assert(false);
                },
                MessageView::Ping { .. } => {
                    assert(b.tag() == "Ping"@);
                    assert(false);
                },
                MessageView::Pong { .. } => {
                    assert(b.tag() == "Pong"@);
                    assert(false);
                },
                MessageView::ClipText { .. } => {
                    assert(b.tag() == "ClipText"@);
                    assert(false);
                },
                MessageView::ClipImage { .. } => {
                    assert(b.tag() == "ClipImage"@);
                    assert(false);
                },
                MessageView::FileOffer { .. } => {
                    assert(b.tag() == "FileOffer"@);
                    assert(false);
                },
                MessageView::FileAccept { .. } => {
                    assert(b.tag() == "FileAccept"@);
                    assert(false);
                },
                MessageView::FileReject { .. } => {},
                MessageView::FileChunk { .. } => {
                    assert(b.tag() == "FileChunk"@);
                    assert(false);
                },
                MessageView::FileDone { .. } => {
                    assert(b.tag() == "FileDone"@);
                    assert(false);
                },
            }
        },
        MessageView::FileChunk { .. } => {
            assert(a.tag() == "FileChunk"@);
            match b {
                MessageView::Hello { .. } => {
                    assert(b.tag() == "Hello"@);
                    assert(false);
                },
                MessageView::Ping { .. } => {
                    assert(b.tag() == "Ping"@);
                    assert(false);
                },
                MessageView::Pong { .. } => {
                    assert(b.tag() == "Pong"@);
                    assert(false);
                },
                MessageView::ClipText { .. } => {
                    assert(b.tag() == "ClipText"@);
                    assert(false);
                },
                MessageView::ClipImage { .. } => {
                    assert(b.tag() == "ClipImage"@);
                    assert(false);
                },
                MessageView::FileOffer { .. } => {
                    assert(b.tag() == "FileOffer"@);
                    assert(false);
                },
                MessageView::FileAccept { .. } => {
                    assert(b.tag() == "FileAccept"@);
                    assert(false);
                },
                MessageView::FileReject { .. } => {
                    assert(b.tag() == "FileReject"@);
                    assert(false);
                },
                MessageView::FileChunk { .. } => {},
                MessageView::FileDone { .. } => {
                    assert(b.tag() == "FileDone"@);
                    assert(false);
                },
            }
        },
        MessageView::FileDone { .. } => {
            assert(a.tag() == "FileDone"@);
            match b {
                MessageView::Hello { .. } => {
                    assert(b.tag() == "Hello"@);
                    assert(false);
                },
                MessageView::Ping { .. } => {
                    assert(b.tag() == "Ping"@);
                    assert(false);
                },
                MessageView::Pong { .. } => {
                    assert(b.tag() == "Pong"@);
                    assert(false);
                },
                MessageView::ClipText { .. } => {
                    assert(b.tag() == "ClipText"@);
                    assert(false);
                },
                MessageView::ClipImage { .. } => {
                    assert(b.tag() == "ClipImage"@);
                    assert(false);
                },
                MessageView::FileOffer { .. } => {
                    assert(b.tag() == "FileOffer"@);
                    assert(false);
                },
                MessageView::FileAccept { .. } => {
                    assert(b.tag() == "FileAccept"@);
                    assert(false);
                },
                MessageView::FileReject { .. } => {
                    assert(b.tag() == "FileReject"@);
                    assert(false);
                },
                MessageView::FileChunk { .. } => {
                    assert(b.tag() == "FileChunk"@);
                    assert(false);
                },
                MessageView::FileDone { .. } => {},
            }
        },
    }
}

/// Split a suffix of `b` that starts with one record from the rest.
pub proof fn lemma_chain(b: Seq<u8>, pos: int, key: Seq<u8>, val: Seq<u8>, rest: Seq<u8>)
    requires
        0 <= pos <= b.len(),
        b.subrange(pos, b.len() as int) == record_bytes(key, val) + rest,
    ensures
        record_at(b, pos, key, val),
        pos + record_bytes(key, val).len() + rest.len() == b.len(),
        b.subrange(pos + record_bytes(key, val).len(), b.len() as int) == rest,
{
    let rec = record_bytes(key, val);
    let suf = b.subrange(pos, b.len() as int);
    assert(suf.len() == rec.len() + rest.len());
    assert(b.subrange(pos, pos + rec.len()) =~= rec) by {
        assert forall|k: int| 0 <= k < rec.len() implies b[pos + k] == rec[k] by {
            assert(b[pos + k] == suf[k]);
            assert(suf[k] == (rec + rest)[k]);
        }
    }
    assert(b.subrange(pos + rec.len(), b.len() as int) =~= rest) by {
        assert forall|k: int| 0 <= k < rest.len() implies b[pos + rec.len() + k] == rest[k] by {
            assert(b[pos + rec.len() + k] == suf[rec.len() + k]);
            assert(suf[rec.len() + k] == (rec + rest)[rec.len() + k]);
        }
    }
}

/// Read a string field: a record with the given key whose value bytes are
/// valid UTF-8.
pub fn read_str_field(bytes: &[u8], pos: usize, key: &[u8]) -> (r: Option<(String, usize)>)
    requires
        pos <= bytes@.len(),
    ensures
        match r {
            Some(v) => {
                &&& pos < v.1 <= bytes@.len()
                &&& v.1 == pos + record_bytes(key@, encode_utf8(v.0@)).len()
                &&& record_at(bytes@, pos as int, key@, encode_utf8(v.0@))
                &&& forall|v2: Seq<u8>|
                    record_at(bytes@, pos as int, key@, v2) ==> v2 == encode_utf8(v.0@)
            },
            None => forall|s2: Seq<char>| !record_at(bytes@, pos as int, key@, encode_utf8(s2)),
        },
{
    let (val, p) = match read_record(bytes, pos, key) {
        Some(v) => v,
        None => {
            return None;
        },
    };
    let ghost valseq = val@;
    match string_from_utf8(val) {
        Some(s) => {
            proof {
                vstd::utf8::decode_utf8_encode_utf8(valseq);
                assert(encode_utf8(s@) == valseq);
            }
            Some((s, p))
        },
        None => {
            proof {
                assert forall|s2: Seq<char>| !record_at(
                    bytes@,
                    pos as int,
                    key@,
                    encode_utf8(s2),
                ) by {
                    if record_at(bytes@, pos as int, key@, encode_utf8(s2)) {
                        assert(encode_utf8(s2) == valseq);
                        encode_utf8_valid_utf8(s2);
                    }
                }
            }
            None
        },
    }
}

/// Exec comparison of a string against a literal.
fn tag_is(s: &String, lit: &str) -> (r: bool)
    ensures
        r <==> s@ == lit@,
{
    let sb = string_bytes(s.as_str());
    let lb = string_bytes(lit);
    let r = bytes_eq(sb.as_slice(), lb.as_slice());
    proof {
        if encode_utf8(s@) == encode_utf8(lit@) {
            lemma_encode_utf8_injective(s@, lit@);
        }
    }
    r
}

/// Read a numeric field: a record with the given key whose value is a
/// canonical decimal no greater than `max`.
pub fn read_num_field(bytes: &[u8], pos: usize, key: &[u8], max: u64) -> (r: Option<(u64, usize)>)
    requires
        pos <= bytes@.len(),
    ensures
        match r {
            Some(v) => {
                &&& pos < v.1 <= bytes@.len()
                &&& v.0 <= max
                &&& v.1 == pos + record_bytes(key@, dec_u64(v.0)).len()
                &&& record_at(bytes@, pos as int, key@, dec_u64(v.0))
                &&& forall|v2: Seq<u8>|
                    record_at(bytes@, pos as int, key@, v2) ==> v2 == dec_u64(v.0)
            },
            None => forall|n2: u64|
                n2 <= max ==> !record_at(bytes@, pos as int, key@, dec_u64(n2)),
        },
{
    let (val, p) = match read_record(bytes, pos, key) {
        Some(v) => v,
        None => {
            return None;
        },
    };
    let ghost valseq = val@;
    match crate::payload::parse_all_dec(val.as_slice()) {
        Some(n) => {
            if n <= max {
                Some((n, p))
            } else {
                proof {
                    assert forall|n2: u64| n2 <= max implies !record_at(
                        bytes@,
                        pos as int,
                        key@,
                        dec_u64(n2),
                    ) by {
                        if record_at(bytes@, pos as int, key@, dec_u64(n2)) {
                            assert(dec_u64(n2) == valseq);
                            crate::text::lemma_dec_u64_canonical(n2);
                            crate::text::lemma_dec_u64_canonical(n);
                            assert(crate::text::digits_val(dec_u64(n2)) == n2);
                        }
                    }
                }
                None
            }
        },
        None => {
            proof {
                assert forall|n2: u64| !record_at(bytes@, pos as int, key@, dec_u64(n2)) by {
                    if record_at(bytes@, pos as int, key@, dec_u64(n2)) {
                        assert(dec_u64(n2) == valseq);
                    }
                }
            }
            None
        },
    }
}

/// The records of a `Ping` message, laid out at `p0` in `b`.
proof fn chain_ping(b: Seq<u8>, v: MessageView, p0: int)
    requires
        b == payload_bytes(v),
        v is Ping,
        0 <= p0 <= b.len(),
        b.subrange(0, p0) == str_record("type"@, "Ping"@),
    ensures
        v matches MessageView::Ping { ts_ms } ==> {
            let r0 = record_bytes(encode_utf8("ts_ms"@), dec_u64(ts_ms));
            &&& record_at(b, p0, encode_utf8("ts_ms"@), dec_u64(ts_ms))
            &&& p0 + r0.len() == b.len()
        },
{
    match v {
        MessageView::Ping { ts_ms } => {
            assert(payload_bytes(v) == str_record("type"@, "Ping"@) + fields_bytes(v));
            assert(b.subrange(0, b.len() as int) =~= b);
            lemma_chain(
                b,
                0,
                encode_utf8("type"@),
                encode_utf8("Ping"@),
                fields_bytes(v),
            );
            assert(b.subrange(p0, b.len() as int) == fields_bytes(v));
            assert(fields_bytes(v) =~= record_bytes(encode_utf8("ts_ms"@), dec_u64(ts_ms))
                + Seq::<u8>::empty());
            lemma_chain(b, p0, encode_utf8("ts_ms"@), dec_u64(ts_ms), Seq::<u8>::empty());
        },
        _ => {},
    }
}

/// Canonical decimals are injective.
pub proof fn lemma_dec_injective(a: u64, c: u64)
    requires
        dec_u64(a) == dec_u64(c),
    ensures
        a == c,
{
    crate::text::lemma_dec_u64_canonical(a);
    crate::text::lemma_dec_u64_canonical(c);
}

/// Decode the fields of a `Ping` payload.
fn decode_ping(bytes: &[u8], p0: usize) -> (r: Option<Message>)
    requires
        p0 <= bytes@.len(),
        bytes@.subrange(0, p0 as int) == str_record("type"@, "Ping"@),
        forall|v: MessageView| bytes@ == payload_bytes(v) ==> v is Ping,
    ensures
        match r {
            Some(m) => bytes@ == payload_bytes(m@) && (forall|v: MessageView|
                bytes@ == payload_bytes(v) ==> v == m@),
            None => forall|v: MessageView| bytes@ != payload_bytes(v),
        },
{
    let blen = bytes.len();
    let ghost b = bytes@;
    let (ts, p1) = match read_num_field(bytes, p0, "ts_ms".as_bytes(), u64::MAX) {
        Some(v) => v,
        None => {
            proof {
                assert forall|v: MessageView| b != payload_bytes(v) by {
                    if b == payload_bytes(v) {
                        chain_ping(b, v, p0 as int);
                    }
                }
            }
            return None;
        },
    };
    if p1 == blen {
        let m = Message::Ping { ts_ms: ts };
        proof {
            assert(b == payload_bytes(m@)) by {
                assert(b =~= b.subrange(0, p0 as int) + b.subrange(p0 as int, p1 as int));
                assert(b.subrange(p0 as int, p1 as int) == record_bytes(
                    encode_utf8("ts_ms"@),
                    dec_u64(ts),
                ));
                assert(payload_bytes(m@) =~= str_record("type"@, "Ping"@) + record_bytes(
                    encode_utf8("ts_ms"@),
                    dec_u64(ts),
                ));
            }
            assert forall|v: MessageView| b == payload_bytes(v) implies v == m@ by {
                chain_ping(b, v, p0 as int);
                match v {
                    MessageView::Ping { ts_ms } => {
                        assert(record_at(b, p0 as int, encode_utf8("ts_ms"@), dec_u64(ts_ms)));
                        assert(dec_u64(ts_ms) == dec_u64(ts));
                        lemma_dec_injective(ts_ms, ts);
                    },
                    _ => {},
                }
            }
        }
        Some(m)
    } else {
        proof {
            assert forall|v: MessageView| b != payload_bytes(v) by {
                if b == payload_bytes(v) {
                    chain_ping(b, v, p0 as int);
                    match v {
                        MessageView::Ping { ts_ms } => {
                            assert(record_at(b, p0 as int, encode_utf8("ts_ms"@), dec_u64(ts_ms)));
                            assert(dec_u64(ts_ms) == dec_u64(ts));
                            assert(p1 == b.len());
                        },
                        _ => {},
                    }
                }
            }
        }
        None
    }
}

/// The records of a `Hello` message, laid out at `p0` in `b`.
proof fn chain_hello(b: Seq<u8>, v: MessageView, p0: int)
    requires
        b == payload_bytes(v),
        v is Hello,
        0 <= p0 <= b.len(),
        b.subrange(0, p0) == str_record("type"@, "Hello"@),
    ensures
        v matches MessageView::Hello { peer_id: peer_id_v, version: version_v, identity_pk_b64: identity_pk_b64_v, nonce_b64: nonce_b64_v, sig_b64: sig_b64_v } ==> {
            let r0 = record_bytes(encode_utf8("peer_id"@), encode_utf8(peer_id_v));
            let r1 = record_bytes(encode_utf8("version"@), dec_u64(version_v as u64));
            let r2 = record_bytes(encode_utf8("identity_pk_b64"@), encode_utf8(identity_pk_b64_v));
            let r3 = record_bytes(encode_utf8("nonce_b64"@), encode_utf8(nonce_b64_v));
            let r4 = record_bytes(encode_utf8("sig_b64"@), encode_utf8(sig_b64_v));
            &&& record_at(b, p0, encode_utf8("peer_id"@), encode_utf8(peer_id_v))
            &&& record_at(b, p0 + r0.len(), encode_utf8("version"@), dec_u64(version_v as u64))
            &&& record_at(b, p0 + r0.len() + r1.len(), encode_utf8("identity_pk_b64"@), encode_utf8(identity_pk_b64_v))
            &&& record_at(b, p0 + r0.len() + r1.len() + r2.len(), encode_utf8("nonce_b64"@), encode_utf8(nonce_b64_v))
            &&& record_at(b, p0 + r0.len() + r1.len() + r2.len() + r3.len(), encode_utf8("sig_b64"@), encode_utf8(sig_b64_v))
            &&& p0 + r0.len() + r1.len() + r2.len() + r3.len() + r4.len() == b.len()
        },
{
    match v {
        MessageView::Hello { peer_id: peer_id_v, version: version_v, identity_pk_b64: identity_pk_b64_v, nonce_b64: nonce_b64_v, sig_b64: sig_b64_v } => {
            assert(payload_bytes(v) == str_record("type"@, "Hello"@) + fields_bytes(v));
            assert(b.subrange(0, b.len() as int) =~= b);
            lemma_chain(b, 0, encode_utf8("type"@), encode_utf8("Hello"@), fields_bytes(v));
            assert(b.subrange(p0, b.len() as int) == fields_bytes(v));
            assert(fields_bytes(v) =~= record_bytes(encode_utf8("peer_id"@), encode_utf8(peer_id_v)) + (record_bytes(encode_utf8("version"@), dec_u64(version_v as u64)) + record_bytes(encode_utf8("identity_pk_b64"@), encode_utf8(identity_pk_b64_v)) + record_bytes(encode_utf8("nonce_b64"@), encode_utf8(nonce_b64_v)) + record_bytes(encode_utf8("sig_b64"@), encode_utf8(sig_b64_v))));
            lemma_chain(b, p0, encode_utf8("peer_id"@), encode_utf8(peer_id_v), record_bytes(encode_utf8("version"@), dec_u64(version_v as u64)) + record_bytes(encode_utf8("identity_pk_b64"@), encode_utf8(identity_pk_b64_v)) + record_bytes(encode_utf8("nonce_b64"@), encode_utf8(nonce_b64_v)) + record_bytes(encode_utf8("sig_b64"@), encode_utf8(sig_b64_v)));
            assert(b.subrange(p0 + record_bytes(encode_utf8("peer_id"@), encode_utf8(peer_id_v)).len(), b.len() as int) == record_bytes(encode_utf8("version"@), dec_u64(version_v as u64)) + record_bytes(encode_utf8("identity_pk_b64"@), encode_utf8(identity_pk_b64_v)) + record_bytes(encode_utf8("nonce_b64"@), encode_utf8(nonce_b64_v)) + record_bytes(encode_utf8("sig_b64"@), encode_utf8(sig_b64_v)));
            assert(b.subrange(p0 + record_bytes(encode_utf8("peer_id"@), encode_utf8(peer_id_v)).len(), b.len() as int) =~= record_bytes(encode_utf8("version"@), dec_u64(version_v as u64)) + (record_bytes(encode_utf8("identity_pk_b64"@), encode_utf8(identity_pk_b64_v)) + record_bytes(encode_utf8("nonce_b64"@), encode_utf8(nonce_b64_v)) + record_bytes(encode_utf8("sig_b64"@), encode_utf8(sig_b64_v))));
            lemma_chain(b, p0 + record_bytes(encode_utf8("peer_id"@), encode_utf8(peer_id_v)).len(), encode_utf8("version"@), dec_u64(version_v as u64), record_bytes(encode_utf8("identity_pk_b64"@), encode_utf8(identity_pk_b64_v)) + record_bytes(encode_utf8("nonce_b64"@), encode_utf8(nonce_b64_v)) + record_bytes(encode_utf8("sig_b64"@), encode_utf8(sig_b64_v)));
            assert(b.subrange(p0 + record_bytes(encode_utf8("peer_id"@), encode_utf8(peer_id_v)).len() + record_bytes(encode_utf8("version"@), dec_u64(version_v as u64)).len(), b.len() as int) == record_bytes(encode_utf8("identity_pk_b64"@), encode_utf8(identity_pk_b64_v)) + record_bytes(encode_utf8("nonce_b64"@), encode_utf8(nonce_b64_v)) + record_bytes(encode_utf8("sig_b64"@), encode_utf8(sig_b64_v)));
            assert(b.subrange(p0 + record_bytes(encode_utf8("peer_id"@), encode_utf8(peer_id_v)).len() + record_bytes(encode_utf8("version"@), dec_u64(version_v as u64)).len(), b.len() as int) =~= record_bytes(encode_utf8("identity_pk_b64"@), encode_utf8(identity_pk_b64_v)) + (record_bytes(encode_utf8("nonce_b64"@), encode_utf8(nonce_b64_v)) + record_bytes(encode_utf8("sig_b64"@), encode_utf8(sig_b64_v))));
            lemma_chain(b, p0 + record_bytes(encode_utf8("peer_id"@), encode_utf8(peer_id_v)).len() + record_bytes(encode_utf8("version"@), dec_u64(version_v as u64)).len(), encode_utf8("identity_pk_b64"@), encode_utf8(identity_pk_b64_v), record_bytes(encode_utf8("nonce_b64"@), encode_utf8(nonce_b64_v)) + record_bytes(encode_utf8("sig_b64"@), encode_utf8(sig_b64_v)));
            assert(b.subrange(p0 + record_bytes(encode_utf8("peer_id"@), encode_utf8(peer_id_v)).len() + record_bytes(encode_utf8("version"@), dec_u64(version_v as u64)).len() + record_bytes(encode_utf8("identity_pk_b64"@), encode_utf8(identity_pk_b64_v)).len(), b.len() as int) == record_bytes(encode_utf8("nonce_b64"@), encode_utf8(nonce_b64_v)) + record_bytes(encode_utf8("sig_b64"@), encode_utf8(sig_b64_v)));
            assert(b.subrange(p0 + record_bytes(encode_utf8("peer_id"@), encode_utf8(peer_id_v)).len() + record_bytes(encode_utf8("version"@), dec_u64(version_v as u64)).len() + record_bytes(encode_utf8("identity_pk_b64"@), encode_utf8(identity_pk_b64_v)).len(), b.len() as int) =~= record_bytes(encode_utf8("nonce_b64"@), encode_utf8(nonce_b64_v)) + (record_bytes(encode_utf8("sig_b64"@), encode_utf8(sig_b64_v))));
            lemma_chain(b, p0 + record_bytes(encode_utf8("peer_id"@), encode_utf8(peer_id_v)).len() + record_bytes(encode_utf8("version"@), dec_u64(version_v as u64)).len() + record_bytes(encode_utf8("identity_pk_b64"@), encode_utf8(identity_pk_b64_v)).len(), encode_utf8("nonce_b64"@), encode_utf8(nonce_b64_v), record_bytes(encode_utf8("sig_b64"@), encode_utf8(sig_b64_v)));
            assert(b.subrange(p0 + record_bytes(encode_utf8("peer_id"@), encode_utf8(peer_id_v)).len() + record_bytes(encode_utf8("version"@), dec_u64(version_v as u64)).len() + record_bytes(encode_utf8("identity_pk_b64"@), encode_utf8(identity_pk_b64_v)).len() + record_bytes(encode_utf8("nonce_b64"@), encode_utf8(nonce_b64_v)).len(), b.len() as int) == record_bytes(encode_utf8("sig_b64"@), encode_utf8(sig_b64_v)));
            assert(b.subrange(p0 + record_bytes(encode_utf8("peer_id"@), encode_utf8(peer_id_v)).len() + record_bytes(encode_utf8("version"@), dec_u64(version_v as u64)).len() + record_bytes(encode_utf8("identity_pk_b64"@), encode_utf8(identity_pk_b64_v)).len() + record_bytes(encode_utf8("nonce_b64"@), encode_utf8(nonce_b64_v)).len(), b.len() as int) =~= record_bytes(encode_utf8("sig_b64"@), encode_utf8(sig_b64_v)) + (Seq::<u8>::empty()));
            lemma_chain(b, p0 + record_bytes(encode_utf8("peer_id"@), encode_utf8(peer_id_v)).len() + record_bytes(encode_utf8("version"@), dec_u64(version_v as u64)).len() + record_bytes(encode_utf8("identity_pk_b64"@), encode_utf8(identity_pk_b64_v)).len() + record_bytes(encode_utf8("nonce_b64"@), encode_utf8(nonce_b64_v)).len(), encode_utf8("sig_b64"@), encode_utf8(sig_b64_v), Seq::<u8>::empty());
        },
        _ => {},
    }
}

/// Decode the fields of a `Hello` payload.
#[verifier::rlimit(100)]
#[verifier::spinoff_prover]
fn decode_hello(bytes: &[u8], p0: usize) -> (r: Option<Message>)
    requires
        p0 <= bytes@.len(),
        bytes@.subrange(0, p0 as int) == str_record("type"@, "Hello"@),
        forall|v: MessageView| bytes@ == payload_bytes(v) ==> v is Hello,
    ensures
        match r {
            Some(m) => bytes@ == payload_bytes(m@) && (forall|v: MessageView|
                bytes@ == payload_bytes(v) ==> v == m@),
            None => forall|v: MessageView| bytes@ != payload_bytes(v),
        },
{
    let blen = bytes.len();
    let ghost b = bytes@;
    proof {
        assert forall|v: MessageView| #![trigger payload_bytes(v)] b == payload_bytes(v) implies (v matches MessageView::Hello { peer_id: peer_id_v, version: version_v, identity_pk_b64: identity_pk_b64_v, nonce_b64: nonce_b64_v, sig_b64: sig_b64_v } ==> {
            let r0 = record_bytes(encode_utf8("peer_id"@), encode_utf8(peer_id_v));
            let r1 = record_bytes(encode_utf8("version"@), dec_u64(version_v as u64));
            let r2 = record_bytes(encode_utf8("identity_pk_b64"@), encode_utf8(identity_pk_b64_v));
            let r3 = record_bytes(encode_utf8("nonce_b64"@), encode_utf8(nonce_b64_v));
            let r4 = record_bytes(encode_utf8("sig_b64"@), encode_utf8(sig_b64_v));
            &&& record_at(b, p0 as int, encode_utf8("peer_id"@), encode_utf8(peer_id_v))
            &&& record_at(b, p0 as int + r0.len(), encode_utf8("version"@), dec_u64(version_v as u64))
            &&& record_at(b, p0 as int + r0.len() + r1.len(), encode_utf8("identity_pk_b64"@), encode_utf8(identity_pk_b64_v))
            &&& record_at(b, p0 as int + r0.len() + r1.len() + r2.len(), encode_utf8("nonce_b64"@), encode_utf8(nonce_b64_v))
            &&& record_at(b, p0 as int + r0.len() + r1.len() + r2.len() + r3.len(), encode_utf8("sig_b64"@), encode_utf8(sig_b64_v))
            &&& p0 as int + r0.len() + r1.len() + r2.len() + r3.len() + r4.len() == b.len()
        }) by {
            chain_hello(b, v, p0 as int);
        }
    }
    let (peer_id, p1) = match read_str_field(bytes, p0, "peer_id".as_bytes()) {
        Some(v) => v,
        None => {
            proof {
                assert forall|v: MessageView| b != payload_bytes(v) by {
                    if b == payload_bytes(v) {
                        match v {
                            MessageView::Hello { peer_id: peer_id_v, version: version_v, identity_pk_b64: identity_pk_b64_v, nonce_b64: nonce_b64_v, sig_b64: sig_b64_v } => {
                                assert(record_at(b, p0 as int, encode_utf8("peer_id"@), encode_utf8(peer_id_v)));
                                assert(false);
                            },
                            _ => {},
                        }
                    }
                }
            }
            return None;
        },
    };
    let (version, p2) = match read_num_field(bytes, p1, "version".as_bytes(), u8::MAX as u64) {
        Some(v) => v,
        None => {
            proof {
                assert forall|v: MessageView| b != payload_bytes(v) by {
                    if b == payload_bytes(v) {
                        match v {
                            MessageView::Hello { peer_id: peer_id_v, version: version_v, identity_pk_b64: identity_pk_b64_v, nonce_b64: nonce_b64_v, sig_b64: sig_b64_v } => {
                                assert(record_at(b, p0 as int, encode_utf8("peer_id"@), encode_utf8(peer_id_v)));
                                assert(encode_utf8(peer_id_v) == encode_utf8(peer_id@));
                                assert(p1 as int == p0 as int + record_bytes(encode_utf8("peer_id"@), encode_utf8(peer_id_v)).len());
                                assert(record_at(b, p1 as int, encode_utf8("version"@), dec_u64(version_v as u64)));
                                assert((version_v as u64) <= u8::MAX as u64);
                                assert(false);
                            },
                            _ => {},
                        }
                    }
                }
            }
            return None;
        },
    };
    let (identity_pk_b64, p3) = match read_str_field(bytes, p2, "identity_pk_b64".as_bytes()) {
        Some(v) => v,
        None => {
            proof {
                assert forall|v: MessageView| b != payload_bytes(v) by {
                    if b == payload_bytes(v) {
                        match v {
                            MessageView::Hello { peer_id: peer_id_v, version: version_v, identity_pk_b64: identity_pk_b64_v, nonce_b64: nonce_b64_v, sig_b64: sig_b64_v } => {
                                assert(record_at(b, p0 as int, encode_utf8("peer_id"@), encode_utf8(peer_id_v)));
                                assert(encode_utf8(peer_id_v) == encode_utf8(peer_id@));
                                assert(p1 as int == p0 as int + record_bytes(encode_utf8("peer_id"@), encode_utf8(peer_id_v)).len());
                                assert(record_at(b, p1 as int, encode_utf8("version"@), dec_u64(version_v as u64)));
                                assert(dec_u64(version_v as u64) == dec_u64(version));
                                assert(p2 as int == p1 as int + record_bytes(encode_utf8("version"@), dec_u64(version_v as u64)).len());
                                assert(record_at(b, p2 as int, encode_utf8("identity_pk_b64"@), encode_utf8(identity_pk_b64_v)));
                                assert(false);
                            },
                            _ => {},
                        }
                    }
                }
            }
            return None;
        },
    };
    let (nonce_b64, p4) = match read_str_field(bytes, p3, "nonce_b64".as_bytes()) {
        Some(v) => v,
        None => {
            proof {
                assert forall|v: MessageView| b != payload_bytes(v) by {
                    if b == payload_bytes(v) {
                        match v {
                            MessageView::Hello { peer_id: peer_id_v, version: version_v, identity_pk_b64: identity_pk_b64_v, nonce_b64: nonce_b64_v, sig_b64: sig_b64_v } => {
                                assert(record_at(b, p0 as int, encode_utf8("peer_id"@), encode_utf8(peer_id_v)));
                                assert(encode_utf8(peer_id_v) == encode_utf8(peer_id@));
                                assert(p1 as int == p0 as int + record_bytes(encode_utf8("peer_id"@), encode_utf8(peer_id_v)).len());
                                assert(record_at(b, p1 as int, encode_utf8("version"@), dec_u64(version_v as u64)));
                                assert(dec_u64(version_v as u64) == dec_u64(version));
                                assert(p2 as int == p1 as int + record_bytes(encode_utf8("version"@), dec_u64(version_v as u64)).len());
                                assert(record_at(b, p2 as int, encode_utf8("identity_pk_b64"@), encode_utf8(identity_pk_b64_v)));
                                assert(encode_utf8(identity_pk_b64_v) == encode_utf8(identity_pk_b64@));
                                assert(p3 as int == p2 as int + record_bytes(encode_utf8("identity_pk_b64"@), encode_utf8(identity_pk_b64_v)).len());
                                assert(record_at(b, p3 as int, encode_utf8("nonce_b64"@), encode_utf8(nonce_b64_v)));
                                assert(false);
                            },
                            _ => {},
                        }
                    }
                }
            }
            return None;
        },
    };
    let (sig_b64, p5) = match read_str_field(bytes, p4, "sig_b64".as_bytes()) {
        Some(v) => v,
        None => {
            proof {
                assert forall|v: MessageView| b != payload_bytes(v) by {
                    if b == payload_bytes(v) {
                        match v {
                            MessageView::Hello { peer_id: peer_id_v, version: version_v, identity_pk_b64: identity_pk_b64_v, nonce_b64: nonce_b64_v, sig_b64: sig_b64_v } => {
                                assert(record_at(b, p0 as int, encode_utf8("peer_id"@), encode_utf8(peer_id_v)));
                                assert(encode_utf8(peer_id_v) == encode_utf8(peer_id@));
                                assert(p1 as int == p0 as int + record_bytes(encode_utf8("peer_id"@), encode_utf8(peer_id_v)).len());
                                assert(record_at(b, p1 as int, encode_utf8("version"@), dec_u64(version_v as u64)));
                                assert(dec_u64(version_v as u64) == dec_u64(version));
                                assert(p2 as int == p1 as int + record_bytes(encode_utf8("version"@), dec_u64(version_v as u64)).len());
                                assert(record_at(b, p2 as int, encode_utf8("identity_pk_b64"@), encode_utf8(identity_pk_b64_v)));
                                assert(encode_utf8(identity_pk_b64_v) == encode_utf8(identity_pk_b64@));
                                assert(p3 as int == p2 as int + record_bytes(encode_utf8("identity_pk_b64"@), encode_utf8(identity_pk_b64_v)).len());
                                assert(record_at(b, p3 as int, encode_utf8("nonce_b64"@), encode_utf8(nonce_b64_v)));
                                assert(encode_utf8(nonce_b64_v) == encode_utf8(nonce_b64@));
                                assert(p4 as int == p3 as int + record_bytes(encode_utf8("nonce_b64"@), encode_utf8(nonce_b64_v)).len());
                                assert(record_at(b, p4 as int, encode_utf8("sig_b64"@), encode_utf8(sig_b64_v)));
                                assert(false);
                            },
                            _ => {},
                        }
                    }
                }
            }
            return None;
        },
    };
    if p5 == blen {
        let m = Message::Hello { peer_id, version: version as u8, identity_pk_b64, nonce_b64, sig_b64 };
        proof {
            assert((version as u8) as u64 == version);
            assert(b == payload_bytes(m@)) by {
                assert(b =~= b.subrange(0, p0 as int) + b.subrange(p0 as int, p1 as int) + b.subrange(p1 as int, p2 as int) + b.subrange(p2 as int, p3 as int) + b.subrange(p3 as int, p4 as int) + b.subrange(p4 as int, p5 as int));
                assert(b.subrange(p0 as int, p1 as int) == record_bytes(encode_utf8("peer_id"@), encode_utf8(peer_id@)));
                assert(b.subrange(p1 as int, p2 as int) == record_bytes(encode_utf8("version"@), dec_u64(version)));
                assert(b.subrange(p2 as int, p3 as int) == record_bytes(encode_utf8("identity_pk_b64"@), encode_utf8(identity_pk_b64@)));
                assert(b.subrange(p3 as int, p4 as int) == record_bytes(encode_utf8("nonce_b64"@), encode_utf8(nonce_b64@)));
                assert(b.subrange(p4 as int, p5 as int) == record_bytes(encode_utf8("sig_b64"@), encode_utf8(sig_b64@)));
                assert(payload_bytes(m@) =~= str_record("type"@, "Hello"@) + record_bytes(encode_utf8("peer_id"@), encode_utf8(peer_id@)) + record_bytes(encode_utf8("version"@), dec_u64(version)) + record_bytes(encode_utf8("identity_pk_b64"@), encode_utf8(identity_pk_b64@)) + record_bytes(encode_utf8("nonce_b64"@), encode_utf8(nonce_b64@)) + record_bytes(encode_utf8("sig_b64"@), encode_utf8(sig_b64@)));
            }
            assert forall|v: MessageView| b == payload_bytes(v) implies v == m@ by {
                match v {
                    MessageView::Hello { peer_id: peer_id_v, version: version_v, identity_pk_b64: identity_pk_b64_v, nonce_b64: nonce_b64_v, sig_b64: sig_b64_v } => {
                        assert(record_at(b, p0 as int, encode_utf8("peer_id"@), encode_utf8(peer_id_v)));
                        assert(encode_utf8(peer_id_v) == encode_utf8(peer_id@));
                        assert(p1 as int == p0 as int + record_bytes(encode_utf8("peer_id"@), encode_utf8(peer_id_v)).len());
                        assert(record_at(b, p1 as int, encode_utf8("version"@), dec_u64(version_v as u64)));
                        assert(dec_u64(version_v as u64) == dec_u64(version));
                        assert(p2 as int == p1 as int + record_bytes(encode_utf8("version"@), dec_u64(version_v as u64)).len());
                        assert(record_at(b, p2 as int, encode_utf8("identity_pk_b64"@), encode_utf8(identity_pk_b64_v)));
                        assert(encode_utf8(identity_pk_b64_v) == encode_utf8(identity_pk_b64@));
                        assert(p3 as int == p2 as int + record_bytes(encode_utf8("identity_pk_b64"@), encode_utf8(identity_pk_b64_v)).len());
                        assert(record_at(b, p3 as int, encode_utf8("nonce_b64"@), encode_utf8(nonce_b64_v)));
                        assert(encode_utf8(nonce_b64_v) == encode_utf8(nonce_b64@));
                        assert(p4 as int == p3 as int + record_bytes(encode_utf8("nonce_b64"@), encode_utf8(nonce_b64_v)).len());
                        assert(record_at(b, p4 as int, encode_utf8("sig_b64"@), encode_utf8(sig_b64_v)));
                        assert(encode_utf8(sig_b64_v) == encode_utf8(sig_b64@));
                        assert(p5 as int == p4 as int + record_bytes(encode_utf8("sig_b64"@), encode_utf8(sig_b64_v)).len());
                        lemma_encode_utf8_injective(peer_id_v, peer_id@);
                        lemma_dec_injective(version_v as u64, version);
                        lemma_encode_utf8_injective(identity_pk_b64_v, identity_pk_b64@);
                        lemma_encode_utf8_injective(nonce_b64_v, nonce_b64@);
                        lemma_encode_utf8_injective(sig_b64_v, sig_b64@);
                        assert(v == m@);
                    },
                    _ => {},
                }
            }
        }
        Some(m)
    } else {
        proof {
            assert forall|v: MessageView| b != payload_bytes(v) by {
                if b == payload_bytes(v) {
                    match v {
                        MessageView::Hello { peer_id: peer_id_v, version: version_v, identity_pk_b64: identity_pk_b64_v, nonce_b64: nonce_b64_v, sig_b64: sig_b64_v } => {
                            assert(record_at(b, p0 as int, encode_utf8("peer_id"@), encode_utf8(peer_id_v)));
                            assert(encode_utf8(peer_id_v) == encode_utf8(peer_id@));
                            assert(p1 as int == p0 as int + record_bytes(encode_utf8("peer_id"@), encode_utf8(peer_id_v)).len());
                            assert(record_at(b, p1 as int, encode_utf8("version"@), dec_u64(version_v as u64)));
                            assert(dec_u64(version_v as u64) == dec_u64(version));
                            assert(p2 as int == p1 as int + record_bytes(encode_utf8("version"@), dec_u64(version_v as u64)).len());
                            assert(record_at(b, p2 as int, encode_utf8("identity_pk_b64"@), encode_utf8(identity_pk_b64_v)));
                            assert(encode_utf8(identity_pk_b64_v) == encode_utf8(identity_pk_b64@));
                            assert(p3 as int == p2 as int + record_bytes(encode_utf8("identity_pk_b64"@), encode_utf8(identity_pk_b64_v)).len());
                            assert(record_at(b, p3 as int, encode_utf8("nonce_b64"@), encode_utf8(nonce_b64_v)));
                            assert(encode_utf8(nonce_b64_v) == encode_utf8(nonce_b64@));
                            assert(p4 as int == p3 as int + record_bytes(encode_utf8("nonce_b64"@), encode_utf8(nonce_b64_v)).len());
                            assert(record_at(b, p4 as int, encode_utf8("sig_b64"@), encode_utf8(sig_b64_v)));
                            assert(encode_utf8(sig_b64_v) == encode_utf8(sig_b64@));
                            assert(p5 as int == p4 as int + record_bytes(encode_utf8("sig_b64"@), encode_utf8(sig_b64_v)).len());
                            assert(p5 as int == b.len());
                        },
                        _ => {},
                    }
                }
            }
        }
        None
    }
}

/// The records of a `Pong` message, laid out at `p0` in `b`.
proof fn chain_pong(b: Seq<u8>, v: MessageView, p0: int)
    requires
        b == payload_bytes(v),
        v is Pong,
        0 <= p0 <= b.len(),
        b.subrange(0, p0) == str_record("type"@, "Pong"@),
    ensures
        v matches MessageView::Pong { ts_ms: ts_ms_v } ==> {
            let r0 = record_bytes(encode_utf8("ts_ms"@), dec_u64(ts_ms_v));
            &&& record_at(b, p0, encode_utf8("ts_ms"@), dec_u64(ts_ms_v))
            &&& p0 + r0.len() == b.len()
        },
{
    match v {
        MessageView::Pong { ts_ms: ts_ms_v } => {
            assert(payload_bytes(v) == str_record("type"@, "Pong"@) + fields_bytes(v));
            assert(b.subrange(0, b.len() as int) =~= b);
            lemma_chain(b, 0, encode_utf8("type"@), encode_utf8("Pong"@), fields_bytes(v));
            assert(b.subrange(p0, b.len() as int) == fields_bytes(v));
            assert(fields_bytes(v) =~= record_bytes(encode_utf8("ts_ms"@), dec_u64(ts_ms_v)) + (Seq::<u8>::empty()));
            lemma_chain(b, p0, encode_utf8("ts_ms"@), dec_u64(ts_ms_v), Seq::<u8>::empty());
        },
        _ => {},
    }
}

/// Decode the fields of a `Pong` payload.
fn decode_pong(bytes: &[u8], p0: usize) -> (r: Option<Message>)
    requires
        p0 <= bytes@.len(),
        bytes@.subrange(0, p0 as int) == str_record("type"@, "Pong"@),
        forall|v: MessageView| bytes@ == payload_bytes(v) ==> v is Pong,
    ensures
        match r {
            Some(m) => bytes@ == payload_bytes(m@) && (forall|v: MessageView|
                bytes@ == payload_bytes(v) ==> v == m@),
            None => forall|v: MessageView| bytes@ != payload_bytes(v),
        },
{
    let blen = bytes.len();
    let ghost b = bytes@;
    proof {
        assert forall|v: MessageView| #![trigger payload_bytes(v)] b == payload_bytes(v) implies (v matches MessageView::Pong { ts_ms: ts_ms_v } ==> {
            let r0 = record_bytes(encode_utf8("ts_ms"@), dec_u64(ts_ms_v));
            &&& record_at(b, p0 as int, encode_utf8("ts_ms"@), dec_u64(ts_ms_v))
            &&& p0 as int + r0.len() == b.len()
        }) by {
            chain_pong(b, v, p0 as int);
        }
    }
    let (ts_ms, p1) = match read_num_field(bytes, p0, "ts_ms".as_bytes(), u64::MAX) {
        Some(v) => v,
        None => {
            proof {
                assert forall|v: MessageView| b != payload_bytes(v) by {
                    if b == payload_bytes(v) {
                        match v {
                            MessageView::Pong { ts_ms: ts_ms_v } => {
                                assert(record_at(b, p0 as int, encode_utf8("ts_ms"@), dec_u64(ts_ms_v)));
                                assert(false);
                            },
                            _ => {},
                        }
                    }
                }
            }
            return None;
        },
    };
    if p1 == blen {
        let m = Message::Pong { ts_ms };
        proof {
            assert(b == payload_bytes(m@)) by {
                assert(b =~= b.subrange(0, p0 as int) + b.subrange(p0 as int, p1 as int));
                assert(b.subrange(p0 as int, p1 as int) == record_bytes(encode_utf8("ts_ms"@), dec_u64(ts_ms)));
                assert(payload_bytes(m@) =~= str_record("type"@, "Pong"@) + record_bytes(encode_utf8("ts_ms"@), dec_u64(ts_ms)));
            }
            assert forall|v: MessageView| b == payload_bytes(v) implies v == m@ by {
                match v {
                    MessageView::Pong { ts_ms: ts_ms_v } => {
                        assert(record_at(b, p0 as int, encode_utf8("ts_ms"@), dec_u64(ts_ms_v)));
                        assert(dec_u64(ts_ms_v) == dec_u64(ts_ms));
                        assert(p1 as int == p0 as int + record_bytes(encode_utf8("ts_ms"@), dec_u64(ts_ms_v)).len());
                        lemma_dec_injective(ts_ms_v, ts_ms);
                        assert(v == m@);
                    },
                    _ => {},
                }
            }
        }
        Some(m)
    } else {
        proof {
            assert forall|v: MessageView| b != payload_bytes(v) by {
                if b == payload_bytes(v) {
                    match v {
                        MessageView::Pong { ts_ms: ts_ms_v } => {
                            assert(record_at(b, p0 as int, encode_utf8("ts_ms"@), dec_u64(ts_ms_v)));
                            assert(dec_u64(ts_ms_v) == dec_u64(ts_ms));
                            assert(p1 as int == p0 as int + record_bytes(encode_utf8("ts_ms"@), dec_u64(ts_ms_v)).len());
                            assert(p1 as int == b.len());
                        },
                        _ => {},
                    }
                }
            }
        }
        None
    }
}

/// The records of a `ClipText` message, laid out at `p0` in `b`.
proof fn chain_cliptext(b: Seq<u8>, v: MessageView, p0: int)
    requires
        b == payload_bytes(v),
        v is ClipText,
        0 <= p0 <= b.len(),
        b.subrange(0, p0) == str_record("type"@, "ClipText"@),
    ensures
        v matches MessageView::ClipText { mime: mime_v, text: text_v, ts_ms: ts_ms_v } ==> {
            let r0 = record_bytes(encode_utf8("mime"@), encode_utf8(mime_v));
            let r1 = record_bytes(encode_utf8("text"@), encode_utf8(text_v));
            let r2 = record_bytes(encode_utf8("ts_ms"@), dec_u64(ts_ms_v));
            &&& record_at(b, p0, encode_utf8("mime"@), encode_utf8(mime_v))
            &&& record_at(b, p0 + r0.len(), encode_utf8("text"@), encode_utf8(text_v))
            &&& record_at(b, p0 + r0.len() + r1.len(), encode_utf8("ts_ms"@), dec_u64(ts_ms_v))
            &&& p0 + r0.len() + r1.len() + r2.len() == b.len()
        },
{
    match v {
        MessageView::ClipText { mime: mime_v, text: text_v, ts_ms: ts_ms_v } => {
            assert(payload_bytes(v) == str_record("type"@, "ClipText"@) + fields_bytes(v));
            assert(b.subrange(0, b.len() as int) =~= b);
            lemma_chain(b, 0, encode_utf8("type"@), encode_utf8("ClipText"@), fields_bytes(v));
            assert(b.subrange(p0, b.len() as int) == fields_bytes(v));
            assert(fields_bytes(v) =~= record_bytes(encode_utf8("mime"@), encode_utf8(mime_v)) + (record_bytes(encode_utf8("text"@), encode_utf8(text_v)) + record_bytes(encode_utf8("ts_ms"@), dec_u64(ts_ms_v))));
            lemma_chain(b, p0, encode_utf8("mime"@), encode_utf8(mime_v), record_bytes(encode_utf8("text"@), encode_utf8(text_v)) + record_bytes(encode_utf8("ts_ms"@), dec_u64(ts_ms_v)));
            assert(b.subrange(p0 + record_bytes(encode_utf8("mime"@), encode_utf8(mime_v)).len(), b.len() as int) == record_bytes(encode_utf8("text"@), encode_utf8(text_v)) + record_bytes(encode_utf8("ts_ms"@), dec_u64(ts_ms_v)));
            assert(b.subrange(p0 + record_bytes(encode_utf8("mime"@), encode_utf8(mime_v)).len(), b.len() as int) =~= record_bytes(encode_utf8("text"@), encode_utf8(text_v)) + (record_bytes(encode_utf8("ts_ms"@), dec_u64(ts_ms_v))));
            lemma_chain(b, p0 + record_bytes(encode_utf8("mime"@), encode_utf8(mime_v)).len(), encode_utf8("text"@), encode_utf8(text_v), record_bytes(encode_utf8("ts_ms"@), dec_u64(ts_ms_v)));
            assert(b.subrange(p0 + record_bytes(encode_utf8("mime"@), encode_utf8(mime_v)).len() + record_bytes(encode_utf8("text"@), encode_utf8(text_v)).len(), b.len() as int) == record_bytes(encode_utf8("ts_ms"@), dec_u64(ts_ms_v)));
            assert(b.subrange(p0 + record_bytes(encode_utf8("mime"@), encode_utf8(mime_v)).len() + record_bytes(encode_utf8("text"@), encode_utf8(text_v)).len(), b.len() as int) =~= record_bytes(encode_utf8("ts_ms"@), dec_u64(ts_ms_v)) + (Seq::<u8>::empty()));
            lemma_chain(b, p0 + record_bytes(encode_utf8("mime"@), encode_utf8(mime_v)).len() + record_bytes(encode_utf8("text"@), encode_utf8(text_v)).len(), encode_utf8("ts_ms"@), dec_u64(ts_ms_v), Seq::<u8>::empty());
        },
        _ => {},
    }
}

/// Decode the fields of a `ClipText` payload.
fn decode_cliptext(bytes: &[u8], p0: usize) -> (r: Option<Message>)
    requires
        p0 <= bytes@.len(),
        bytes@.subrange(0, p0 as int) == str_record("type"@, "ClipText"@),
        forall|v: MessageView| bytes@ == payload_bytes(v) ==> v is ClipText,
    ensures
        match r {
            Some(m) => bytes@ == payload_bytes(m@) && (forall|v: MessageView|
                bytes@ == payload_bytes(v) ==> v == m@),
            None => forall|v: MessageView| bytes@ != payload_bytes(v),
        },
{
    let blen = bytes.len();
    let ghost b = bytes@;
    proof {
        assert forall|v: MessageView| #![trigger payload_bytes(v)] b == payload_bytes(v) implies (v matches MessageView::ClipText { mime: mime_v, text: text_v, ts_ms: ts_ms_v } ==> {
            let r0 = record_bytes(encode_utf8("mime"@), encode_utf8(mime_v));
            let r1 = record_bytes(encode_utf8("text"@), encode_utf8(text_v));
            let r2 = record_bytes(encode_utf8("ts_ms"@), dec_u64(ts_ms_v));
            &&& record_at(b, p0 as int, encode_utf8("mime"@), encode_utf8(mime_v))
            &&& record_at(b, p0 as int + r0.len(), encode_utf8("text"@), encode_utf8(text_v))
            &&& record_at(b, p0 as int + r0.len() + r1.len(), encode_utf8("ts_ms"@), dec_u64(ts_ms_v))
            &&& p0 as int + r0.len() + r1.len() + r2.len() == b.len()
        }) by {
            chain_cliptext(b, v, p0 as int);
        }
    }
    let (mime, p1) = match read_str_field(bytes, p0, "mime".as_bytes()) {
        Some(v) => v,
        None => {
            proof {
                assert forall|v: MessageView| b != payload_bytes(v) by {
                    if b == payload_bytes(v) {
                        match v {
                            MessageView::ClipText { mime: mime_v, text: text_v, ts_ms: ts_ms_v } => {
                                assert(record_at(b, p0 as int, encode_utf8("mime"@), encode_utf8(mime_v)));
                                assert(false);
                            },
                            _ => {},
                        }
                    }
                }
            }
            return None;
        },
    };
    let (text, p2) = match read_str_field(bytes, p1, "text".as_bytes()) {
        Some(v) => v,
        None => {
            proof {
                assert forall|v: MessageView| b != payload_bytes(v) by {
                    if b == payload_bytes(v) {
                        match v {
                            MessageView::ClipText { mime: mime_v, text: text_v, ts_ms: ts_ms_v } => {
                                assert(record_at(b, p0 as int, encode_utf8("mime"@), encode_utf8(mime_v)));
                                assert(encode_utf8(mime_v) == encode_utf8(mime@));
                                assert(p1 as int == p0 as int + record_bytes(encode_utf8("mime"@), encode_utf8(mime_v)).len());
                                assert(record_at(b, p1 as int, encode_utf8("text"@), encode_utf8(text_v)));
                                assert(false);
                            },
                            _ => {},
                        }
                    }
                }
            }
            return None;
        },
    };
    let (ts_ms, p3) = match read_num_field(bytes, p2, "ts_ms".as_bytes(), u64::MAX) {
        Some(v) => v,
        None => {
            proof {
                assert forall|v: MessageView| b != payload_bytes(v) by {
                    if b == payload_bytes(v) {
                        match v {
                            MessageView::ClipText { mime: mime_v, text: text_v, ts_ms: ts_ms_v } => {
                                assert(record_at(b, p0 as int, encode_utf8("mime"@), encode_utf8(mime_v)));
                                assert(encode_utf8(mime_v) == encode_utf8(mime@));
                                assert(p1 as int == p0 as int + record_bytes(encode_utf8("mime"@), encode_utf8(mime_v)).len());
                                assert(record_at(b, p1 as int, encode_utf8("text"@), encode_utf8(text_v)));
                                assert(encode_utf8(text_v) == encode_utf8(text@));
                                assert(p2 as int == p1 as int + record_bytes(encode_utf8("text"@), encode_utf8(text_v)).len());
                                assert(record_at(b, p2 as int, encode_utf8("ts_ms"@), dec_u64(ts_ms_v)));
                                assert(false);
                            },
                            _ => {},
                        }
                    }
                }
            }
            return None;
        },
    };
    if p3 == blen {
        let m = Message::ClipText { mime, text, ts_ms };
        proof {
            assert(b == payload_bytes(m@)) by {
                assert(b =~= b.subrange(0, p0 as int) + b.subrange(p0 as int, p1 as int) + b.subrange(p1 as int, p2 as int) + b.subrange(p2 as int, p3 as int));
                assert(b.subrange(p0 as int, p1 as int) == record_bytes(encode_utf8("mime"@), encode_utf8(mime@)));
                assert(b.subrange(p1 as int, p2 as int) == record_bytes(encode_utf8("text"@), encode_utf8(text@)));
                assert(b.subrange(p2 as int, p3 as int) == record_bytes(encode_utf8("ts_ms"@), dec_u64(ts_ms)));
                assert(payload_bytes(m@) =~= str_record("type"@, "ClipText"@) + record_bytes(encode_utf8("mime"@), encode_utf8(mime@)) + record_bytes(encode_utf8("text"@), encode_utf8(text@)) + record_bytes(encode_utf8("ts_ms"@), dec_u64(ts_ms)));
            }
            assert forall|v: MessageView| b == payload_bytes(v) implies v == m@ by {
                match v {
                    MessageView::ClipText { mime: mime_v, text: text_v, ts_ms: ts_ms_v } => {
                        assert(record_at(b, p0 as int, encode_utf8("mime"@), encode_utf8(mime_v)));
                        assert(encode_utf8(mime_v) == encode_utf8(mime@));
                        assert(p1 as int == p0 as int + record_bytes(encode_utf8("mime"@), encode_utf8(mime_v)).len());
                        assert(record_at(b, p1 as int, encode_utf8("text"@), encode_utf8(text_v)));
                        assert(encode_utf8(text_v) == encode_utf8(text@));
                        assert(p2 as int == p1 as int + record_bytes(encode_utf8("text"@), encode_utf8(text_v)).len());
                        assert(record_at(b, p2 as int, encode_utf8("ts_ms"@), dec_u64(ts_ms_v)));
                        assert(dec_u64(ts_ms_v) == dec_u64(ts_ms));
                        assert(p3 as int == p2 as int + record_bytes(encode_utf8("ts_ms"@), dec_u64(ts_ms_v)).len());
                        lemma_encode_utf8_injective(mime_v, mime@);
                        lemma_encode_utf8_injective(text_v, text@);
                        lemma_dec_injective(ts_ms_v, ts_ms);
                        assert(v == m@);
                    },
                    _ => {},
                }
            }
        }
        Some(m)
    } else {
        proof {
            assert forall|v: MessageView| b != payload_bytes(v) by {
                if b == payload_bytes(v) {
                    match v {
                        MessageView::ClipText { mime: mime_v, text: text_v, ts_ms: ts_ms_v } => {
                            assert(record_at(b, p0 as int, encode_utf8("mime"@), encode_utf8(mime_v)));
                            assert(encode_utf8(mime_v) == encode_utf8(mime@));
                            assert(p1 as int == p0 as int + record_bytes(encode_utf8("mime"@), encode_utf8(mime_v)).len());
                            assert(record_at(b, p1 as int, encode_utf8("text"@), encode_utf8(text_v)));
                            assert(encode_utf8(text_v) == encode_utf8(text@));
                            assert(p2 as int == p1 as int + record_bytes(encode_utf8("text"@), encode_utf8(text_v)).len());
                            assert(record_at(b, p2 as int, encode_utf8("ts_ms"@), dec_u64(ts_ms_v)));
                            assert(dec_u64(ts_ms_v) == dec_u64(ts_ms));
                            assert(p3 as int == p2 as int + record_bytes(encode_utf8("ts_ms"@), dec_u64(ts_ms_v)).len());
                            assert(p3 as int == b.len());
                        },
                        _ => {},
                    }
                }
            }
        }
        None
    }
}

/// The records of a `ClipImage` message, laid out at `p0` in `b`.
proof fn chain_clipimage(b: Seq<u8>, v: MessageView, p0: int)
    requires
        b == payload_bytes(v),
        v is ClipImage,
        0 <= p0 <= b.len(),
        b.subrange(0, p0) == str_record("type"@, "ClipImage"@),
    ensures
        v matches MessageView::ClipImage { mime: mime_v, width: width_v, height: height_v, bytes_b64: bytes_b64_v, ts_ms: ts_ms_v } ==> {
            let r0 = record_bytes(encode_utf8("mime"@), encode_utf8(mime_v));
            let r1 = record_bytes(encode_utf8("width"@), dec_u64(width_v as u64));
            let r2 = record_bytes(encode_utf8("height"@), dec_u64(height_v as u64));
            let r3 = record_bytes(encode_utf8("bytes_b64"@), encode_utf8(bytes_b64_v));
            let r4 = record_bytes(encode_utf8("ts_ms"@), dec_u64(ts_ms_v));
            &&& record_at(b, p0, encode_utf8("mime"@), encode_utf8(mime_v))
            &&& record_at(b, p0 + r0.len(), encode_utf8("width"@), dec_u64(width_v as u64))
            &&& record_at(b, p0 + r0.len() + r1.len(), encode_utf8("height"@), dec_u64(height_v as u64))
            &&& record_at(b, p0 + r0.len() + r1.len() + r2.len(), encode_utf8("bytes_b64"@), encode_utf8(bytes_b64_v))
            &&& record_at(b, p0 + r0.len() + r1.len() + r2.len() + r3.len(), encode_utf8("ts_ms"@), dec_u64(ts_ms_v))
            &&& p0 + r0.len() + r1.len() + r2.len() + r3.len() + r4.len() == b.len()
        },
{
    match v {
        MessageView::ClipImage { mime: mime_v, width: width_v, height: height_v, bytes_b64: bytes_b64_v, ts_ms: ts_ms_v } => {
            assert(payload_bytes(v) == str_record("type"@, "ClipImage"@) + fields_bytes(v));
            assert(b.subrange(0, b.len() as int) =~= b);
            lemma_chain(b, 0, encode_utf8("type"@), encode_utf8("ClipImage"@), fields_bytes(v));
            assert(b.subrange(p0, b.len() as int) == fields_bytes(v));
            assert(fields_bytes(v) =~= record_bytes(encode_utf8("mime"@), encode_utf8(mime_v)) + (record_bytes(encode_utf8("width"@), dec_u64(width_v as u64)) + record_bytes(encode_utf8("height"@), dec_u64(height_v as u64)) + record_bytes(encode_utf8("bytes_b64"@), encode_utf8(bytes_b64_v)) + record_bytes(encode_utf8("ts_ms"@), dec_u64(ts_ms_v))));
            lemma_chain(b, p0, encode_utf8("mime"@), encode_utf8(mime_v), record_bytes(encode_utf8("width"@), dec_u64(width_v as u64)) + record_bytes(encode_utf8("height"@), dec_u64(height_v as u64)) + record_bytes(encode_utf8("bytes_b64"@), encode_utf8(bytes_b64_v)) + record_bytes(encode_utf8("ts_ms"@), dec_u64(ts_ms_v)));
            assert(b.subrange(p0 + record_bytes(encode_utf8("mime"@), encode_utf8(mime_v)).len(), b.len() as int) == record_bytes(encode_utf8("width"@), dec_u64(width_v as u64)) + record_bytes(encode_utf8("height"@), dec_u64(height_v as u64)) + record_bytes(encode_utf8("bytes_b64"@), encode_utf8(bytes_b64_v)) + record_bytes(encode_utf8("ts_ms"@), dec_u64(ts_ms_v)));
            assert(b.subrange(p0 + record_bytes(encode_utf8("mime"@), encode_utf8(mime_v)).len(), b.len() as int) =~= record_bytes(encode_utf8("width"@), dec_u64(width_v as u64)) + (record_bytes(encode_utf8("height"@), dec_u64(height_v as u64)) + record_bytes(encode_utf8("bytes_b64"@), encode_utf8(bytes_b64_v)) + record_bytes(encode_utf8("ts_ms"@), dec_u64(ts_ms_v))));
            lemma_chain(b, p0 + record_bytes(encode_utf8("mime"@), encode_utf8(mime_v)).len(), encode_utf8("width"@), dec_u64(width_v as u64), record_bytes(encode_utf8("height"@), dec_u64(height_v as u64)) + record_bytes(encode_utf8("bytes_b64"@), encode_utf8(bytes_b64_v)) + record_bytes(encode_utf8("ts_ms"@), dec_u64(ts_ms_v)));
            assert(b.subrange(p0 + record_bytes(encode_utf8("mime"@), encode_utf8(mime_v)).len() + record_bytes(encode_utf8("width"@), dec_u64(width_v as u64)).len(), b.len() as int) == record_bytes(encode_utf8("height"@), dec_u64(height_v as u64)) + record_bytes(encode_utf8("bytes_b64"@), encode_utf8(bytes_b64_v)) + record_bytes(encode_utf8("ts_ms"@), dec_u64(ts_ms_v)));
            assert(b.subrange(p0 + record_bytes(encode_utf8("mime"@), encode_utf8(mime_v)).len() + record_bytes(encode_utf8("width"@), dec_u64(width_v as u64)).len(), b.len() as int) =~= record_bytes(encode_utf8("height"@), dec_u64(height_v as u64)) + (record_bytes(encode_utf8("bytes_b64"@), encode_utf8(bytes_b64_v)) + record_bytes(encode_utf8("ts_ms"@), dec_u64(ts_ms_v))));
            lemma_chain(b, p0 + record_bytes(encode_utf8("mime"@), encode_utf8(mime_v)).len() + record_bytes(encode_utf8("width"@), dec_u64(width_v as u64)).len(), encode_utf8("height"@), dec_u64(height_v as u64), record_bytes(encode_utf8("bytes_b64"@), encode_utf8(bytes_b64_v)) + record_bytes(encode_utf8("ts_ms"@), dec_u64(ts_ms_v)));
            assert(b.subrange(p0 + record_bytes(encode_utf8("mime"@), encode_utf8(mime_v)).len() + record_bytes(encode_utf8("width"@), dec_u64(width_v as u64)).len() + record_bytes(encode_utf8("height"@), dec_u64(height_v as u64)).len(), b.len() as int) == record_bytes(encode_utf8("bytes_b64"@), encode_utf8(bytes_b64_v)) + record_bytes(encode_utf8("ts_ms"@), dec_u64(ts_ms_v)));
            assert(b.subrange(p0 + record_bytes(encode_utf8("mime"@), encode_utf8(mime_v)).len() + record_bytes(encode_utf8("width"@), dec_u64(width_v as u64)).len() + record_bytes(encode_utf8("height"@), dec_u64(height_v as u64)).len(), b.len() as int) =~= record_bytes(encode_utf8("bytes_b64"@), encode_utf8(bytes_b64_v)) + (record_bytes(encode_utf8("ts_ms"@), dec_u64(ts_ms_v))));
            lemma_chain(b, p0 + record_bytes(encode_utf8("mime"@), encode_utf8(mime_v)).len() + record_bytes(encode_utf8("width"@), dec_u64(width_v as u64)).len() + record_bytes(encode_utf8("height"@), dec_u64(height_v as u64)).len(), encode_utf8("bytes_b64"@), encode_utf8(bytes_b64_v), record_bytes(encode_utf8("ts_ms"@), dec_u64(ts_ms_v)));
            assert(b.subrange(p0 + record_bytes(encode_utf8("mime"@), encode_utf8(mime_v)).len() + record_bytes(encode_utf8("width"@), dec_u64(width_v as u64)).len() + record_bytes(encode_utf8("height"@), dec_u64(height_v as u64)).len() + record_bytes(encode_utf8("bytes_b64"@), encode_utf8(bytes_b64_v)).len(), b.len() as int) == record_bytes(encode_utf8("ts_ms"@), dec_u64(ts_ms_v)));
            assert(b.subrange(p0 + record_bytes(encode_utf8("mime"@), encode_utf8(mime_v)).len() + record_bytes(encode_utf8("width"@), dec_u64(width_v as u64)).len() + record_bytes(encode_utf8("height"@), dec_u64(height_v as u64)).len() + record_bytes(encode_utf8("bytes_b64"@), encode_utf8(bytes_b64_v)).len(), b.len() as int) =~= record_bytes(encode_utf8("ts_ms"@), dec_u64(ts_ms_v)) + (Seq::<u8>::empty()));
            lemma_chain(b, p0 + record_bytes(encode_utf8("mime"@), encode_utf8(mime_v)).len() + record_bytes(encode_utf8("width"@), dec_u64(width_v as u64)).len() + record_bytes(encode_utf8("height"@), dec_u64(height_v as u64)).len() + record_bytes(encode_utf8("bytes_b64"@), encode_utf8(bytes_b64_v)).len(), encode_utf8("ts_ms"@), dec_u64(ts_ms_v), Seq::<u8>::empty());
        },
        _ => {},
    }
}

/// Decode the fields of a `ClipImage` payload.
#[verifier::rlimit(100)]
#[verifier::spinoff_prover]
fn decode_clipimage(bytes: &[u8], p0: usize) -> (r: Option<Message>)
    requires
        p0 <= bytes@.len(),
        bytes@.subrange(0, p0 as int) == str_record("type"@, "ClipImage"@),
        forall|v: MessageView| bytes@ == payload_bytes(v) ==> v is ClipImage,
    ensures
        match r {
            Some(m) => bytes@ == payload_bytes(m@) && (forall|v: MessageView|
                bytes@ == payload_bytes(v) ==> v == m@),
            None => forall|v: MessageView| bytes@ != payload_bytes(v),
        },
{
    let blen = bytes.len();
    let ghost b = bytes@;
    proof {
        assert forall|v: MessageView| #![trigger payload_bytes(v)] b == payload_bytes(v) implies (v matches MessageView::ClipImage { mime: mime_v, width: width_v, height: height_v, bytes_b64: bytes_b64_v, ts_ms: ts_ms_v } ==> {
            let r0 = record_bytes(encode_utf8("mime"@), encode_utf8(mime_v));
            let r1 = record_bytes(encode_utf8("width"@), dec_u64(width_v as u64));
            let r2 = record_bytes(encode_utf8("height"@), dec_u64(height_v as u64));
            let r3 = record_bytes(encode_utf8("bytes_b64"@), encode_utf8(bytes_b64_v));
            let r4 = record_bytes(encode_utf8("ts_ms"@), dec_u64(ts_ms_v));
            &&& record_at(b, p0 as int, encode_utf8("mime"@), encode_utf8(mime_v))
            &&& record_at(b, p0 as int + r0.len(), encode_utf8("width"@), dec_u64(width_v as u64))
            &&& record_at(b, p0 as int + r0.len() + r1.len(), encode_utf8("height"@), dec_u64(height_v as u64))
            &&& record_at(b, p0 as int + r0.len() + r1.len() + r2.len(), encode_utf8("bytes_b64"@), encode_utf8(bytes_b64_v))
            &&& record_at(b, p0 as int + r0.len() + r1.len() + r2.len() + r3.len(), encode_utf8("ts_ms"@), dec_u64(ts_ms_v))
            &&& p0 as int + r0.len() + r1.len() + r2.len() + r3.len() + r4.len() == b.len()
        }) by {
            chain_clipimage(b, v, p0 as int);
        }
    }
    let (mime, p1) = match read_str_field(bytes, p0, "mime".as_bytes()) {
        Some(v) => v,
        None => {
            proof {
                assert forall|v: MessageView| b != payload_bytes(v) by {
                    if b == payload_bytes(v) {
                        match v {
                            MessageView::ClipImage { mime: mime_v, width: width_v, height: height_v, bytes_b64: bytes_b64_v, ts_ms: ts_ms_v } => {
                                assert(record_at(b, p0 as int, encode_utf8("mime"@), encode_utf8(mime_v)));
                                assert(false);
                            },
                            _ => {},
                        }
                    }
                }
            }
            return None;
        },
    };
    let (width, p2) = match read_num_field(bytes, p1, "width".as_bytes(), u32::MAX as u64) {
        Some(v) => v,
        None => {
            proof {
                assert forall|v: MessageView| b != payload_bytes(v) by {
                    if b == payload_bytes(v) {
                        match v {
                            MessageView::ClipImage { mime: mime_v, width: width_v, height: height_v, bytes_b64: bytes_b64_v, ts_ms: ts_ms_v } => {
                                assert(record_at(b, p0 as int, encode_utf8("mime"@), encode_utf8(mime_v)));
                                assert(encode_utf8(mime_v) == encode_utf8(mime@));
                                assert(p1 as int == p0 as int + record_bytes(encode_utf8("mime"@), encode_utf8(mime_v)).len());
                                assert(record_at(b, p1 as int, encode_utf8("width"@), dec_u64(width_v as u64)));
                                assert((width_v as u64) <= u32::MAX as u64);
                                assert(false);
                            },
                            _ => {},
                        }
                    }
                }
            }
            return None;
        },
    };
    let (height, p3) = match read_num_field(bytes, p2, "height".as_bytes(), u32::MAX as u64) {
        Some(v) => v,
        None => {
            proof {
                assert forall|v: MessageView| b != payload_bytes(v) by {
                    if b == payload_bytes(v) {
                        match v {
                            MessageView::ClipImage { mime: mime_v, width: width_v, height: height_v, bytes_b64: bytes_b64_v, ts_ms: ts_ms_v } => {
                                assert(record_at(b, p0 as int, encode_utf8("mime"@), encode_utf8(mime_v)));
                                assert(encode_utf8(mime_v) == encode_utf8(mime@));
                                assert(p1 as int == p0 as int + record_bytes(encode_utf8("mime"@), encode_utf8(mime_v)).len());
                                assert(record_at(b, p1 as int, encode_utf8("width"@), dec_u64(width_v as u64)));
                                assert(dec_u64(width_v as u64) == dec_u64(width));
                                assert(p2 as int == p1 as int + record_bytes(encode_utf8("width"@), dec_u64(width_v as u64)).len());
                                assert(record_at(b, p2 as int, encode_utf8("height"@), dec_u64(height_v as u64)));
                                assert((height_v as u64) <= u32::MAX as u64);
                                assert(false);
                            },
                            _ => {},
                        }
                    }
                }
            }
            return None;
        },
    };
    let (bytes_b64, p4) = match read_str_field(bytes, p3, "bytes_b64".as_bytes()) {
        Some(v) => v,
        None => {
            proof {
                assert forall|v: MessageView| b != payload_bytes(v) by {
                    if b == payload_bytes(v) {
                        match v {
                            MessageView::ClipImage { mime: mime_v, width: width_v, height: height_v, bytes_b64: bytes_b64_v, ts_ms: ts_ms_v } => {
                                assert(record_at(b, p0 as int, encode_utf8("mime"@), encode_utf8(mime_v)));
                                assert(encode_utf8(mime_v) == encode_utf8(mime@));
                                assert(p1 as int == p0 as int + record_bytes(encode_utf8("mime"@), encode_utf8(mime_v)).len());
                                assert(record_at(b, p1 as int, encode_utf8("width"@), dec_u64(width_v as u64)));
                                assert(dec_u64(width_v as u64) == dec_u64(width));
                                assert(p2 as int == p1 as int + record_bytes(encode_utf8("width"@), dec_u64(width_v as u64)).len());
                                assert(record_at(b, p2 as int, encode_utf8("height"@), dec_u64(height_v as u64)));
                                assert(dec_u64(height_v as u64) == dec_u64(height));
                                assert(p3 as int == p2 as int + record_bytes(encode_utf8("height"@), dec_u64(height_v as u64)).len());
                                assert(record_at(b, p3 as int, encode_utf8("bytes_b64"@), encode_utf8(bytes_b64_v)));
                                assert(false);
                            },
                            _ => {},
                        }
                    }
                }
            }
            return None;
        },
    };
    let (ts_ms, p5) = match read_num_field(bytes, p4, "ts_ms".as_bytes(), u64::MAX) {
        Some(v) => v,
        None => {
            proof {
                assert forall|v: MessageView| b != payload_bytes(v) by {
                    if b == payload_bytes(v) {
                        match v {
                            MessageView::ClipImage { mime: mime_v, width: width_v, height: height_v, bytes_b64: bytes_b64_v, ts_ms: ts_ms_v } => {
                                assert(record_at(b, p0 as int, encode_utf8("mime"@), encode_utf8(mime_v)));
                                assert(encode_utf8(mime_v) == encode_utf8(mime@));
                                assert(p1 as int == p0 as int + record_bytes(encode_utf8("mime"@), encode_utf8(mime_v)).len());
                                assert(record_at(b, p1 as int, encode_utf8("width"@), dec_u64(width_v as u64)));
                                assert(dec_u64(width_v as u64) == dec_u64(width));
                                assert(p2 as int == p1 as int + record_bytes(encode_utf8("width"@), dec_u64(width_v as u64)).len());
                                assert(record_at(b, p2 as int, encode_utf8("height"@), dec_u64(height_v as u64)));
                                assert(dec_u64(height_v as u64) == dec_u64(height));
                                assert(p3 as int == p2 as int + record_bytes(encode_utf8("height"@), dec_u64(height_v as u64)).len());
                                assert(record_at(b, p3 as int, encode_utf8("bytes_b64"@), encode_utf8(bytes_b64_v)));
                                assert(encode_utf8(bytes_b64_v) == encode_utf8(bytes_b64@));
                                assert(p4 as int == p3 as int + record_bytes(encode_utf8("bytes_b64"@), encode_utf8(bytes_b64_v)).len());
                                assert(record_at(b, p4 as int, encode_utf8("ts_ms"@), dec_u64(ts_ms_v)));
                                assert(false);
                            },
                            _ => {},
                        }
                    }
                }
            }
            return None;
        },
    };
    if p5 == blen {
        let m = Message::ClipImage { mime, width: width as u32, height: height as u32, bytes_b64, ts_ms };
        proof {
            assert((width as u32) as u64 == width);
            assert((height as u32) as u64 == height);
            assert(b == payload_bytes(m@)) by {
                assert(b =~= b.subrange(0, p0 as int) + b.subrange(p0 as int, p1 as int) + b.subrange(p1 as int, p2 as int) + b.subrange(p2 as int, p3 as int) + b.subrange(p3 as int, p4 as int) + b.subrange(p4 as int, p5 as int));
                assert(b.subrange(p0 as int, p1 as int) == record_bytes(encode_utf8("mime"@), encode_utf8(mime@)));
                assert(b.subrange(p1 as int, p2 as int) == record_bytes(encode_utf8("width"@), dec_u64(width)));
                assert(b.subrange(p2 as int, p3 as int) == record_bytes(encode_utf8("height"@), dec_u64(height)));
                assert(b.subrange(p3 as int, p4 as int) == record_bytes(encode_utf8("bytes_b64"@), encode_utf8(bytes_b64@)));
                assert(b.subrange(p4 as int, p5 as int) == record_bytes(encode_utf8("ts_ms"@), dec_u64(ts_ms)));
                assert(payload_bytes(m@) =~= str_record("type"@, "ClipImage"@) + record_bytes(encode_utf8("mime"@), encode_utf8(mime@)) + record_bytes(encode_utf8("width"@), dec_u64(width)) + record_bytes(encode_utf8("height"@), dec_u64(height)) + record_bytes(encode_utf8("bytes_b64"@), encode_utf8(bytes_b64@)) + record_bytes(encode_utf8("ts_ms"@), dec_u64(ts_ms)));
            }
            assert forall|v: MessageView| b == payload_bytes(v) implies v == m@ by {
                match v {
                    MessageView::ClipImage { mime: mime_v, width: width_v, height: height_v, bytes_b64: bytes_b64_v, ts_ms: ts_ms_v } => {
                        assert(record_at(b, p0 as int, encode_utf8("mime"@), encode_utf8(mime_v)));
                        assert(encode_utf8(mime_v) == encode_utf8(mime@));
                        assert(p1 as int == p0 as int + record_bytes(encode_utf8("mime"@), encode_utf8(mime_v)).len());
                        assert(record_at(b, p1 as int, encode_utf8("width"@), dec_u64(width_v as u64)));
                        assert(dec_u64(width_v as u64) == dec_u64(width));
                        assert(p2 as int == p1 as int + record_bytes(encode_utf8("width"@), dec_u64(width_v as u64)).len());
                        assert(record_at(b, p2 as int, encode_utf8("height"@), dec_u64(height_v as u64)));
                        assert(dec_u64(height_v as u64) == dec_u64(height));
                        assert(p3 as int == p2 as int + record_bytes(encode_utf8("height"@), dec_u64(height_v as u64)).len());
                        assert(record_at(b, p3 as int, encode_utf8("bytes_b64"@), encode_utf8(bytes_b64_v)));
                        assert(encode_utf8(bytes_b64_v) == encode_utf8(bytes_b64@));
                        assert(p4 as int == p3 as int + record_bytes(encode_utf8("bytes_b64"@), encode_utf8(bytes_b64_v)).len());
                        assert(record_at(b, p4 as int, encode_utf8("ts_ms"@), dec_u64(ts_ms_v)));
                        assert(dec_u64(ts_ms_v) == dec_u64(ts_ms));
                        assert(p5 as int == p4 as int + record_bytes(encode_utf8("ts_ms"@), dec_u64(ts_ms_v)).len());
                        lemma_encode_utf8_injective(mime_v, mime@);
                        lemma_dec_injective(width_v as u64, width);
                        lemma_dec_injective(height_v as u64, height);
                        lemma_encode_utf8_injective(bytes_b64_v, bytes_b64@);
                        lemma_dec_injective(ts_ms_v, ts_ms);
                        assert(v == m@);
                    },
                    _ => {},
                }
            }
        }
        Some(m)
    } else {
        proof {
            assert forall|v: MessageView| b != payload_bytes(v) by {
                if b == payload_bytes(v) {
                    match v {
                        MessageView::ClipImage { mime: mime_v, width: width_v, height: height_v, bytes_b64: bytes_b64_v, ts_ms: ts_ms_v } => {
                            assert(record_at(b, p0 as int, encode_utf8("mime"@), encode_utf8(mime_v)));
                            assert(encode_utf8(mime_v) == encode_utf8(mime@));
                            assert(p1 as int == p0 as int + record_bytes(encode_utf8("mime"@), encode_utf8(mime_v)).len());
                            assert(record_at(b, p1 as int, encode_utf8("width"@), dec_u64(width_v as u64)));
                            assert(dec_u64(width_v as u64) == dec_u64(width));
                            assert(p2 as int == p1 as int + record_bytes(encode_utf8("width"@), dec_u64(width_v as u64)).len());
                            assert(record_at(b, p2 as int, encode_utf8("height"@), dec_u64(height_v as u64)));
                            assert(dec_u64(height_v as u64) == dec_u64(height));
                            assert(p3 as int == p2 as int + record_bytes(encode_utf8("height"@), dec_u64(height_v as u64)).len());
                            assert(record_at(b, p3 as int, encode_utf8("bytes_b64"@), encode_utf8(bytes_b64_v)));
                            assert(encode_utf8(bytes_b64_v) == encode_utf8(bytes_b64@));
                            assert(p4 as int == p3 as int + record_bytes(encode_utf8("bytes_b64"@), encode_utf8(bytes_b64_v)).len());
                            assert(record_at(b, p4 as int, encode_utf8("ts_ms"@), dec_u64(ts_ms_v)));
                            assert(dec_u64(ts_ms_v) == dec_u64(ts_ms));
                            assert(p5 as int == p4 as int + record_bytes(encode_utf8("ts_ms"@), dec_u64(ts_ms_v)).len());
                            assert(p5 as int == b.len());
                        },
                        _ => {},
                    }
                }
            }
        }
        None
    }
}

/// The records of a `FileOffer` message, laid out at `p0` in `b`.
proof fn chain_fileoffer(b: Seq<u8>, v: MessageView, p0: int)
    requires
        b == payload_bytes(v),
        v is FileOffer,
        0 <= p0 <= b.len(),
        b.subrange(0, p0) == str_record("type"@, "FileOffer"@),
    ensures
        v matches MessageView::FileOffer { file_id: file_id_v, name: name_v, size: size_v, mime: mime_v } ==> {
            let r0 = record_bytes(encode_utf8("file_id"@), encode_utf8(file_id_v));
            let r1 = record_bytes(encode_utf8("name"@), encode_utf8(name_v));
            let r2 = record_bytes(encode_utf8("size"@), dec_u64(size_v));
            let r3 = record_bytes(encode_utf8("mime"@), encode_utf8(mime_v));
            &&& record_at(b, p0, encode_utf8("file_id"@), encode_utf8(file_id_v))
            &&& record_at(b, p0 + r0.len(), encode_utf8("name"@), encode_utf8(name_v))
            &&& record_at(b, p0 + r0.len() + r1.len(), encode_utf8("size"@), dec_u64(size_v))
            &&& record_at(b, p0 + r0.len() + r1.len() + r2.len(), encode_utf8("mime"@), encode_utf8(mime_v))
            &&& p0 + r0.len() + r1.len() + r2.len() + r3.len() == b.len()
        },
{
    match v {
        MessageView::FileOffer { file_id: file_id_v, name: name_v, size: size_v, mime: mime_v } => {
            assert(payload_bytes(v) == str_record("type"@, "FileOffer"@) + fields_bytes(v));
            assert(b.subrange(0, b.len() as int) =~= b);
            lemma_chain(b, 0, encode_utf8("type"@), encode_utf8("FileOffer"@), fields_bytes(v));
            assert(b.subrange(p0, b.len() as int) == fields_bytes(v));
            assert(fields_bytes(v) =~= record_bytes(encode_utf8("file_id"@), encode_utf8(file_id_v)) + (record_bytes(encode_utf8("name"@), encode_utf8(name_v)) + record_bytes(encode_utf8("size"@), dec_u64(size_v)) + record_bytes(encode_utf8("mime"@), encode_utf8(mime_v))));
            lemma_chain(b, p0, encode_utf8("file_id"@), encode_utf8(file_id_v), record_bytes(encode_utf8("name"@), encode_utf8(name_v)) + record_bytes(encode_utf8("size"@), dec_u64(size_v)) + record_bytes(encode_utf8("mime"@), encode_utf8(mime_v)));
            assert(b.subrange(p0 + record_bytes(encode_utf8("file_id"@), encode_utf8(file_id_v)).len(), b.len() as int) == record_bytes(encode_utf8("name"@), encode_utf8(name_v)) + record_bytes(encode_utf8("size"@), dec_u64(size_v)) + record_bytes(encode_utf8("mime"@), encode_utf8(mime_v)));
            assert(b.subrange(p0 + record_bytes(encode_utf8("file_id"@), encode_utf8(file_id_v)).len(), b.len() as int) =~= record_bytes(encode_utf8("name"@), encode_utf8(name_v)) + (record_bytes(encode_utf8("size"@), dec_u64(size_v)) + record_bytes(encode_utf8("mime"@), encode_utf8(mime_v))));
            lemma_chain(b, p0 + record_bytes(encode_utf8("file_id"@), encode_utf8(file_id_v)).len(), encode_utf8("name"@), encode_utf8(name_v), record_bytes(encode_utf8("size"@), dec_u64(size_v)) + record_bytes(encode_utf8("mime"@), encode_utf8(mime_v)));
            assert(b.subrange(p0 + record_bytes(encode_utf8("file_id"@), encode_utf8(file_id_v)).len() + record_bytes(encode_utf8("name"@), encode_utf8(name_v)).len(), b.len() as int) == record_bytes(encode_utf8("size"@), dec_u64(size_v)) + record_bytes(encode_utf8("mime"@), encode_utf8(mime_v)));
            assert(b.subrange(p0 + record_bytes(encode_utf8("file_id"@), encode_utf8(file_id_v)).len() + record_bytes(encode_utf8("name"@), encode_utf8(name_v)).len(), b.len() as int) =~= record_bytes(encode_utf8("size"@), dec_u64(size_v)) + (record_bytes(encode_utf8("mime"@), encode_utf8(mime_v))));
            lemma_chain(b, p0 + record_bytes(encode_utf8("file_id"@), encode_utf8(file_id_v)).len() + record_bytes(encode_utf8("name"@), encode_utf8(name_v)).len(), encode_utf8("size"@), dec_u64(size_v), record_bytes(encode_utf8("mime"@), encode_utf8(mime_v)));
            assert(b.subrange(p0 + record_bytes(encode_utf8("file_id"@), encode_utf8(file_id_v)).len() + record_bytes(encode_utf8("name"@), encode_utf8(name_v)).len() + record_bytes(encode_utf8("size"@), dec_u64(size_v)).len(), b.len() as int) == record_bytes(encode_utf8("mime"@), encode_utf8(mime_v)));
            assert(b.subrange(p0 + record_bytes(encode_utf8("file_id"@), encode_utf8(file_id_v)).len() + record_bytes(encode_utf8("name"@), encode_utf8(name_v)).len() + record_bytes(encode_utf8("size"@), dec_u64(size_v)).len(), b.len() as int) =~= record_bytes(encode_utf8("mime"@), encode_utf8(mime_v)) + (Seq::<u8>::empty()));
            lemma_chain(b, p0 + record_bytes(encode_utf8("file_id"@), encode_utf8(file_id_v)).len() + record_bytes(encode_utf8("name"@), encode_utf8(name_v)).len() + record_bytes(encode_utf8("size"@), dec_u64(size_v)).len(), encode_utf8("mime"@), encode_utf8(mime_v), Seq::<u8>::empty());
        },
        _ => {},
    }
}

/// Decode the fields of a `FileOffer` payload.
#[verifier::rlimit(100)]
#[verifier::spinoff_prover]
fn decode_fileoffer(bytes: &[u8], p0: usize) -> (r: Option<Message>)
    requires
        p0 <= bytes@.len(),
        bytes@.subrange(0, p0 as int) == str_record("type"@, "FileOffer"@),
        forall|v: MessageView| bytes@ == payload_bytes(v) ==> v is FileOffer,
    ensures
        match r {
            Some(m) => bytes@ == payload_bytes(m@) && (forall|v: MessageView|
                bytes@ == payload_bytes(v) ==> v == m@),
            None => forall|v: MessageView| bytes@ != payload_bytes(v),
        },
{
    let blen = bytes.len();
    let ghost b = bytes@;
    proof {
        assert forall|v: MessageView| #![trigger payload_bytes(v)] b == payload_bytes(v) implies (v matches MessageView::FileOffer { file_id: file_id_v, name: name_v, size: size_v, mime: mime_v } ==> {
            let r0 = record_bytes(encode_utf8("file_id"@), encode_utf8(file_id_v));
            let r1 = record_bytes(encode_utf8("name"@), encode_utf8(name_v));
            let r2 = record_bytes(encode_utf8("size"@), dec_u64(size_v));
            let r3 = record_bytes(encode_utf8("mime"@), encode_utf8(mime_v));
            &&& record_at(b, p0 as int, encode_utf8("file_id"@), encode_utf8(file_id_v))
            &&& record_at(b, p0 as int + r0.len(), encode_utf8("name"@), encode_utf8(name_v))
            &&& record_at(b, p0 as int + r0.len() + r1.len(), encode_utf8("size"@), dec_u64(size_v))
            &&& record_at(b, p0 as int + r0.len() + r1.len() + r2.len(), encode_utf8("mime"@), encode_utf8(mime_v))
            &&& p0 as int + r0.len() + r1.len() + r2.len() + r3.len() == b.len()
        }) by {
            chain_fileoffer(b, v, p0 as int);
        }
    }
    let (file_id, p1) = match read_str_field(bytes, p0, "file_id".as_bytes()) {
        Some(v) => v,
        None => {
            proof {
                assert forall|v: MessageView| b != payload_bytes(v) by {
                    if b == payload_bytes(v) {
                        match v {
                            MessageView::FileOffer { file_id: file_id_v, name: name_v, size: size_v, mime: mime_v } => {
                                assert(record_at(b, p0 as int, encode_utf8("file_id"@), encode_utf8(file_id_v)));
                                assert(false);
                            },
                            _ => {},
                        }
                    }
                }
            }
            return None;
        },
    };
    let (name, p2) = match read_str_field(bytes, p1, "name".as_bytes()) {
        Some(v) => v,
        None => {
            proof {
                assert forall|v: MessageView| b != payload_bytes(v) by {
                    if b == payload_bytes(v) {
                        match v {
                            MessageView::FileOffer { file_id: file_id_v, name: name_v, size: size_v, mime: mime_v } => {
                                assert(record_at(b, p0 as int, encode_utf8("file_id"@), encode_utf8(file_id_v)));
                                assert(encode_utf8(file_id_v) == encode_utf8(file_id@));
                                assert(p1 as int == p0 as int + record_bytes(encode_utf8("file_id"@), encode_utf8(file_id_v)).len());
                                assert(record_at(b, p1 as int, encode_utf8("name"@), encode_utf8(name_v)));
                                assert(false);
                            },
                            _ => {},
                        }
                    }
                }
            }
            return None;
        },
    };
    let (size, p3) = match read_num_field(bytes, p2, "size".as_bytes(), u64::MAX) {
        Some(v) => v,
        None => {
            proof {
                assert forall|v: MessageView| b != payload_bytes(v) by {
                    if b == payload_bytes(v) {
                        match v {
                            MessageView::FileOffer { file_id: file_id_v, name: name_v, size: size_v, mime: mime_v } => {
                                assert(record_at(b, p0 as int, encode_utf8("file_id"@), encode_utf8(file_id_v)));
                                assert(encode_utf8(file_id_v) == encode_utf8(file_id@));
                                assert(p1 as int == p0 as int + record_bytes(encode_utf8("file_id"@), encode_utf8(file_id_v)).len());
                                assert(record_at(b, p1 as int, encode_utf8("name"@), encode_utf8(name_v)));
                                assert(encode_utf8(name_v) == encode_utf8(name@));
                                assert(p2 as int == p1 as int + record_bytes(encode_utf8("name"@), encode_utf8(name_v)).len());
                                assert(record_at(b, p2 as int, encode_utf8("size"@), dec_u64(size_v)));
                                assert(false);
                            },
                            _ => {},
                        }
                    }
                }
            }
            return None;
        },
    };
    let (mime, p4) = match read_str_field(bytes, p3, "mime".as_bytes()) {
        Some(v) => v,
        None => {
            proof {
                assert forall|v: MessageView| b != payload_bytes(v) by {
                    if b == payload_bytes(v) {
                        match v {
                            MessageView::FileOffer { file_id: file_id_v, name: name_v, size: size_v, mime: mime_v } => {
                                assert(record_at(b, p0 as int, encode_utf8("file_id"@), encode_utf8(file_id_v)));
                                assert(encode_utf8(file_id_v) == encode_utf8(file_id@));
                                assert(p1 as int == p0 as int + record_bytes(encode_utf8("file_id"@), encode_utf8(file_id_v)).len());
                                assert(record_at(b, p1 as int, encode_utf8("name"@), encode_utf8(name_v)));
                                assert(encode_utf8(name_v) == encode_utf8(name@));
                                assert(p2 as int == p1 as int + record_bytes(encode_utf8("name"@), encode_utf8(name_v)).len());
                                assert(record_at(b, p2 as int, encode_utf8("size"@), dec_u64(size_v)));
                                assert(dec_u64(size_v) == dec_u64(size));
                                assert(p3 as int == p2 as int + record_bytes(encode_utf8("size"@), dec_u64(size_v)).len());
                                assert(record_at(b, p3 as int, encode_utf8("mime"@), encode_utf8(mime_v)));
                                assert(false);
                            },
                            _ => {},
                        }
                    }
                }
            }
            return None;
        },
    };
    if p4 == blen {
        let m = Message::FileOffer { file_id, name, size, mime };
        proof {
            assert(b == payload_bytes(m@)) by {
                assert(b =~= b.subrange(0, p0 as int) + b.subrange(p0 as int, p1 as int) + b.subrange(p1 as int, p2 as int) + b.subrange(p2 as int, p3 as int) + b.subrange(p3 as int, p4 as int));
                assert(b.subrange(p0 as int, p1 as int) == record_bytes(encode_utf8("file_id"@), encode_utf8(file_id@)));
                assert(b.subrange(p1 as int, p2 as int) == record_bytes(encode_utf8("name"@), encode_utf8(name@)));
                assert(b.subrange(p2 as int, p3 as int) == record_bytes(encode_utf8("size"@), dec_u64(size)));
                assert(b.subrange(p3 as int, p4 as int) == record_bytes(encode_utf8("mime"@), encode_utf8(mime@)));
                assert(payload_bytes(m@) =~= str_record("type"@, "FileOffer"@) + record_bytes(encode_utf8("file_id"@), encode_utf8(file_id@)) + record_bytes(encode_utf8("name"@), encode_utf8(name@)) + record_bytes(encode_utf8("size"@), dec_u64(size)) + record_bytes(encode_utf8("mime"@), encode_utf8(mime@)));
            }
            assert forall|v: MessageView| b == payload_bytes(v) implies v == m@ by {
                match v {
                    MessageView::FileOffer { file_id: file_id_v, name: name_v, size: size_v, mime: mime_v } => {
                        assert(record_at(b, p0 as int, encode_utf8("file_id"@), encode_utf8(file_id_v)));
                        assert(encode_utf8(file_id_v) == encode_utf8(file_id@));
                        assert(p1 as int == p0 as int + record_bytes(encode_utf8("file_id"@), encode_utf8(file_id_v)).len());
                        assert(record_at(b, p1 as int, encode_utf8("name"@), encode_utf8(name_v)));
                        assert(encode_utf8(name_v) == encode_utf8(name@));
                        assert(p2 as int == p1 as int + record_bytes(encode_utf8("name"@), encode_utf8(name_v)).len());
                        assert(record_at(b, p2 as int, encode_utf8("size"@), dec_u64(size_v)));
                        assert(dec_u64(size_v) == dec_u64(size));
                        assert(p3 as int == p2 as int + record_bytes(encode_utf8("size"@), dec_u64(size_v)).len());
                        assert(record_at(b, p3 as int, encode_utf8("mime"@), encode_utf8(mime_v)));
                        assert(encode_utf8(mime_v) == encode_utf8(mime@));
                        assert(p4 as int == p3 as int + record_bytes(encode_utf8("mime"@), encode_utf8(mime_v)).len());
                        lemma_encode_utf8_injective(file_id_v, file_id@);
                        lemma_encode_utf8_injective(name_v, name@);
                        lemma_dec_injective(size_v, size);
                        lemma_encode_utf8_injective(mime_v, mime@);
                        assert(v == m@);
                    },
                    _ => {},
                }
            }
        }
        Some(m)
    } else {
        proof {
            assert forall|v: MessageView| b != payload_bytes(v) by {
                if b == payload_bytes(v) {
                    match v {
                        MessageView::FileOffer { file_id: file_id_v, name: name_v, size: size_v, mime: mime_v } => {
                            assert(record_at(b, p0 as int, encode_utf8("file_id"@), encode_utf8(file_id_v)));
                            assert(encode_utf8(file_id_v) == encode_utf8(file_id@));
                            assert(p1 as int == p0 as int + record_bytes(encode_utf8("file_id"@), encode_utf8(file_id_v)).len());
                            assert(record_at(b, p1 as int, encode_utf8("name"@), encode_utf8(name_v)));
                            assert(encode_utf8(name_v) == encode_utf8(name@));
                            assert(p2 as int == p1 as int + record_bytes(encode_utf8("name"@), encode_utf8(name_v)).len());
                            assert(record_at(b, p2 as int, encode_utf8("size"@), dec_u64(size_v)));
                            assert(dec_u64(size_v) == dec_u64(size));
                            assert(p3 as int == p2 as int + record_bytes(encode_utf8("size"@), dec_u64(size_v)).len());
                            assert(record_at(b, p3 as int, encode_utf8("mime"@), encode_utf8(mime_v)));
                            assert(encode_utf8(mime_v) == encode_utf8(mime@));
                            assert(p4 as int == p3 as int + record_bytes(encode_utf8("mime"@), encode_utf8(mime_v)).len());
                            assert(p4 as int == b.len());
                        },
                        _ => {},
                    }
                }
            }
        }
        None
    }
}

/// The records of a `FileAccept` message, laid out at `p0` in `b`.
proof fn chain_fileaccept(b: Seq<u8>, v: MessageView, p0: int)
    requires
        b == payload_bytes(v),
        v is FileAccept,
        0 <= p0 <= b.len(),
        b.subrange(0, p0) == str_record("type"@, "FileAccept"@),
    ensures
        v matches MessageView::FileAccept { file_id: file_id_v } ==> {
            let r0 = record_bytes(encode_utf8("file_id"@), encode_utf8(file_id_v));
            &&& record_at(b, p0, encode_utf8("file_id"@), encode_utf8(file_id_v))
            &&& p0 + r0.len() == b.len()
        },
{
    match v {
        MessageView::FileAccept { file_id: file_id_v } => {
            assert(payload_bytes(v) == str_record("type"@, "FileAccept"@) + fields_bytes(v));
            assert(b.subrange(0, b.len() as int) =~= b);
            lemma_chain(b, 0, encode_utf8("type"@), encode_utf8("FileAccept"@), fields_bytes(v));
            assert(b.subrange(p0, b.len() as int) == fields_bytes(v));
            assert(fields_bytes(v) =~= record_bytes(encode_utf8("file_id"@), encode_utf8(file_id_v)) + (Seq::<u8>::empty()));
            lemma_chain(b, p0, encode_utf8("file_id"@), encode_utf8(file_id_v), Seq::<u8>::empty());
        },
        _ => {},
    }
}

/// Decode the fields of a `FileAccept` payload.
fn decode_fileaccept(bytes: &[u8], p0: usize) -> (r: Option<Message>)
    requires
        p0 <= bytes@.len(),
        bytes@.subrange(0, p0 as int) == str_record("type"@, "FileAccept"@),
        forall|v: MessageView| bytes@ == payload_bytes(v) ==> v is FileAccept,
    ensures
        match r {
            Some(m) => bytes@ == payload_bytes(m@) && (forall|v: MessageView|
                bytes@ == payload_bytes(v) ==> v == m@),
            None => forall|v: MessageView| bytes@ != payload_bytes(v),
        },
{
    let blen = bytes.len();
    let ghost b = bytes@;
    proof {
        assert forall|v: MessageView| #![trigger payload_bytes(v)] b == payload_bytes(v) implies (v matches MessageView::FileAccept { file_id: file_id_v } ==> {
            let r0 = record_bytes(encode_utf8("file_id"@), encode_utf8(file_id_v));
            &&& record_at(b, p0 as int, encode_utf8("file_id"@), encode_utf8(file_id_v))
            &&& p0 as int + r0.len() == b.len()
        }) by {
            chain_fileaccept(b, v, p0 as int);
        }
    }
    let (file_id, p1) = match read_str_field(bytes, p0, "file_id".as_bytes()) {
        Some(v) => v,
        None => {
            proof {
                assert forall|v: MessageView| b != payload_bytes(v) by {
                    if b == payload_bytes(v) {
                        match v {
                            MessageView::FileAccept { file_id: file_id_v } => {
                                assert(record_at(b, p0 as int, encode_utf8("file_id"@), encode_utf8(file_id_v)));
                                assert(false);
                            },
                            _ => {},
                        }
                    }
                }
            }
            return None;
        },
    };
    if p1 == blen {
        let m = Message::FileAccept { file_id };
        proof {
            assert(b == payload_bytes(m@)) by {
                assert(b =~= b.subrange(0, p0 as int) + b.subrange(p0 as int, p1 as int));
                assert(b.subrange(p0 as int, p1 as int) == record_bytes(encode_utf8("file_id"@), encode_utf8(file_id@)));
                assert(payload_bytes(m@) =~= str_record("type"@, "FileAccept"@) + record_bytes(encode_utf8("file_id"@), encode_utf8(file_id@)));
            }
            assert forall|v: MessageView| b == payload_bytes(v) implies v == m@ by {
                match v {
                    MessageView::FileAccept { file_id: file_id_v } => {
                        assert(record_at(b, p0 as int, encode_utf8("file_id"@), encode_utf8(file_id_v)));
                        assert(encode_utf8(file_id_v) == encode_utf8(file_id@));
                        assert(p1 as int == p0 as int + record_bytes(encode_utf8("file_id"@), encode_utf8(file_id_v)).len());
                        lemma_encode_utf8_injective(file_id_v, file_id@);
                        assert(v == m@);
                    },
                    _ => {},
                }
            }
        }
        Some(m)
    } else {
        proof {
            assert forall|v: MessageView| b != payload_bytes(v) by {
                if b == payload_bytes(v) {
                    match v {
                        MessageView::FileAccept { file_id: file_id_v } => {
                            assert(record_at(b, p0 as int, encode_utf8("file_id"@), encode_utf8(file_id_v)));
                            assert(encode_utf8(file_id_v) == encode_utf8(file_id@));
                            assert(p1 as int == p0 as int + record_bytes(encode_utf8("file_id"@), encode_utf8(file_id_v)).len());
                            assert(p1 as int == b.len());
                        },
                        _ => {},
                    }
                }
            }
        }
        None
    }
}

/// The records of a `FileReject` message, laid out at `p0` in `b`.
proof fn chain_filereject(b: Seq<u8>, v: MessageView, p0: int)
    requires
        b == payload_bytes(v),
        v is FileReject,
        0 <= p0 <= b.len(),
        b.subrange(0, p0) == str_record("type"@, "FileReject"@),
    ensures
        v matches MessageView::FileReject { file_id: file_id_v, reason: reason_v } ==> {
            let r0 = record_bytes(encode_utf8("file_id"@), encode_utf8(file_id_v));
            let r1 = record_bytes(encode_utf8("reason"@), encode_utf8(reason_v));
            &&& record_at(b, p0, encode_utf8("file_id"@), encode_utf8(file_id_v))
            &&& record_at(b, p0 + r0.len(), encode_utf8("reason"@), encode_utf8(reason_v))
            &&& p0 + r0.len() + r1.len() == b.len()
        },
{
    match v {
        MessageView::FileReject { file_id: file_id_v, reason: reason_v } => {
            assert(payload_bytes(v) == str_record("type"@, "FileReject"@) + fields_bytes(v));
            assert(b.subrange(0, b.len() as int) =~= b);
            lemma_chain(b, 0, encode_utf8("type"@), encode_utf8("FileReject"@), fields_bytes(v));
            assert(b.subrange(p0, b.len() as int) == fields_bytes(v));
            assert(fields_bytes(v) =~= record_bytes(encode_utf8("file_id"@), encode_utf8(file_id_v)) + (record_bytes(encode_utf8("reason"@), encode_utf8(reason_v))));
            lemma_chain(b, p0, encode_utf8("file_id"@), encode_utf8(file_id_v), record_bytes(encode_utf8("reason"@), encode_utf8(reason_v)));
            assert(b.subrange(p0 + record_bytes(encode_utf8("file_id"@), encode_utf8(file_id_v)).len(), b.len() as int) == record_bytes(encode_utf8("reason"@), encode_utf8(reason_v)));
            assert(b.subrange(p0 + record_bytes(encode_utf8("file_id"@), encode_utf8(file_id_v)).len(), b.len() as int) =~= record_bytes(encode_utf8("reason"@), encode_utf8(reason_v)) + (Seq::<u8>::empty()));
            lemma_chain(b, p0 + record_bytes(encode_utf8("file_id"@), encode_utf8(file_id_v)).len(), encode_utf8("reason"@), encode_utf8(reason_v), Seq::<u8>::empty());
        },
        _ => {},
    }
}

/// Decode the fields of a `FileReject` payload.
fn decode_filereject(bytes: &[u8], p0: usize) -> (r: Option<Message>)
    requires
        p0 <= bytes@.len(),
        bytes@.subrange(0, p0 as int) == str_record("type"@, "FileReject"@),
        forall|v: MessageView| bytes@ == payload_bytes(v) ==> v is FileReject,
    ensures
        match r {
            Some(m) => bytes@ == payload_bytes(m@) && (forall|v: MessageView|
                bytes@ == payload_bytes(v) ==> v == m@),
            None => forall|v: MessageView| bytes@ != payload_bytes(v),
        },
{
    let blen = bytes.len();
    let ghost b = bytes@;
    proof {
        assert forall|v: MessageView| #![trigger payload_bytes(v)] b == payload_bytes(v) implies (v matches MessageView::FileReject { file_id: file_id_v, reason: reason_v } ==> {
            let r0 = record_bytes(encode_utf8("file_id"@), encode_utf8(file_id_v));
            let r1 = record_bytes(encode_utf8("reason"@), encode_utf8(reason_v));
            &&& record_at(b, p0 as int, encode_utf8("file_id"@), encode_utf8(file_id_v))
            &&& record_at(b, p0 as int + r0.len(), encode_utf8("reason"@), encode_utf8(reason_v))
            &&& p0 as int + r0.len() + r1.len() == b.len()
        }) by {
            chain_filereject(b, v, p0 as int);
        }
    }
    let (file_id, p1) = match read_str_field(bytes, p0, "file_id".as_bytes()) {
        Some(v) => v,
        None => {
            proof {
                assert forall|v: MessageView| b != payload_bytes(v) by {
                    if b == payload_bytes(v) {
                        match v {
                            MessageView::FileReject { file_id: file_id_v, reason: reason_v } => {
                                assert(record_at(b, p0 as int, encode_utf8("file_id"@), encode_utf8(file_id_v)));
                                assert(false);
                            },
                            _ => {},
                        }
                    }
                }
            }
            return None;
        },
    };
    let (reason, p2) = match read_str_field(bytes, p1, "reason".as_bytes()) {
        Some(v) => v,
        None => {
            proof {
                assert forall|v: MessageView| b != payload_bytes(v) by {
                    if b == payload_bytes(v) {
                        match v {
                            MessageView::FileReject { file_id: file_id_v, reason: reason_v } => {
                                assert(record_at(b, p0 as int, encode_utf8("file_id"@), encode_utf8(file_id_v)));
                                assert(encode_utf8(file_id_v) == encode_utf8(file_id@));
                                assert(p1 as int == p0 as int + record_bytes(encode_utf8("file_id"@), encode_utf8(file_id_v)).len());
                                assert(record_at(b, p1 as int, encode_utf8("reason"@), encode_utf8(reason_v)));
                                assert(false);
                            },
                            _ => {},
                        }
                    }
                }
            }
            return None;
        },
    };
    if p2 == blen {
        let m = Message::FileReject { file_id, reason };
        proof {
            assert(b == payload_bytes(m@)) by {
                assert(b =~= b.subrange(0, p0 as int) + b.subrange(p0 as int, p1 as int) + b.subrange(p1 as int, p2 as int));
                assert(b.subrange(p0 as int, p1 as int) == record_bytes(encode_utf8("file_id"@), encode_utf8(file_id@)));
                assert(b.subrange(p1 as int, p2 as int) == record_bytes(encode_utf8("reason"@), encode_utf8(reason@)));
                assert(payload_bytes(m@) =~= str_record("type"@, "FileReject"@) + record_bytes(encode_utf8("file_id"@), encode_utf8(file_id@)) + record_bytes(encode_utf8("reason"@), encode_utf8(reason@)));
            }
            assert forall|v: MessageView| b == payload_bytes(v) implies v == m@ by {
                match v {
                    MessageView::FileReject { file_id: file_id_v, reason: reason_v } => {
                        assert(record_at(b, p0 as int, encode_utf8("file_id"@), encode_utf8(file_id_v)));
                        assert(encode_utf8(file_id_v) == encode_utf8(file_id@));
                        assert(p1 as int == p0 as int + record_bytes(encode_utf8("file_id"@), encode_utf8(file_id_v)).len());
                        assert(record_at(b, p1 as int, encode_utf8("reason"@), encode_utf8(reason_v)));
                        assert(encode_utf8(reason_v) == encode_utf8(reason@));
                        assert(p2 as int == p1 as int + record_bytes(encode_utf8("reason"@), encode_utf8(reason_v)).len());
                        lemma_encode_utf8_injective(file_id_v, file_id@);
                        lemma_encode_utf8_injective(reason_v, reason@);
                        assert(v == m@);
                    },
                    _ => {},
                }
            }
        }
        Some(m)
    } else {
        proof {
            assert forall|v: MessageView| b != payload_bytes(v) by {
                if b == payload_bytes(v) {
                    match v {
                        MessageView::FileReject { file_id: file_id_v, reason: reason_v } => {
                            assert(record_at(b, p0 as int, encode_utf8("file_id"@), encode_utf8(file_id_v)));
                            assert(encode_utf8(file_id_v) == encode_utf8(file_id@));
                            assert(p1 as int == p0 as int + record_bytes(encode_utf8("file_id"@), encode_utf8(file_id_v)).len());
                            assert(record_at(b, p1 as int, encode_utf8("reason"@), encode_utf8(reason_v)));
                            assert(encode_utf8(reason_v) == encode_utf8(reason@));
                            assert(p2 as int == p1 as int + record_bytes(encode_utf8("reason"@), encode_utf8(reason_v)).len());
                            assert(p2 as int == b.len());
                        },
                        _ => {},
                    }
                }
            }
        }
        None
    }
}

/// The records of a `FileChunk` message, laid out at `p0` in `b`.
proof fn chain_filechunk(b: Seq<u8>, v: MessageView, p0: int)
    requires
        b == payload_bytes(v),
        v is FileChunk,
        0 <= p0 <= b.len(),
        b.subrange(0, p0) == str_record("type"@, "FileChunk"@),
    ensures
        v matches MessageView::FileChunk { file_id: file_id_v, offset: offset_v, data_b64: data_b64_v } ==> {
            let r0 = record_bytes(encode_utf8("file_id"@), encode_utf8(file_id_v));
            let r1 = record_bytes(encode_utf8("offset"@), dec_u64(offset_v));
            let r2 = record_bytes(encode_utf8("data_b64"@), encode_utf8(data_b64_v));
            &&& record_at(b, p0, encode_utf8("file_id"@), encode_utf8(file_id_v))
            &&& record_at(b, p0 + r0.len(), encode_utf8("offset"@), dec_u64(offset_v))
            &&& record_at(b, p0 + r0.len() + r1.len(), encode_utf8("data_b64"@), encode_utf8(data_b64_v))
            &&& p0 + r0.len() + r1.len() + r2.len() == b.len()
        },
{
    match v {
        MessageView::FileChunk { file_id: file_id_v, offset: offset_v, data_b64: data_b64_v } => {
            assert(payload_bytes(v) == str_record("type"@, "FileChunk"@) + fields_bytes(v));
            assert(b.subrange(0, b.len() as int) =~= b);
            lemma_chain(b, 0, encode_utf8("type"@), encode_utf8("FileChunk"@), fields_bytes(v));
            assert(b.subrange(p0, b.len() as int) == fields_bytes(v));
            assert(fields_bytes(v) =~= record_bytes(encode_utf8("file_id"@), encode_utf8(file_id_v)) + (record_bytes(encode_utf8("offset"@), dec_u64(offset_v)) + record_bytes(encode_utf8("data_b64"@), encode_utf8(data_b64_v))));
            lemma_chain(b, p0, encode_utf8("file_id"@), encode_utf8(file_id_v), record_bytes(encode_utf8("offset"@), dec_u64(offset_v)) + record_bytes(encode_utf8("data_b64"@), encode_utf8(data_b64_v)));
            assert(b.subrange(p0 + record_bytes(encode_utf8("file_id"@), encode_utf8(file_id_v)).len(), b.len() as int) == record_bytes(encode_utf8("offset"@), dec_u64(offset_v)) + record_bytes(encode_utf8("data_b64"@), encode_utf8(data_b64_v)));
            assert(b.subrange(p0 + record_bytes(encode_utf8("file_id"@), encode_utf8(file_id_v)).len(), b.len() as int) =~= record_bytes(encode_utf8("offset"@), dec_u64(offset_v)) + (record_bytes(encode_utf8("data_b64"@), encode_utf8(data_b64_v))));
            lemma_chain(b, p0 + record_bytes(encode_utf8("file_id"@), encode_utf8(file_id_v)).len(), encode_utf8("offset"@), dec_u64(offset_v), record_bytes(encode_utf8("data_b64"@), encode_utf8(data_b64_v)));
            assert(b.subrange(p0 + record_bytes(encode_utf8("file_id"@), encode_utf8(file_id_v)).len() + record_bytes(encode_utf8("offset"@), dec_u64(offset_v)).len(), b.len() as int) == record_bytes(encode_utf8("data_b64"@), encode_utf8(data_b64_v)));
            assert(b.subrange(p0 + record_bytes(encode_utf8("file_id"@), encode_utf8(file_id_v)).len() + record_bytes(encode_utf8("offset"@), dec_u64(offset_v)).len(), b.len() as int) =~= record_bytes(encode_utf8("data_b64"@), encode_utf8(data_b64_v)) + (Seq::<u8>::empty()));
            lemma_chain(b, p0 + record_bytes(encode_utf8("file_id"@), encode_utf8(file_id_v)).len() + record_bytes(encode_utf8("offset"@), dec_u64(offset_v)).len(), encode_utf8("data_b64"@), encode_utf8(data_b64_v), Seq::<u8>::empty());
        },
        _ => {},
    }
}

/// Decode the fields of a `FileChunk` payload.
#[verifier::rlimit(100)]
#[verifier::spinoff_prover]
fn decode_filechunk(bytes: &[u8], p0: usize) -> (r: Option<Message>)
    requires
        p0 <= bytes@.len(),
        bytes@.subrange(0, p0 as int) == str_record("type"@, "FileChunk"@),
        forall|v: MessageView| bytes@ == payload_bytes(v) ==> v is FileChunk,
    ensures
        match r {
            Some(m) => bytes@ == payload_bytes(m@) && (forall|v: MessageView|
                bytes@ == payload_bytes(v) ==> v == m@),
            None => forall|v: MessageView| bytes@ != payload_bytes(v),
        },
{
    let blen = bytes.len();
    let ghost b = bytes@;
    proof {
        assert forall|v: MessageView| #![trigger payload_bytes(v)] b == payload_bytes(v) implies (v matches MessageView::FileChunk { file_id: file_id_v, offset: offset_v, data_b64: data_b64_v } ==> {
            let r0 = record_bytes(encode_utf8("file_id"@), encode_utf8(file_id_v));
            let r1 = record_bytes(encode_utf8("offset"@), dec_u64(offset_v));
            let r2 = record_bytes(encode_utf8("data_b64"@), encode_utf8(data_b64_v));
            &&& record_at(b, p0 as int, encode_utf8("file_id"@), encode_utf8(file_id_v))
            &&& record_at(b, p0 as int + r0.len(), encode_utf8("offset"@), dec_u64(offset_v))
            &&& record_at(b, p0 as int + r0.len() + r1.len(), encode_utf8("data_b64"@), encode_utf8(data_b64_v))
            &&& p0 as int + r0.len() + r1.len() + r2.len() == b.len()
        }) by {
            chain_filechunk(b, v, p0 as int);
        }
    }
    let (file_id, p1) = match read_str_field(bytes, p0, "file_id".as_bytes()) {
        Some(v) => v,
        None => {
            proof {
                assert forall|v: MessageView| b != payload_bytes(v) by {
                    if b == payload_bytes(v) {
                        match v {
                            MessageView::FileChunk { file_id: file_id_v, offset: offset_v, data_b64: data_b64_v } => {
                                assert(record_at(b, p0 as int, encode_utf8("file_id"@), encode_utf8(file_id_v)));
                                assert(false);
                            },
                            _ => {},
                        }
                    }
                }
            }
            return None;
        },
    };
    let (offset, p2) = match read_num_field(bytes, p1, "offset".as_bytes(), u64::MAX) {
        Some(v) => v,
        None => {
            proof {
                assert forall|v: MessageView| b != payload_bytes(v) by {
                    if b == payload_bytes(v) {
                        match v {
                            MessageView::FileChunk { file_id: file_id_v, offset: offset_v, data_b64: data_b64_v } => {
                                assert(record_at(b, p0 as int, encode_utf8("file_id"@), encode_utf8(file_id_v)));
                                assert(encode_utf8(file_id_v) == encode_utf8(file_id@));
                                assert(p1 as int == p0 as int + record_bytes(encode_utf8("file_id"@), encode_utf8(file_id_v)).len());
                                assert(record_at(b, p1 as int, encode_utf8("offset"@), dec_u64(offset_v)));
                                assert(false);
                            },
                            _ => {},
                        }
                    }
                }
            }
            return None;
        },
    };
    let (data_b64, p3) = match read_str_field(bytes, p2, "data_b64".as_bytes()) {
        Some(v) => v,
        None => {
            proof {
                assert forall|v: MessageView| b != payload_bytes(v) by {
                    if b == payload_bytes(v) {
                        match v {
                            MessageView::FileChunk { file_id: file_id_v, offset: offset_v, data_b64: data_b64_v } => {
                                assert(record_at(b, p0 as int, encode_utf8("file_id"@), encode_utf8(file_id_v)));
                                assert(encode_utf8(file_id_v) == encode_utf8(file_id@));
                                assert(p1 as int == p0 as int + record_bytes(encode_utf8("file_id"@), encode_utf8(file_id_v)).len());
                                assert(record_at(b, p1 as int, encode_utf8("offset"@), dec_u64(offset_v)));
                                assert(dec_u64(offset_v) == dec_u64(offset));
                                assert(p2 as int == p1 as int + record_bytes(encode_utf8("offset"@), dec_u64(offset_v)).len());
                                assert(record_at(b, p2 as int, encode_utf8("data_b64"@), encode_utf8(data_b64_v)));
                                assert(false);
                            },
                            _ => {},
                        }
                    }
                }
            }
            return None;
        },
    };
    if p3 == blen {
        let m = Message::FileChunk { file_id, offset, data_b64 };
        proof {
            assert(b == payload_bytes(m@)) by {
                assert(b =~= b.subrange(0, p0 as int) + b.subrange(p0 as int, p1 as int) + b.subrange(p1 as int, p2 as int) + b.subrange(p2 as int, p3 as int));
                assert(b.subrange(p0 as int, p1 as int) == record_bytes(encode_utf8("file_id"@), encode_utf8(file_id@)));
                assert(b.subrange(p1 as int, p2 as int) == record_bytes(encode_utf8("offset"@), dec_u64(offset)));
                assert(b.subrange(p2 as int, p3 as int) == record_bytes(encode_utf8("data_b64"@), encode_utf8(data_b64@)));
                assert(payload_bytes(m@) =~= str_record("type"@, "FileChunk"@) + record_bytes(encode_utf8("file_id"@), encode_utf8(file_id@)) + record_bytes(encode_utf8("offset"@), dec_u64(offset)) + record_bytes(encode_utf8("data_b64"@), encode_utf8(data_b64@)));
            }
            assert forall|v: MessageView| b == payload_bytes(v) implies v == m@ by {
                match v {
                    MessageView::FileChunk { file_id: file_id_v, offset: offset_v, data_b64: data_b64_v } => {
                        assert(record_at(b, p0 as int, encode_utf8("file_id"@), encode_utf8(file_id_v)));
                        assert(encode_utf8(file_id_v) == encode_utf8(file_id@));
                        assert(p1 as int == p0 as int + record_bytes(encode_utf8("file_id"@), encode_utf8(file_id_v)).len());
                        assert(record_at(b, p1 as int, encode_utf8("offset"@), dec_u64(offset_v)));
                        assert(dec_u64(offset_v) == dec_u64(offset));
                        assert(p2 as int == p1 as int + record_bytes(encode_utf8("offset"@), dec_u64(offset_v)).len());
                        assert(record_at(b, p2 as int, encode_utf8("data_b64"@), encode_utf8(data_b64_v)));
                        assert(encode_utf8(data_b64_v) == encode_utf8(data_b64@));
                        assert(p3 as int == p2 as int + record_bytes(encode_utf8("data_b64"@), encode_utf8(data_b64_v)).len());
                        lemma_encode_utf8_injective(file_id_v, file_id@);
                        lemma_dec_injective(offset_v, offset);
                        lemma_encode_utf8_injective(data_b64_v, data_b64@);
                        assert(v == m@);
                    },
                    _ => {},
                }
            }
        }
        Some(m)
    } else {
        proof {
            assert forall|v: MessageView| b != payload_bytes(v) by {
                if b == payload_bytes(v) {
                    match v {
                        MessageView::FileChunk { file_id: file_id_v, offset: offset_v, data_b64: data_b64_v } => {
                            assert(record_at(b, p0 as int, encode_utf8("file_id"@), encode_utf8(file_id_v)));
                            assert(encode_utf8(file_id_v) == encode_utf8(file_id@));
                            assert(p1 as int == p0 as int + record_bytes(encode_utf8("file_id"@), encode_utf8(file_id_v)).len());
                            assert(record_at(b, p1 as int, encode_utf8("offset"@), dec_u64(offset_v)));
                            assert(dec_u64(offset_v) == dec_u64(offset));
                            assert(p2 as int == p1 as int + record_bytes(encode_utf8("offset"@), dec_u64(offset_v)).len());
                            assert(record_at(b, p2 as int, encode_utf8("data_b64"@), encode_utf8(data_b64_v)));
                            assert(encode_utf8(data_b64_v) == encode_utf8(data_b64@));
                            assert(p3 as int == p2 as int + record_bytes(encode_utf8("data_b64"@), encode_utf8(data_b64_v)).len());
                            assert(p3 as int == b.len());
                        },
                        _ => {},
                    }
                }
            }
        }
        None
    }
}

/// The records of a `FileDone` message, laid out at `p0` in `b`.
proof fn chain_filedone(b: Seq<u8>, v: MessageView, p0: int)
    requires
        b == payload_bytes(v),
        v is FileDone,
        0 <= p0 <= b.len(),
        b.subrange(0, p0) == str_record("type"@, "FileDone"@),
    ensures
        v matches MessageView::FileDone { file_id: file_id_v, hash: hash_v } ==> {
            let r0 = record_bytes(encode_utf8("file_id"@), encode_utf8(file_id_v));
            let r1 = record_bytes(encode_utf8("hash"@), encode_utf8(hash_v));
            &&& record_at(b, p0, encode_utf8("file_id"@), encode_utf8(file_id_v))
            &&& record_at(b, p0 + r0.len(), encode_utf8("hash"@), encode_utf8(hash_v))
            &&& p0 + r0.len() + r1.len() == b.len()
        },
{
    match v {
        MessageView::FileDone { file_id: file_id_v, hash: hash_v } => {
            assert(payload_bytes(v) == str_record("type"@, "FileDone"@) + fields_bytes(v));
            assert(b.subrange(0, b.len() as int) =~= b);
            lemma_chain(b, 0, encode_utf8("type"@), encode_utf8("FileDone"@), fields_bytes(v));
            assert(b.subrange(p0, b.len() as int) == fields_bytes(v));
            assert(fields_bytes(v) =~= record_bytes(encode_utf8("file_id"@), encode_utf8(file_id_v)) + (record_bytes(encode_utf8("hash"@), encode_utf8(hash_v))));
            lemma_chain(b, p0, encode_utf8("file_id"@), encode_utf8(file_id_v), record_bytes(encode_utf8("hash"@), encode_utf8(hash_v)));
            assert(b.subrange(p0 + record_bytes(encode_utf8("file_id"@), encode_utf8(file_id_v)).len(), b.len() as int) == record_bytes(encode_utf8("hash"@), encode_utf8(hash_v)));
            assert(b.subrange(p0 + record_bytes(encode_utf8("file_id"@), encode_utf8(file_id_v)).len(), b.len() as int) =~= record_bytes(encode_utf8("hash"@), encode_utf8(hash_v)) + (Seq::<u8>::empty()));
            lemma_chain(b, p0 + record_bytes(encode_utf8("file_id"@), encode_utf8(file_id_v)).len(), encode_utf8("hash"@), encode_utf8(hash_v), Seq::<u8>::empty());
        },
        _ => {},
    }
}

/// Decode the fields of a `FileDone` payload.
fn decode_filedone(bytes: &[u8], p0: usize) -> (r: Option<Message>)
    requires
        p0 <= bytes@.len(),
        bytes@.subrange(0, p0 as int) == str_record("type"@, "FileDone"@),
        forall|v: MessageView| bytes@ == payload_bytes(v) ==> v is FileDone,
    ensures
        match r {
            Some(m) => bytes@ == payload_bytes(m@) && (forall|v: MessageView|
                bytes@ == payload_bytes(v) ==> v == m@),
            None => forall|v: MessageView| bytes@ != payload_bytes(v),
        },
{
    let blen = bytes.len();
    let ghost b = bytes@;
    proof {
        assert forall|v: MessageView| #![trigger payload_bytes(v)] b == payload_bytes(v) implies (v matches MessageView::FileDone { file_id: file_id_v, hash: hash_v } ==> {
            let r0 = record_bytes(encode_utf8("file_id"@), encode_utf8(file_id_v));
            let r1 = record_bytes(encode_utf8("hash"@), encode_utf8(hash_v));
            &&& record_at(b, p0 as int, encode_utf8("file_id"@), encode_utf8(file_id_v))
            &&& record_at(b, p0 as int + r0.len(), encode_utf8("hash"@), encode_utf8(hash_v))
            &&& p0 as int + r0.len() + r1.len() == b.len()
        }) by {
            chain_filedone(b, v, p0 as int);
        }
    }
    let (file_id, p1) = match read_str_field(bytes, p0, "file_id".as_bytes()) {
        Some(v) => v,
        None => {
            proof {
                assert forall|v: MessageView| b != payload_bytes(v) by {
                    if b == payload_bytes(v) {
                        match v {
                            MessageView::FileDone { file_id: file_id_v, hash: hash_v } => {
                                assert(record_at(b, p0 as int, encode_utf8("file_id"@), encode_utf8(file_id_v)));
                                assert(false);
                            },
                            _ => {},
                        }
                    }
                }
            }
            return None;
        },
    };
    let (hash, p2) = match read_str_field(bytes, p1, "hash".as_bytes()) {
        Some(v) => v,
        None => {
            proof {
                assert forall|v: MessageView| b != payload_bytes(v) by {
                    if b == payload_bytes(v) {
                        match v {
                            MessageView::FileDone { file_id: file_id_v, hash: hash_v } => {
                                assert(record_at(b, p0 as int, encode_utf8("file_id"@), encode_utf8(file_id_v)));
                                assert(encode_utf8(file_id_v) == encode_utf8(file_id@));
                                assert(p1 as int == p0 as int + record_bytes(encode_utf8("file_id"@), encode_utf8(file_id_v)).len());
                                assert(record_at(b, p1 as int, encode_utf8("hash"@), encode_utf8(hash_v)));
                                assert(false);
                            },
                            _ => {},
                        }
                    }
                }
            }
            return None;
        },
    };
    if p2 == blen {
        let m = Message::FileDone { file_id, hash };
        proof {
            assert(b == payload_bytes(m@)) by {
                assert(b =~= b.subrange(0, p0 as int) + b.subrange(p0 as int, p1 as int) + b.subrange(p1 as int, p2 as int));
                assert(b.subrange(p0 as int, p1 as int) == record_bytes(encode_utf8("file_id"@), encode_utf8(file_id@)));
                assert(b.subrange(p1 as int, p2 as int) == record_bytes(encode_utf8("hash"@), encode_utf8(hash@)));
                assert(payload_bytes(m@) =~= str_record("type"@, "FileDone"@) + record_bytes(encode_utf8("file_id"@), encode_utf8(file_id@)) + record_bytes(encode_utf8("hash"@), encode_utf8(hash@)));
            }
            assert forall|v: MessageView| b == payload_bytes(v) implies v == m@ by {
                match v {
                    MessageView::FileDone { file_id: file_id_v, hash: hash_v } => {
                        assert(record_at(b, p0 as int, encode_utf8("file_id"@), encode_utf8(file_id_v)));
                        assert(encode_utf8(file_id_v) == encode_utf8(file_id@));
                        assert(p1 as int == p0 as int + record_bytes(encode_utf8("file_id"@), encode_utf8(file_id_v)).len());
                        assert(record_at(b, p1 as int, encode_utf8("hash"@), encode_utf8(hash_v)));
                        assert(encode_utf8(hash_v) == encode_utf8(hash@));
                        assert(p2 as int == p1 as int + record_bytes(encode_utf8("hash"@), encode_utf8(hash_v)).len());
                        lemma_encode_utf8_injective(file_id_v, file_id@);
                        lemma_encode_utf8_injective(hash_v, hash@);
                        assert(v == m@);
                    },
                    _ => {},
                }
            }
        }
        Some(m)
    } else {
        proof {
            assert forall|v: MessageView| b != payload_bytes(v) by {
                if b == payload_bytes(v) {
                    match v {
                        MessageView::FileDone { file_id: file_id_v, hash: hash_v } => {
                            assert(record_at(b, p0 as int, encode_utf8("file_id"@), encode_utf8(file_id_v)));
                            assert(encode_utf8(file_id_v) == encode_utf8(file_id@));
                            assert(p1 as int == p0 as int + record_bytes(encode_utf8("file_id"@), encode_utf8(file_id_v)).len());
                            assert(record_at(b, p1 as int, encode_utf8("hash"@), encode_utf8(hash_v)));
                            assert(encode_utf8(hash_v) == encode_utf8(hash@));
                            assert(p2 as int == p1 as int + record_bytes(encode_utf8("hash"@), encode_utf8(hash_v)).len());
                            assert(p2 as int == b.len());
                        },
                        _ => {},
                    }
                }
            }
        }
        None
    }
}


/// Decode a message payload.
///
/// Succeeds exactly on the canonical encoding of a message, and then
/// returns the unique message so encoded.
pub fn decode_payload(bytes: &[u8]) -> (r: Option<Message>)
    ensures
        match r {
            Some(m) => bytes@ == payload_bytes(m@) && (forall|v: MessageView|
                bytes@ == payload_bytes(v) ==> v == m@),
            None => forall|v: MessageView| bytes@ != payload_bytes(v),
        },
{
    let blen = bytes.len();
    let ghost b = bytes@;
    proof {
        assert forall|v: MessageView| #![trigger payload_bytes(v)]
            b == payload_bytes(v) implies record_at(
            b,
            0,
            encode_utf8("type"@),
            encode_utf8(v.tag()),
        ) by {
            assert(payload_bytes(v) == str_record("type"@, v.tag()) + fields_bytes(v));
            assert(b.subrange(0, b.len() as int) =~= b);
            lemma_chain(b, 0, encode_utf8("type"@), encode_utf8(v.tag()), fields_bytes(v));
        }
    }
    let (tag, p0) = match read_str_field(bytes, 0, "type".as_bytes()) {
        Some(v) => v,
        None => {
            proof {
                assert forall|v: MessageView| b != payload_bytes(v) by {
                    if b == payload_bytes(v) {
                        assert(record_at(b, 0, encode_utf8("type"@), encode_utf8(v.tag())));
                    }
                }
            }
            return None;
        },
    };
    proof {
        assert forall|v: MessageView| #![trigger payload_bytes(v)]
            b == payload_bytes(v) implies v.tag() == tag@ by {
            assert(record_at(b, 0, encode_utf8("type"@), encode_utf8(v.tag())));
            assert(encode_utf8(v.tag()) == encode_utf8(tag@));
            lemma_encode_utf8_injective(v.tag(), tag@);
        }
        assert(b.subrange(0, p0 as int) == record_bytes(encode_utf8("type"@), encode_utf8(tag@)));
    }
    if tag_is(&tag, "Hello") {
        proof {
            assert forall|v: MessageView| b == payload_bytes(v) implies v is Hello by {
                lemma_tag_identifies(
                    v,
                    MessageView::Hello {
                        peer_id: Seq::empty(),
                        version: 0,
                        identity_pk_b64: Seq::empty(),
                        nonce_b64: Seq::empty(),
                        sig_b64: Seq::empty(),
                    },
                );
            }
        }
        decode_hello(bytes, p0)
    } else if tag_is(&tag, "Ping") {
        proof {
            assert forall|v: MessageView| b == payload_bytes(v) implies v is Ping by {
                lemma_tag_identifies(v, MessageView::Ping { ts_ms: 0 });
            }
        }
        decode_ping(bytes, p0)
    } else if tag_is(&tag, "Pong") {
        proof {
            assert forall|v: MessageView| b == payload_bytes(v) implies v is Pong by {
                lemma_tag_identifies(v, MessageView::Pong { ts_ms: 0 });
            }
        }
        decode_pong(bytes, p0)
    } else if tag_is(&tag, "ClipText") {
        proof {
            assert forall|v: MessageView| b == payload_bytes(v) implies v is ClipText by {
                lemma_tag_identifies(
                    v,
                    MessageView::ClipText { mime: Seq::empty(), text: Seq::empty(), ts_ms: 0 },
                );
            }
        }
        decode_cliptext(bytes, p0)
    } else if tag_is(&tag, "ClipImage") {
        proof {
            assert forall|v: MessageView| b == payload_bytes(v) implies v is ClipImage by {
                lemma_tag_identifies(
                    v,
                    MessageView::ClipImage {
                        mime: Seq::empty(),
                        width: 0,
                        height: 0,
                        bytes_b64: Seq::empty(),
                        ts_ms: 0,
                    },
                );
            }
        }
        decode_clipimage(bytes, p0)
    } else if tag_is(&tag, "FileOffer") {
        proof {
            assert forall|v: MessageView| b == payload_bytes(v) implies v is FileOffer by {
                lemma_tag_identifies(
                    v,
                    MessageView::FileOffer {
                        file_id: Seq::empty(),
                        name: Seq::empty(),
                        size: 0,
                        mime: Seq::empty(),
                    },
                );
            }
        }
        decode_fileoffer(bytes, p0)
    } else if tag_is(&tag, "FileAccept") {
        proof {
            assert forall|v: MessageView| b == payload_bytes(v) implies v is FileAccept by {
                lemma_tag_identifies(v, MessageView::FileAccept { file_id: Seq::empty() });
            }
        }
        decode_fileaccept(bytes, p0)
    } else if tag_is(&tag, "FileReject") {
        proof {
            assert forall|v: MessageView| b == payload_bytes(v) implies v is FileReject by {
                lemma_tag_identifies(
                    v,
                    MessageView::FileReject { file_id: Seq::empty(), reason: Seq::empty() },
                );
            }
        }
        decode_filereject(bytes, p0)
    } else if tag_is(&tag, "FileChunk") {
        proof {
            assert forall|v: MessageView| b == payload_bytes(v) implies v is FileChunk by {
                lemma_tag_identifies(
                    v,
                    MessageView::FileChunk {
                        file_id: Seq::empty(),
                        offset: 0,
                        data_b64: Seq::empty(),
                    },
                );
            }
        }
        decode_filechunk(bytes, p0)
    } else if tag_is(&tag, "FileDone") {
        proof {
            assert forall|v: MessageView| b == payload_bytes(v) implies v is FileDone by {
                lemma_tag_identifies(
                    v,
                    MessageView::FileDone { file_id: Seq::empty(), hash: Seq::empty() },
                );
            }
        }
        decode_filedone(bytes, p0)
    } else {
        proof {
            assert forall|v: MessageView| b != payload_bytes(v) by {
                if b == payload_bytes(v) {
                    assert(v.tag() == tag@);
                    match v {
                        MessageView::Hello { .. } => assert(v.tag() == "Hello"@),
                        MessageView::Ping { .. } => assert(v.tag() == "Ping"@),
                        MessageView::Pong { .. } => assert(v.tag() == "Pong"@),
                        MessageView::ClipText { .. } => assert(v.tag() == "ClipText"@),
                        MessageView::ClipImage { .. } => assert(v.tag() == "ClipImage"@),
                        MessageView::FileOffer { .. } => assert(v.tag() == "FileOffer"@),
                        MessageView::FileAccept { .. } => assert(v.tag() == "FileAccept"@),
                        MessageView::FileReject { .. } => assert(v.tag() == "FileReject"@),
                        MessageView::FileChunk { .. } => assert(v.tag() == "FileChunk"@),
                        MessageView::FileDone { .. } => assert(v.tag() == "FileDone"@),
                    }
                }
            }
        }
        None
    }
}

/// The full wire bytes of a message in a frame with the given sequence
/// number: the 18-byte header, then the payload document.
pub open spec fn message_bytes(m: MessageView, seq: u64) -> Seq<u8> {
    frame_bytes(
        FrameView {
            version: crate::wire::PROTOCOL_VERSION,
            msg_type: m.spec_msg_type().spec_code(),
            stream_id: m.spec_stream_id().spec_code(),
            seq,
            payload: payload_bytes(m),
        },
    )
}

/// The one way encoding a message can fail: a payload over the frame cap.
#[derive(Debug, Clone, Copy, PartialEq, Eq, Structural)]
pub enum MessageEncodeError {
    PayloadTooLarge,
}

/// Reasons a byte buffer fails to decode as a message.
#[derive(Debug, Clone, Copy, PartialEq, Eq, Structural)]
pub enum MessageDecodeError {
    /// The frame header or length is malformed.
    Frame(crate::protocol::FrameDecodeError),
    /// The frame is sound but its payload encodes no message.
    Malformed,
}

/// Encode a message into a frame with the given sequence number.
///
/// Fails exactly when the payload would exceed the 4 MiB frame cap.
pub fn encode_message(msg: &Message, seq: u64) -> (r: Result<Vec<u8>, MessageEncodeError>)
    ensures
        r is Ok <==> payload_bytes(msg@).len() <= crate::protocol::MAX_PAYLOAD_LEN,
        r matches Ok(bts) ==> bts@ == message_bytes(msg@, seq),
{
    let payload = encode_payload(msg);
    if payload.len() > crate::protocol::MAX_PAYLOAD_LEN {
        return Err(MessageEncodeError::PayloadTooLarge);
    }
    let f = Frame::new(msg.msg_type(), msg.stream_id(), seq, payload);
    Ok(crate::protocol::encode_frame(&f))
}

/// Decode one frame and the message in its payload.
///
/// The last ensures clause is the codec round trip: the encoding of any
/// message that fits in a frame decodes back to that message and its
/// sequence number.
pub fn decode_message(bytes: &[u8]) -> (r: Result<(Message, u64), MessageDecodeError>)
    ensures
        match r {
            Ok(p) => {
                &&& (crate::protocol::decode_frame_spec(bytes@) matches Some(f) && f.payload
                    == payload_bytes(p.0@) && f.seq == p.1)
                &&& forall|v: MessageView|
                    crate::protocol::decode_frame_spec(bytes@).unwrap().payload == payload_bytes(v)
                        ==> v == p.0@
            },
            Err(e) => {
                &&& (e is Frame <==> crate::protocol::decode_frame_spec(bytes@) is None)
                &&& e is Malformed ==> (crate::protocol::decode_frame_spec(bytes@) matches Some(f)
                    && (forall|v: MessageView| f.payload != payload_bytes(v)))
            },
        },
        forall|m2: MessageView, s2: u64|
            bytes@ == message_bytes(m2, s2) && payload_bytes(m2).len()
                <= crate::protocol::MAX_PAYLOAD_LEN ==> (r matches Ok(p) && p.0@ == m2 && p.1
                == s2),
{
    let frame = match crate::protocol::decode_frame(bytes) {
        Ok(f) => f,
        Err(e) => {
            proof {
                assert forall|m2: MessageView, s2: u64|
                    !(bytes@ == message_bytes(m2, s2) && payload_bytes(m2).len()
                        <= crate::protocol::MAX_PAYLOAD_LEN) by {
                    if bytes@ == message_bytes(m2, s2) && payload_bytes(m2).len()
                        <= crate::protocol::MAX_PAYLOAD_LEN {
                        crate::protocol::lemma_frame_roundtrip(
                            FrameView {
                                version: crate::wire::PROTOCOL_VERSION,
                                msg_type: m2.spec_msg_type().spec_code(),
                                stream_id: m2.spec_stream_id().spec_code(),
                                seq: s2,
                                payload: payload_bytes(m2),
                            },
                        );
                    }
                }
            }
            return Err(MessageDecodeError::Frame(e));
        },
    };
    let ghost fv = frame@;
    match decode_payload(frame.payload.as_slice()) {
        Some(m) => {
            proof {
                assert forall|m2: MessageView, s2: u64|
                    bytes@ == message_bytes(m2, s2) && payload_bytes(m2).len()
                        <= crate::protocol::MAX_PAYLOAD_LEN implies fv.payload == payload_bytes(m2)
                    && fv.seq == s2 && m2 == m@ by {
                    crate::protocol::lemma_frame_roundtrip(
                        FrameView {
                            version: crate::wire::PROTOCOL_VERSION,
                            msg_type: m2.spec_msg_type().spec_code(),
                            stream_id: m2.spec_stream_id().spec_code(),
                            seq: s2,
                            payload: payload_bytes(m2),
                        },
                    );
                }
            }
            Ok((m, frame.seq))
        },
        None => {
            proof {
                assert forall|m2: MessageView, s2: u64|
                    !(bytes@ == message_bytes(m2, s2) && payload_bytes(m2).len()
                        <= crate::protocol::MAX_PAYLOAD_LEN) by {
                    if bytes@ == message_bytes(m2, s2) && payload_bytes(m2).len()
                        <= crate::protocol::MAX_PAYLOAD_LEN {
                        crate::protocol::lemma_frame_roundtrip(
                            FrameView {
                                version: crate::wire::PROTOCOL_VERSION,
                                msg_type: m2.spec_msg_type().spec_code(),
                                stream_id: m2.spec_stream_id().spec_code(),
                                seq: s2,
                                payload: payload_bytes(m2),
                            },
                        );
                        assert(fv.payload == payload_bytes(m2));
                    }
                }
            }
            Err(MessageDecodeError::Malformed)
        },
    }
}

} // verus!
