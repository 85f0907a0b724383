//! Peer-to-peer clipboard and small-file synchronization core.
//!
//! The crate covers the secure session and mesh layer of a local-network
//! clipboard mesh: the length-delimited frame codec, the typed message
//! catalogue and its textual payload encoding, identity and peer-id
//! derivation, the pinned trust store, nonce replay protection, the pairing
//! protocol with its confirmation code, the handshake verification rules,
//! the bounded clipboard history, the peer registry, and the echo-suppression
//! and dial/accept decisions of the mesh orchestrator.

pub mod assoc;
pub mod b64;
pub mod clipboard;
pub mod crypto;
pub mod discovery;
pub mod history;
pub mod identity;
pub mod mesh;
pub mod message;
pub mod pairing;
pub mod payload;
pub mod protocol;
pub mod replay;
pub mod session;
pub mod sync;
pub mod text;
pub mod trust;
pub mod util;
pub mod wire;

pub use clipboard::{ClipboardContent, ClipboardListener, ClipboardProvider, MockClipboard};
pub use discovery::{DiscoveryEvent, DiscoveryListener, MockDiscovery, PeerInfo};
pub use history::{ClipboardEntry, ClipboardHistory};
pub use identity::{Blake3Identity, Ed25519Identity, IdentityProvider, MockIdentity};
pub use mesh::{FanoutResult, PeerEntry, PeerRegistry, PeerStatus};
pub use message::{decode_message, encode_message, Message};
pub use pairing::{derive_confirmation_code, pairing_finalize, PairingPayload};
pub use protocol::{
    decode_frame, encode_frame, hello_transcript, Frame, FrameDecodeError, MsgType, StreamId,
    MAX_PAYLOAD_LEN,
};
pub use replay::MemoryReplayProtector;
pub use session::{Session, SessionError};
pub use sync::{Backoff, EchoSuppressor, SyncHandler};
pub use trust::{MemoryTrustStore, TrustRecord};
pub use util::{default_identity_path, default_trust_path, preview};
pub use wire::PROTOCOL_VERSION;
