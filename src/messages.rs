//! Message bodies the handshake reads and writes, and its errors.
use vstd::prelude::*;

use crate::masking::Block;

verus! {

/// Why a connection was closed by the protocol.
#[derive(Debug, PartialEq, Eq, Structural, Clone, Copy)]
pub enum ProtocolError {
    /// A message of a kind the current phase does not expect.
    UnexpectedMessage,
    /// A Connect message whose sentinels are not the fixed values.
    BadSentinel,
    /// Authentication before any key exchange.
    NotInitialized,
    /// A reserved field that is not zero.
    NonzeroReserved,
    /// A decrypted field that is not valid text.
    InvalidText,
    /// A resource request whose inner encoding cannot be decoded.
    MalformedRequest,
    /// A resource request with bytes after its inner encoding.
    TrailingData,
    /// A resource name that would leave the resource directory.
    InvalidResourceName,
    /// A resource too large for its 32-bit length field.
    ResourceTooLarge,
    /// The reply could not be encoded; `resource_reply` never gives it, as
    /// encoding into a vector does not fail.
    EncodeFailed,
}

/// The client's greeting.
#[derive(Debug, PartialEq, Eq, Structural, Clone, Copy)]
pub struct Connect {
    pub sentinel_a: u8,
    pub sentinel_b: u8,
}

/// The fixed acknowledgement of a greeting.
#[derive(Debug, Clone, Copy)]
pub struct ConnectAck {
    pub unk1: u32,
    pub unk2: [u8; 8],
    pub unk3: u8,
    pub unk4: u8,
    pub unk5: u32,
    pub unk6: u8,
}

/// A request for the session key; the split point arrives masked.
#[derive(Debug, PartialEq, Eq, Structural, Clone, Copy)]
pub struct KeyExchangeRequest {
    pub key_split_point: u32,
}

/// The session key, each byte masked, and the split point.
#[derive(Debug, Clone)]
pub struct KeyExchangeResponse {
    pub key_split_point: u32,
    pub shortkey: Vec<u8>,
}

/// The client's authentication; its four text fields arrive enciphered and
/// then byte-masked.
#[derive(Debug, Clone)]
pub struct AuthRequest {
    pub xor_port: u32,
    pub unk1: u32,
    pub unk2: u32,
    pub ip_origin: Block,
    pub ip_local: Block,
    pub srchash: Vec<Block>,
    pub binbuf: Vec<Block>,
}

/// The server's authentication reply.
#[derive(Debug, Clone)]
pub struct AuthResponse {
    pub unk1: u8,
    pub xor_unk2: u32,
    pub ip_local: Block,
    pub xor_unk3: u8,
    pub enc_item: Vec<Block>,
    pub xor_unk4: u8,
    pub enc_mobs: Vec<Block>,
    pub xor_unk5: u8,
    pub enc_warp: Vec<Block>,
    pub port: u16,
}

/// An inbound message, by kind.
#[derive(Debug, Clone)]
pub enum Inbound {
    Connect(Connect),
    KeyExchange(KeyExchangeRequest),
    Auth(AuthRequest),
    /// A resource request: the inner request, binary-encoded.
    Resource(Vec<u8>),
    /// Any other kind; it is skipped.
    Other,
}

/// What the connection does in answer to an inbound message.
#[derive(Debug, Clone)]
pub enum Action {
    SendConnectAck(ConnectAck),
    SendKeyExchange(KeyExchangeResponse),
    SendAuth(AuthResponse),
    /// Read the file at this path and answer with `resource_reply`.
    ReadResource(String),
    /// Nothing to send.
    Skip,
}

} // verus!
