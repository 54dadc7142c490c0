//! Server side of a vendor key-exchange protocol: handshake state machine,
//! session keys, field obfuscation and a FIFO lending queue.
pub mod chat;
pub mod cipher;
pub mod connection;
pub mod lending;
pub mod masking;
pub mod messages;
pub mod resource;
pub mod text;
