//! Point-to-point encrypted file transfer over a short shared code.
//!
//! The crate holds the transport stack's logic: the wire codec for protocol
//! messages, code-derived key agreement and authenticated sealing of frames,
//! length-prefixed framing, the relay's peer matching and forwarding rules,
//! and the chunked, resumable transfer state machine used by both roles.

pub mod chunks;
pub mod cli;
pub mod crypto;
pub mod framing;
pub mod protocol;
pub mod relay_client;
pub mod relay_matcher;
pub mod relay_protocol;
pub mod strutil;
pub mod transfer;
pub mod wire;
