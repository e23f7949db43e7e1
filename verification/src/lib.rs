//! Core pieces of a gossip-based cluster membership service: the keyring that
//! holds the symmetric secrets consulted by the message codec, the wire codec
//! for the framed protocol messages, the error-response frame, the
//! state-merge rules of the membership table, and the decision logic of the
//! stream dispatcher and the packet handler.

pub mod codec;
pub mod error_response;
pub mod keyring;
pub mod member;
pub mod secret;
pub mod stream;
pub mod types;
pub mod wire;
