//! Wire protocol for a message-oriented channel over an ordered byte stream:
//! frame encoding and decoding, payload masking, the upgrade handshake, and
//! the role-based connection rules that tie them together.

use vstd::prelude::*;

pub mod connection;
pub mod frame;
pub mod handshake;
pub mod mask;

verus! {

/// An error surfaced by the protocol layer.
#[derive(Debug, PartialEq, Eq)]
pub enum Error {
    /// An I/O failure reported by the transport, with its description.
    Io(String),
    /// A violation of the protocol, with a descriptive message.
    Protocol(String),
    /// The connection was closed by the peer.
    ConnectionClosed,
}

} // verus!

pub use frame::{Frame, OpCode};
