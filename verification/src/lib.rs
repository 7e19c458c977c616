//! A verified client core for a line-framed JSON-RPC protocol driven over a
//! bidirectional byte pipe: message framing, a wire codec for requests and
//! notifications, and a client state machine with an initialization handshake,
//! a monotonic request-id counter, and exact response resolution.

pub mod client;
pub mod codec;
pub mod transport;

use vstd::prelude::*;

verus! {

/// Errors surfaced by the client core. Every failure is a distinct kind;
/// nothing is retried or recovered internally.
#[derive(Clone, Debug, PartialEq, Eq)]
pub enum McpError {
    /// A call was attempted before the initialization handshake completed.
    NotInitialized,
    /// The peer closed its stream before a protocol line appeared.
    PeerClosed,
    /// The underlying stream rejected a read or a write.
    Io,
    /// A response line was not a well-formed response object.
    DecodeFailure,
    /// The peer answered with a populated error object; the peer's message
    /// text is carried along.
    Protocol(String),
    /// The response object carried neither a result nor an error.
    MalformedResponse,
}

} // verus!
