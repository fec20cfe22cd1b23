//! Why a WebSocket session ended.
use vstd::prelude::*;

verus! {

/// The ways a session with the notification server can fail or end.
#[derive(Debug, Clone, Copy, PartialEq, Eq, Structural)]
pub enum Error {
    /// The server's name could not be resolved.
    Dns,
    /// The TCP connection could not be opened.
    Connect,
    /// The TLS handshake failed.
    Tls,
    /// The WebSocket opening handshake failed.
    Handshake,
    /// A frame could not be read.
    Protocol,
    /// The server closed the session.
    Close,
}

} // verus!
