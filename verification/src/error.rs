//! The single error taxonomy of the library.

use vstd::prelude::*;

verus! {

/// Why an upgrade request failed validation.
#[derive(Clone, Copy, Debug, PartialEq, Eq, Structural)]
pub enum HandshakeInvalidKind {
    MethodNotGet,
    UnsupportedHttpVersion,
    MissingKey,
    BadKey,
    MissingUpgrade,
    BadUpgrade,
    MissingConnection,
    BadConnection,
    UnsupportedWsVersion,
    /// A handshake response whose status is not 101.
    BadStatus,
    /// A handshake response whose accept token is missing or wrong.
    BadAccept,
}

/// Why a frame, or the message stream built from frames, broke the protocol.
#[derive(Clone, Copy, Debug, PartialEq, Eq, Structural)]
pub enum FrameProtocolKind {
    ReservedBits,
    ReservedOpcode,
    ControlFragmented,
    ControlTooLong,
    /// An 8-byte payload length with its top bit set.
    BadLength,
    /// A Continuation frame with no message in flight, or a fresh data
    /// frame in the middle of a fragmented message.
    BadContinuation,
    UnmaskedFromClient,
    MaskedFromServer,
    BadUtf8,
    BadCloseCode,
    MessageTooBig,
}

/// Everything that can go wrong on a connection.
#[derive(Clone, Debug, PartialEq, Eq)]
pub enum WebSocketError {
    /// Transport failure; the connection dies with no close handshake.
    Io,
    /// The HTTP head of the handshake could not be parsed.
    HandshakeMalformed,
    /// The HTTP head parsed but is not a conforming upgrade request.
    HandshakeInvalid(HandshakeInvalidKind),
    /// A frame broke RFC 6455; the connection closes with the matching code.
    FrameProtocol(FrameProtocolKind),
    /// The peer closed the connection; code and reason as received.
    ClosedByPeer(u16, Vec<u8>),
    /// The local side already closed the connection.
    ClosedByUs,
}

pub type WebSocketResult<T> = Result<T, WebSocketError>;

impl FrameProtocolKind {
    /// The close code sent to the peer when this error tears the
    /// connection down: 1007 for bad payload data, 1009 for an oversized
    /// message, 1002 for every other protocol violation.
    pub open spec fn spec_close_code(self) -> u16 {
        match self {
            FrameProtocolKind::BadUtf8 => 1007u16,
            FrameProtocolKind::MessageTooBig => 1009u16,
            _ => 1002u16,
        }
    }

    /// The close code matching this protocol error.
    pub fn close_code(self) -> (c: u16)
        ensures
            c == self.spec_close_code(),
    {
        match self {
            FrameProtocolKind::BadUtf8 => 1007,
            FrameProtocolKind::MessageTooBig => 1009,
            _ => 1002,
        }
    }
}

impl WebSocketError {
    /// A short description of the error, in words.
    pub fn describe(&self) -> &'static str {
        match self {
            WebSocketError::Io => "transport failure",
            WebSocketError::HandshakeMalformed => "malformed handshake",
            WebSocketError::HandshakeInvalid(_) => "invalid upgrade request",
            WebSocketError::FrameProtocol(_) => "frame protocol violation",
            WebSocketError::ClosedByPeer(_, _) => "closed by peer",
            WebSocketError::ClosedByUs => "closed locally",
        }
    }
}

} // verus!
