//! The error type shared by every fallible operation of this crate.

use vstd::prelude::*;
use crate::web_socket_error::WebSocketError;

verus! {

/// HTTP request methods, as needed by the opening handshake.
#[derive(Clone, Copy, Debug, PartialEq, Eq, Structural)]
pub enum Method {
    Connect,
    Delete,
    Get,
    Head,
    Options,
    Patch,
    Post,
    Put,
    Trace,
}

/// Well-known HTTP header names referenced by handshake errors.
#[derive(Clone, Copy, Debug, PartialEq, Eq, Structural)]
pub enum KnownHeaderName {
    Connection,
    SecWebsocketAccept,
    SecWebsocketKey,
    SecWebsocketVersion,
    Upgrade,
}

/// Groups the errors of all the components of this crate.
#[derive(Clone, Copy, Debug, PartialEq, Eq, Structural)]
pub enum Error {
    /// The HTTP/1 parser rejected the handshake bytes.
    HttpParse,
    /// A mandatory handshake header is absent.
    MissingHeader { expected: KnownHeaderName },
    /// Streams of bytes interpreted as text must be valid UTF-8.
    InvalidUTF8,
    /// The peer closed the stream before a complete unit was read.
    UnexpectedEOF,
    /// A buffer was in an unexpected state while reading a frame.
    UnexpectedBufferState,
    /// A handshake request used a method other than the expected one.
    UnexpectedHttpMethod(Method),
    /// A WebSocket protocol violation.
    WebSocket(WebSocketError),
}

impl Error {
    /// Shorthand used by the engine when raising protocol violations.
    pub fn ws(error: WebSocketError) -> (r: Self)
        ensures
            r == Error::WebSocket(error),
    {
        Error::WebSocket(error)
    }
}

} // verus!
