//! The message envelope exchanged over a connection.

use vstd::prelude::*;

verus! {

/// The first unit received on a connection: either a real payload, which
/// makes the call unary, or the marker that announces a request stream.
#[derive(Debug)]
pub enum Envelope<P> {
    /// A request payload; as the first envelope it is the whole request.
    Payload(P),
    /// The sentinel that opens a streaming call; it carries no payload.
    StreamMarker,
}

/// The shape of a logical call.
#[derive(Clone, Copy, Debug, PartialEq, Eq, Structural)]
pub enum CallKind {
    /// Exactly one request message.
    Unary,
    /// Zero or more request messages, ended by channel closure.
    Streaming,
}

impl<P> Envelope<P> {
    /// The call shape that this envelope announces when it is the first one.
    pub open spec fn kind(self) -> CallKind {
        match self {
            Envelope::Payload(_) => CallKind::Unary,
            Envelope::StreamMarker => CallKind::Streaming,
        }
    }

    /// Whether this envelope is the stream marker.
    pub fn is_stream_marker(&self) -> (b: bool)
        ensures
            b == (*self is StreamMarker),
            b == (self.kind() == CallKind::Streaming),
    {
        match self {
            Envelope::Payload(_) => false,
            Envelope::StreamMarker => true,
        }
    }
}

} // verus!
