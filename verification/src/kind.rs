//! The kinds of socket error that the decisions of this crate tell apart.

use vstd::prelude::*;

verus! {

/// What a failed socket call failed with.
#[derive(Clone, Copy, Debug, PartialEq, Eq, Structural)]
pub enum ErrorKind {
    /// The call would have had to wait.
    WouldBlock,
    /// The peer reset the connection.
    ConnectionReset,
    /// The connection was aborted on this side.
    ConnectionAborted,
    /// Nobody listens on the address.
    ConnectionRefused,
    /// Every other kind.
    Other,
}

impl ErrorKind {
    /// The connection is gone: the peer reset it, or it was aborted.
    pub open spec fn is_gone(self) -> bool {
        self is ConnectionReset || self is ConnectionAborted
    }

    /// Tests for the two kinds with which a connection that is gone answers.
    pub fn is_connection_gone(self) -> (gone: bool)
        ensures
            gone == self.is_gone(),
    {
        matches!(self, ErrorKind::ConnectionReset | ErrorKind::ConnectionAborted)
    }
}

/// A connection that is gone answers with a reset or an abort, and with no other kind:
/// neither having to wait nor being refused nor an unknown failure says so.
pub proof fn law_gone(kind: ErrorKind)
    ensures
        kind.is_gone() <==> kind == ErrorKind::ConnectionReset || kind
            == ErrorKind::ConnectionAborted,
        !ErrorKind::WouldBlock.is_gone(),
        !ErrorKind::ConnectionRefused.is_gone(),
        !ErrorKind::Other.is_gone(),
{
}

} // verus!
