//! Plain kinds shared by the whole server.

use vstd::prelude::*;

verus! {

/// Kinds of error that are reported to the error handler.
#[derive(Clone, Copy, Debug, PartialEq, Eq, Structural)]
pub enum SocketServerErrorType {
    /// Reserved for failures while starting up.
    SocketStartingError,
    /// Reserved for failures of a send that the embedding program asked for.
    DataSendingError,
    /// The listener could not be bound, or a connection could not be accepted.
    Connection,
    /// A read or a write failed on an established connection.
    Communication,
}

/// Whether a peer is connected.
#[derive(Clone, Copy, Debug, PartialEq, Eq, Structural)]
pub enum SocketServerStatus {
    Connected,
    Disconnected,
}

/// Where the server stands between `start` and a running listener.
#[derive(Clone, Copy, Debug, PartialEq, Eq, Structural)]
pub enum Phase {
    /// No listener is wanted.
    Stopped,
    /// The embedding program is asked to bind the listener.
    Binding,
    /// The listener is bound and the broadcast channel exists.
    Listening,
}

} // verus!
