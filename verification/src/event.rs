//! What the embedding program reports to the server, and what the server
//! asks of it in return.

use crate::types::SocketServerErrorType;
use vstd::prelude::*;

verus! {

/// Something that happened on a socket, reported by the embedding program.
#[derive(Debug, PartialEq, Eq)]
pub enum Event {
    /// The listener was bound at the address that `start` chose.
    Bound,
    /// The listener could not be bound.
    BindFailed,
    /// A connection was accepted; the text is its remote endpoint, `host:port`.
    Accepted(String),
    /// Accepting a connection failed for a reason other than "none is waiting".
    AcceptFailed,
    /// A read on the peer's connection returned at least one byte; `buffer`
    /// is the receive buffer, zero beyond what was read.
    Data { peer: String, buffer: Vec<u8> },
    /// A read on the peer's connection found no data waiting.
    WouldBlock(String),
    /// A read on the peer's connection failed, or met the end of the stream.
    ReadFailed(String),
    /// The accept loop asks for the next queued payload.
    Poll,
    /// Writing a broadcast payload to the peer failed.
    WriteFailed(String),
}

/// The mathematical value of an [`Event`].
pub enum EventView {
    Bound,
    BindFailed,
    Accepted(Seq<char>),
    AcceptFailed,
    Data { peer: Seq<char>, buffer: Seq<u8> },
    WouldBlock(Seq<char>),
    ReadFailed(Seq<char>),
    Poll,
    WriteFailed(Seq<char>),
}

impl View for Event {
    type V = EventView;

    open spec fn view(&self) -> EventView {
        match self {
            Event::Bound => EventView::Bound,
            Event::BindFailed => EventView::BindFailed,
            Event::Accepted(remote) => EventView::Accepted(remote@),
            Event::AcceptFailed => EventView::AcceptFailed,
            Event::Data { peer, buffer } => EventView::Data { peer: peer@, buffer: buffer@ },
            Event::WouldBlock(peer) => EventView::WouldBlock(peer@),
            Event::ReadFailed(peer) => EventView::ReadFailed(peer@),
            Event::Poll => EventView::Poll,
            Event::WriteFailed(peer) => EventView::WriteFailed(peer@),
        }
    }
}

/// Something the embedding program is to do: tell a handler, or write to
/// sockets.
#[derive(Debug, PartialEq, Eq)]
pub enum Action {
    /// Tell the new-client handler the peer's display address, and start
    /// reading from the connection under that address.
    NewClient(String),
    /// Tell the receive handler what the peer sent.
    Receive { peer: String, payload: Vec<u8> },
    /// Tell the disconnect handler; the connection is over.
    Disconnect(String),
    /// Tell the error handler.
    Error(SocketServerErrorType),
    /// Write the payload to the socket of each target.
    Broadcast { payload: Vec<u8>, targets: Vec<String> },
}

/// The mathematical value of an [`Action`].
pub enum ActionView {
    NewClient(Seq<char>),
    Receive { peer: Seq<char>, payload: Seq<u8> },
    Disconnect(Seq<char>),
    Error(SocketServerErrorType),
    Broadcast { payload: Seq<u8>, targets: Seq<Seq<char>> },
}

/// The texts held by a sequence of strings.
pub open spec fn texts(list: Seq<String>) -> Seq<Seq<char>> {
    Seq::new(list.len(), |i: int| list[i]@)
}

impl View for Action {
    type V = ActionView;

    open spec fn view(&self) -> ActionView {
        match self {
            Action::NewClient(peer) => ActionView::NewClient(peer@),
            Action::Receive { peer, payload } => ActionView::Receive {
                peer: peer@,
                payload: payload@,
            },
            Action::Disconnect(peer) => ActionView::Disconnect(peer@),
            Action::Error(kind) => ActionView::Error(*kind),
            Action::Broadcast { payload, targets } => ActionView::Broadcast {
                payload: payload@,
                targets: texts(targets@),
            },
        }
    }
}

/// The mathematical values of a list of actions, in order.
pub open spec fn action_views(list: Seq<Action>) -> Seq<ActionView> {
    Seq::new(list.len(), |i: int| list[i]@)
}

} // verus!
