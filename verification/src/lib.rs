//! The core of an embeddable TCP broadcast server.
//!
//! The server takes in client connections and hands every payload that a
//! client sends to all connected clients, the sender included. This crate
//! holds its logic and none of its sockets. The embedding program binds the
//! listener, accepts, reads and writes; it reports each outcome to
//! [`SocketServer::handle`] as an [`Event`] and carries out the [`Action`]s
//! that come back:
//!
//! 1. Configure the server, install the handlers, and call
//!    [`SocketServer::start`]. While [`SocketServer::bind_address`] gives a
//!    text, bind a listener there and report `Event::Bound` or
//!    `Event::BindFailed`.
//! 2. Report each accepted connection with `Event::Accepted`. On
//!    `Action::NewClient`, keep the socket under the peer's display address
//!    and start reading from it.
//! 3. Read into a buffer made by [`SocketServer::receive_buffer`] and report
//!    `Event::Data`, `Event::WouldBlock` or `Event::ReadFailed`. A reader
//!    stops once it has reported `Event::ReadFailed`.
//! 4. Report `Event::Poll` to take the next queued payload. On
//!    `Action::Broadcast`, write the payload to the socket of each target,
//!    and report every write that fails with `Event::WriteFailed`.
//!
//! The server is one value with one owner: a program that reads on several
//! threads keeps it behind a lock, so that events are handled one at a time.
//! What an event does is stated once, as a function on mathematical values
//! ([`model::ServerView::step`]); [`laws`] holds what follows from it for
//! whole runs of events.

pub mod address;
pub mod callbacks;
pub mod channel;
pub mod event;
pub mod laws;
pub mod model;
pub mod payload;
pub mod registry;
pub mod server;
pub mod types;

pub use address::{Address, IpVersion, Protocol};
pub use event::{Action, Event};
pub use server::SocketServer;
pub use types::{Phase, SocketServerErrorType, SocketServerStatus};
