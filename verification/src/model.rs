//! The server as a state machine: its mathematical state, and what each
//! event does to it.

use crate::address::{
    bind_text, canonical_text, display_text, is_socket_text, parsed_address, AddressView,
    IpVersion, Protocol,
};
use crate::callbacks::CallbackSet;
use crate::event::{ActionView, EventView};
use crate::payload::payload_of;
use crate::registry::{lemma_registry_steps, RegistryView};
use crate::types::{Phase, SocketServerErrorType};
use vstd::prelude::*;

verus! {

/// The mathematical value of a server.
pub struct ServerView {
    /// Canonical text of the configured address.
    pub local_addr: Seq<char>,
    /// Text at which the listener is bound, chosen by `start`.
    pub url: Seq<char>,
    /// The configured address.
    pub config: AddressView,
    /// Whether an address was configured.
    pub defined: bool,
    /// Whether `start` was called with success and no bind has failed since.
    pub started: bool,
    /// Size of a receive buffer.
    pub buffer_size: nat,
    /// The installed handlers.
    pub callbacks: CallbackSet,
    pub phase: Phase,
    pub registry: RegistryView,
    /// The broadcast channel: payloads that wait to be written, oldest first.
    pub queue: Seq<Seq<u8>>,
}

impl ServerView {
    /// The server as `new` makes it: nothing configured, nothing installed,
    /// a buffer size of 1024.
    pub open spec fn initial() -> ServerView {
        ServerView {
            local_addr: Seq::empty(),
            url: Seq::empty(),
            config: AddressView {
                host: Seq::empty(),
                port: 0,
                protocol: Protocol::Tcp,
                ip_version: IpVersion::V4,
            },
            defined: false,
            started: false,
            buffer_size: 1024,
            callbacks: CallbackSet::none(),
            phase: Phase::Stopped,
            registry: RegistryView::empty(),
            queue: Seq::empty(),
        }
    }

    /// What holds of every server that was made by `new` or
    /// `new_with_config` and used through its methods since: no peer is held
    /// twice; the receive buffers are not empty; a server without a
    /// configuration was never started; a server that asks for a listener,
    /// or has one, was started; and peers and waiting payloads exist only
    /// while the listener is bound.
    pub open spec fn wf(self) -> bool {
        &&& self.registry.wf()
        &&& self.buffer_size > 0
        &&& !self.defined ==> !self.started && self.phase == Phase::Stopped
        &&& self.phase != Phase::Stopped ==> self.started
        &&& !self.listening() ==> self.registry == RegistryView::empty() && self.queue
            == Seq::<Seq<u8>>::empty()
    }

    /// The server with `address` as its configuration.
    pub open spec fn configure(self, address: AddressView) -> ServerView {
        ServerView {
            local_addr: canonical_text(address),
            config: address,
            defined: true,
            ..self
        }
    }

    /// Whether the listener is bound, so that the broadcast channel exists.
    pub open spec fn listening(self) -> bool {
        self.phase == Phase::Listening
    }

    /// What starting does and returns, given the address that was read
    /// back from the canonical text. Without a configuration nothing changes
    /// and the result is `false`. A server whose listener is bound stays as
    /// it is. Otherwise the server is started: for TCP the bind text of the
    /// address is noted and a listener is asked for; for any other protocol
    /// nothing is left to do.
    pub open spec fn start_at(self, address: AddressView) -> (ServerView, bool) {
        if !self.defined {
            (self, false)
        } else if self.listening() {
            (self, true)
        } else if address.protocol == Protocol::Tcp {
            (
                ServerView {
                    started: true,
                    url: bind_text(address),
                    phase: Phase::Binding,
                    ..self
                },
                true,
            )
        } else {
            (ServerView { started: true, phase: Phase::Stopped, ..self }, true)
        }
    }

    /// What `start` does and returns: it starts at the address that
    /// `AddressParser::string_to_object` reads from `local_addr`.
    pub open spec fn start(self) -> (ServerView, bool) {
        self.start_at(parsed_address(self.local_addr))
    }

    /// What `send` does and returns: the payload joins the back of the
    /// queue when the channel exists.
    pub open spec fn send(self, payload: Seq<u8>) -> (ServerView, bool) {
        if self.listening() {
            (ServerView { queue: self.queue.push(payload), ..self }, true)
        } else {
            (self, false)
        }
    }

    /// Display address of a peer that connects from `remote`.
    pub open spec fn peer_text(self, remote: Seq<char>) -> Seq<char> {
        display_text(remote, self.config.protocol, self.config.ip_version)
    }

    /// Whether a connection from `remote` is taken in: the text names a
    /// socket endpoint and no connected peer has its display address.
    pub open spec fn admits(self, remote: Seq<char>) -> bool {
        is_socket_text(remote) && !self.registry.tracks(self.peer_text(remote))
    }

    /// The state after an event, and the actions that the event calls for.
    pub open spec fn step(self, event: EventView) -> (ServerView, Seq<ActionView>) {
        match event {
            EventView::Bound => if self.phase == Phase::Binding {
                (ServerView { phase: Phase::Listening, ..self }, seq![])
            } else {
                (self, seq![])
            },
            EventView::BindFailed => if self.phase == Phase::Binding {
                (
                    ServerView { phase: Phase::Stopped, started: false, ..self },
                    seq![ActionView::Error(SocketServerErrorType::Connection)],
                )
            } else {
                (self, seq![])
            },
            _ => if self.listening() {
                self.step_listening(event)
            } else {
                (self, seq![])
            },
        }
    }

    /// `step` for a server whose listener is bound.
    pub open spec fn step_listening(self, event: EventView) -> (ServerView, Seq<ActionView>) {
        match event {
            EventView::Accepted(remote) => if self.admits(remote) {
                (
                    ServerView {
                        registry: self.registry.register(self.peer_text(remote)),
                        ..self
                    },
                    seq![ActionView::NewClient(self.peer_text(remote))],
                )
            } else {
                (self, seq![ActionView::Error(SocketServerErrorType::Connection)])
            },
            EventView::AcceptFailed => (
                self,
                seq![ActionView::Error(SocketServerErrorType::Connection)],
            ),
            EventView::Data { peer, buffer } => if self.registry.tracks(peer) {
                (
                    ServerView { queue: self.queue.push(payload_of(buffer)), ..self },
                    seq![ActionView::Receive { peer, payload: payload_of(buffer) }],
                )
            } else {
                (self, seq![])
            },
            EventView::ReadFailed(peer) => if self.registry.tracks(peer) {
                (
                    ServerView { registry: self.registry.close(peer), ..self },
                    seq![
                        ActionView::Error(SocketServerErrorType::Communication),
                        ActionView::Disconnect(peer),
                    ],
                )
            } else {
                (self, seq![])
            },
            EventView::Poll => if self.queue.len() > 0 {
                (
                    ServerView { queue: self.queue.drop_first(), ..self },
                    seq![
                        ActionView::Broadcast {
                            payload: self.queue[0],
                            targets: self.registry.live,
                        },
                    ],
                )
            } else {
                (self, seq![])
            },
            EventView::WriteFailed(peer) => if self.registry.live.contains(peer) {
                (
                    ServerView { registry: self.registry.prune(peer), ..self },
                    seq![ActionView::Error(SocketServerErrorType::Communication)],
                )
            } else {
                (self, seq![])
            },
            EventView::WouldBlock(_) => (self, seq![]),
            EventView::Bound => (self, seq![]),
            EventView::BindFailed => (self, seq![]),
        }
    }

    /// The state after a run of events, and all the actions they called
    /// for, in order.
    pub open spec fn run(self, events: Seq<EventView>) -> (ServerView, Seq<ActionView>)
        decreases events.len(),
    {
        if events.len() == 0 {
            (self, seq![])
        } else {
            let (before, earlier) = self.run(events.drop_last());
            let (after, last) = before.step(events.last());
            (after, earlier + last)
        }
    }
}

/// An event keeps a server well formed, and never touches its configuration
/// or its handlers.
pub proof fn lemma_step_keeps_wf(s: ServerView, event: EventView)
    requires
        s.wf(),
    ensures
        s.step(event).0.wf(),
        s.step(event).0.config == s.config,
        s.step(event).0.callbacks == s.callbacks,
        s.step(event).0.defined == s.defined,
        s.listening() ==> s.step(event).0.listening(),
{
    match event {
        EventView::Accepted(remote) => {
            lemma_registry_steps(s.registry, s.peer_text(remote));
        },
        EventView::ReadFailed(peer) => {
            lemma_registry_steps(s.registry, peer);
        },
        EventView::WriteFailed(peer) => {
            lemma_registry_steps(s.registry, peer);
        },
        _ => {},
    }
}

/// A run of events keeps a server well formed, and never touches its
/// configuration or its handlers.
pub proof fn lemma_run_keeps_wf(s: ServerView, events: Seq<EventView>)
    requires
        s.wf(),
    ensures
        s.run(events).0.wf(),
        s.run(events).0.config == s.config,
        s.run(events).0.callbacks == s.callbacks,
        s.run(events).0.defined == s.defined,
        s.listening() ==> s.run(events).0.listening(),
    decreases events.len(),
{
    if events.len() > 0 {
        lemma_run_keeps_wf(s, events.drop_last());
        lemma_step_keeps_wf(s.run(events.drop_last()).0, events.last());
    }
}

} // verus!
