//! The server: its configuration, its handler slots, and the state that
//! the accept loop and the connection readers share.

use crate::address::{
    bind_string, canonical_string, parse_canonical, peer_display, Address, AddressView,
    IpVersion, Protocol,
};
use crate::callbacks::CallbackSet;
use crate::channel::BroadcastChannel;
use crate::event::{action_views, Action, Event};
use crate::model::{lemma_step_keeps_wf, ServerView};
use crate::payload::{trim_payload, zeroed_buffer};
use crate::registry::{lemma_without, ConnectionRegistry};
use crate::types::{Phase, SocketServerErrorType, SocketServerStatus};
use vstd::prelude::*;

verus! {

/// A broadcast server without its sockets. The embedding program binds,
/// accepts, reads and writes; it reports each outcome to [`SocketServer::handle`]
/// and carries out the actions that come back.
#[derive(Debug)]
pub struct SocketServer {
    url: String,
    local_addr_obj: Address,
    started: bool,
    defined: bool,
    /// Canonical text of the configured address. `start` reads the address
    /// back from this text.
    pub local_addr: String,
    callbacks: CallbackSet,
    buffer_size: usize,
    phase: Phase,
    registry: ConnectionRegistry,
    channel: BroadcastChannel,
}

impl View for SocketServer {
    type V = ServerView;

    closed spec fn view(&self) -> ServerView {
        ServerView {
            local_addr: self.local_addr@,
            url: self.url@,
            config: self.local_addr_obj@,
            defined: self.defined,
            started: self.started,
            buffer_size: self.buffer_size as nat,
            callbacks: self.callbacks,
            phase: self.phase,
            registry: self.registry@,
            queue: self.channel@,
        }
    }
}

impl SocketServer {
    /// A server without a configuration. `start` refuses until one is set.
    pub fn new() -> (server: Self)
        ensures
            server@ == ServerView::initial(),
            server@.wf(),
    {
        SocketServer {
            url: String::new(),
            local_addr: String::new(),
            local_addr_obj: Address {
                host: String::new(),
                port: 0,
                protocol: Protocol::Tcp,
                ip_version: IpVersion::V4,
            },
            started: false,
            defined: false,
            callbacks: CallbackSet::new(),
            buffer_size: 1024,
            phase: Phase::Stopped,
            registry: ConnectionRegistry::new(),
            channel: BroadcastChannel::new(),
        }
    }

    /// A server configured for the given address.
    pub fn new_with_config(
        protocol_type: Protocol,
        ip_address: String,
        port_no: usize,
        ip_version: IpVersion,
    ) -> (server: Self)
        ensures
            server@ == ServerView::initial().configure(
                AddressView {
                    host: ip_address@,
                    port: port_no as nat,
                    protocol: protocol_type,
                    ip_version,
                },
            ),
            server@.wf(),
    {
        let mut server = SocketServer::new();
        server.set_config(
            Address { host: ip_address, port: port_no, protocol: protocol_type, ip_version },
        );
        server
    }

    /// Sets the address to listen at. The last call before `start` wins.
    pub fn set_config(&mut self, config: Address)
        requires
            !old(self)@.started,
        ensures
            final(self)@ == old(self)@.configure(config@),
            old(self)@.wf() ==> final(self)@.wf(),
    {
        self.local_addr = canonical_string(&config);
        self.local_addr_obj = config;
        self.defined = true;
    }

    /// Sets the size of the receive buffers.
    pub fn set_buffer_size(&mut self, buffer_size: usize)
        requires
            buffer_size > 0,
            !old(self)@.started,
        ensures
            final(self)@ == (ServerView { buffer_size: buffer_size as nat, ..old(self)@ }),
            old(self)@.wf() ==> final(self)@.wf(),
    {
        self.buffer_size = buffer_size;
    }

    /// Installs the handler for received payloads.
    pub fn on_receive(&mut self)
        requires
            !old(self)@.started,
            !old(self)@.callbacks.receive,
        ensures
            final(self)@ == (ServerView {
                callbacks: CallbackSet { receive: true, ..old(self)@.callbacks },
                ..old(self)@
            }),
            old(self)@.wf() ==> final(self)@.wf(),
    {
        self.callbacks.receive = true;
    }

    /// Installs the handler for new clients.
    pub fn on_new_client(&mut self)
        requires
            !old(self)@.started,
            !old(self)@.callbacks.new_client,
        ensures
            final(self)@ == (ServerView {
                callbacks: CallbackSet { new_client: true, ..old(self)@.callbacks },
                ..old(self)@
            }),
            old(self)@.wf() ==> final(self)@.wf(),
    {
        self.callbacks.new_client = true;
    }

    /// Installs the handler for disconnected clients.
    pub fn on_client_disconnect(&mut self)
        requires
            !old(self)@.started,
            !old(self)@.callbacks.disconnect,
        ensures
            final(self)@ == (ServerView {
                callbacks: CallbackSet { disconnect: true, ..old(self)@.callbacks },
                ..old(self)@
            }),
            old(self)@.wf() ==> final(self)@.wf(),
    {
        self.callbacks.disconnect = true;
    }

    /// Installs the handler for errors.
    pub fn on_error(&mut self)
        requires
            !old(self)@.started,
            !old(self)@.callbacks.error,
        ensures
            final(self)@ == (ServerView {
                callbacks: CallbackSet { error: true, ..old(self)@.callbacks },
                ..old(self)@
            }),
            old(self)@.wf() ==> final(self)@.wf(),
    {
        self.callbacks.error = true;
    }

    /// Starts the server at an address that was read back from its
    /// canonical text. Returns `false`, and changes nothing, when no address
    /// was configured. For TCP the server then asks for a listener at
    /// [`SocketServer::bind_address`] and waits for `Event::Bound` or
    /// `Event::BindFailed`; for any other protocol nothing is left to do.
    pub fn start_at(&mut self, address: &Address) -> (ok: bool)
        ensures
            final(self)@ == old(self)@.start_at(address@).0,
            ok == old(self)@.start_at(address@).1,
            old(self)@.wf() ==> final(self)@.wf(),
    {
        if !self.defined {
            return false;
        }
        if self.phase == Phase::Listening {
            return true;
        }
        self.started = true;
        if address.protocol == Protocol::Tcp {
            self.url = bind_string(address);
            self.phase = Phase::Binding;
        } else {
            self.phase = Phase::Stopped;
        }
        true
    }

    /// Starts the server at the address that its canonical text,
    /// `local_addr`, names. Returns `false`, and changes nothing, when no
    /// address was configured.
    pub fn start(&mut self) -> (ok: bool)
        ensures
            final(self)@ == old(self)@.start().0,
            ok == old(self)@.start().1,
            old(self)@.wf() ==> final(self)@.wf(),
    {
        if !self.defined {
            return false;
        }
        let addr_obj = parse_canonical(&self.local_addr);
        self.start_at(&addr_obj)
    }

    /// Queues a payload for broadcast to every live client. The address is
    /// taken for symmetry only: delivery is never narrowed to one peer.
    /// Returns `false` when the broadcast channel does not exist.
    pub fn send(&mut self, peer_addr: String, data: Vec<u8>) -> (ok: bool)
        ensures
            final(self)@ == old(self)@.send(data@).0,
            ok == old(self)@.send(data@).1,
            old(self)@.wf() ==> final(self)@.wf(),
    {
        if self.phase == Phase::Listening {
            self.channel.send(data);
            true
        } else {
            false
        }
    }

    /// A connection was accepted from `remote`.
    fn accepted(&mut self, remote: String) -> (actions: Vec<Action>)
        requires
            old(self)@.listening(),
        ensures
            final(self)@ == old(self)@.step(Event::Accepted(remote)@).0,
            action_views(actions@) == old(self)@.step(Event::Accepted(remote)@).1,
    {
        let mut actions: Vec<Action> = Vec::new();
        let shown = peer_display(
            remote.as_str(),
            self.local_addr_obj.protocol,
            self.local_addr_obj.ip_version,
        );
        match shown {
            Some(peer) => {
                if self.registry.register(peer.clone()) {
                    actions.push(Action::NewClient(peer));
                } else {
                    actions.push(Action::Error(SocketServerErrorType::Connection));
                }
            },
            None => {
                actions.push(Action::Error(SocketServerErrorType::Connection));
            },
        }
        assert(action_views(actions@) =~= old(self)@.step(Event::Accepted(remote)@).1);
        actions
    }

    /// A read on the peer's connection filled `buffer`.
    fn received(&mut self, peer: String, buffer: Vec<u8>) -> (actions: Vec<Action>)
        requires
            old(self)@.listening(),
        ensures
            final(self)@ == old(self)@.step(Event::Data { peer, buffer }@).0,
            action_views(actions@) == old(self)@.step(Event::Data { peer, buffer }@).1,
    {
        let mut actions: Vec<Action> = Vec::new();
        if self.registry.tracks(&peer) {
            let payload = trim_payload(&buffer);
            let queued = payload.clone();
            assert(queued@ =~= payload@);
            self.channel.send(queued);
            actions.push(Action::Receive { peer, payload });
        }
        assert(action_views(actions@) =~= old(self)@.step(Event::Data { peer, buffer }@).1);
        actions
    }

    /// A read on the peer's connection failed.
    fn read_failed(&mut self, peer: String) -> (actions: Vec<Action>)
        requires
            old(self)@.listening(),
        ensures
            final(self)@ == old(self)@.step(Event::ReadFailed(peer)@).0,
            action_views(actions@) == old(self)@.step(Event::ReadFailed(peer)@).1,
    {
        let mut actions: Vec<Action> = Vec::new();
        proof {
            lemma_without(self@.registry.live, peer@);
            lemma_without(self@.registry.lingering, peer@);
        }
        if self.registry.close(&peer) {
            actions.push(Action::Error(SocketServerErrorType::Communication));
            actions.push(Action::Disconnect(peer));
        }
        assert(action_views(actions@) =~= old(self)@.step(Event::ReadFailed(peer)@).1);
        actions
    }

    /// The accept loop asks for the next payload to write.
    fn poll(&mut self) -> (actions: Vec<Action>)
        requires
            old(self)@.listening(),
        ensures
            final(self)@ == old(self)@.step(Event::Poll@).0,
            action_views(actions@) == old(self)@.step(Event::Poll@).1,
    {
        let mut actions: Vec<Action> = Vec::new();
        match self.channel.try_recv() {
            Some(payload) => {
                let targets = self.registry.targets();
                actions.push(Action::Broadcast { payload, targets });
            },
            None => {},
        }
        assert(action_views(actions@) =~= old(self)@.step(Event::Poll@).1);
        actions
    }

    /// A broadcast write to the peer failed.
    fn write_failed(&mut self, peer: String) -> (actions: Vec<Action>)
        requires
            old(self)@.listening(),
        ensures
            final(self)@ == old(self)@.step(Event::WriteFailed(peer)@).0,
            action_views(actions@) == old(self)@.step(Event::WriteFailed(peer)@).1,
    {
        let mut actions: Vec<Action> = Vec::new();
        if self.registry.prune(&peer) {
            actions.push(Action::Error(SocketServerErrorType::Communication));
        }
        assert(action_views(actions@) =~= old(self)@.step(Event::WriteFailed(peer)@).1);
        actions
    }

    /// Takes in what happened on a socket and says what is to be done.
    ///
    /// The state moves as [`ServerView::step`] says, and the actions are
    /// exactly those it lists, in order. The embedding program carries out
    /// each action for which [`SocketServer::delivers`] holds.
    pub fn handle(&mut self, event: Event) -> (actions: Vec<Action>)
        ensures
            final(self)@ == old(self)@.step(event@).0,
            action_views(actions@) == old(self)@.step(event@).1,
            old(self)@.wf() ==> final(self)@.wf(),
    {
        proof {
            if self@.wf() {
                lemma_step_keeps_wf(self@, event@);
            }
        }
        match event {
            Event::Bound => {
                if self.phase == Phase::Binding {
                    self.phase = Phase::Listening;
                }
                let actions: Vec<Action> = Vec::new();
                assert(action_views(actions@) =~= seq![]);
                actions
            },
            Event::BindFailed => {
                let mut actions: Vec<Action> = Vec::new();
                if self.phase == Phase::Binding {
                    self.phase = Phase::Stopped;
                    self.started = false;
                    actions.push(Action::Error(SocketServerErrorType::Connection));
                }
                assert(action_views(actions@) =~= old(self)@.step(event@).1);
                actions
            },
            other => {
                if self.phase != Phase::Listening {
                    let actions: Vec<Action> = Vec::new();
                    assert(action_views(actions@) =~= seq![]);
                    return actions;
                }
                match other {
                    Event::Accepted(remote) => self.accepted(remote),
                    Event::Data { peer, buffer } => self.received(peer, buffer),
                    Event::ReadFailed(peer) => self.read_failed(peer),
                    Event::Poll => self.poll(),
                    Event::WriteFailed(peer) => self.write_failed(peer),
                    Event::AcceptFailed => {
                        let mut actions: Vec<Action> = Vec::new();
                        actions.push(Action::Error(SocketServerErrorType::Connection));
                        assert(action_views(actions@) =~= old(self)@.step(event@).1);
                        actions
                    },
                    // A read that found nothing waiting changes nothing.
                    _ => {
                        let actions: Vec<Action> = Vec::new();
                        assert(action_views(actions@) =~= seq![]);
                        actions
                    },
                }
            },
        }
    }

    /// Whether an address was configured.
    pub fn is_defined(&self) -> (defined: bool)
        ensures
            defined == self@.defined,
    {
        self.defined
    }

    /// Whether the server was started and no bind has failed since.
    pub fn is_started(&self) -> (started: bool)
        ensures
            started == self@.started,
    {
        self.started
    }

    /// Where the server stands between `start` and a running listener.
    pub fn phase(&self) -> (phase: Phase)
        ensures
            phase == self@.phase,
    {
        self.phase
    }

    /// Size of a receive buffer.
    pub fn buffer_size(&self) -> (size: usize)
        ensures
            size == self@.buffer_size,
    {
        self.buffer_size
    }

    /// The text at which the embedding program is to bind the listener,
    /// while the server waits for that.
    pub fn bind_address(&self) -> (target: Option<String>)
        ensures
            target is Some <==> self@.phase == Phase::Binding,
            target matches Some(url) ==> url@ == self@.url,
    {
        if self.phase == Phase::Binding {
            Some(self.url.clone())
        } else {
            None
        }
    }

    /// A fresh receive buffer: `buffer_size` bytes, all zero.
    pub fn receive_buffer(&self) -> (buffer: Vec<u8>)
        ensures
            buffer@ == Seq::new(self@.buffer_size, |i: int| 0u8),
    {
        zeroed_buffer(self.buffer_size)
    }

    /// Whether the peer is connected: its connection was accepted and no
    /// read on it has failed.
    pub fn status(&self, peer_addr: &String) -> (status: SocketServerStatus)
        ensures
            status == if self@.registry.tracks(peer_addr@) {
                SocketServerStatus::Connected
            } else {
                SocketServerStatus::Disconnected
            },
    {
        if self.registry.tracks(peer_addr) {
            SocketServerStatus::Connected
        } else {
            SocketServerStatus::Disconnected
        }
    }

    /// Whether the embedding program is to carry out the action: a notice
    /// only when its handler is installed, a broadcast always.
    pub fn delivers(&self, action: &Action) -> (wanted: bool)
        ensures
            wanted == self@.callbacks.wants(action@),
    {
        self.callbacks.delivers(action)
    }

    /// Which handlers are installed.
    pub fn callbacks(&self) -> (set: CallbackSet)
        ensures
            set == self@.callbacks,
    {
        self.callbacks
    }
}

} // verus!
