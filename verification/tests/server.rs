use socket_server::address::Address;
use socket_server::callbacks::CallbackSet;
use socket_server::{
    Action, Event, IpVersion, Phase, Protocol, SocketServer, SocketServerErrorType,
    SocketServerStatus,
};

fn tcp_server() -> SocketServer {
    SocketServer::new_with_config(Protocol::Tcp, "127.0.0.1".to_string(), 1234, IpVersion::V4)
}

fn listening_server() -> SocketServer {
    let mut server = tcp_server();
    assert!(server.start());
    assert_eq!(server.handle(Event::Bound), vec![]);
    server
}

fn connect(server: &mut SocketServer, remote: &str) -> String {
    let actions = server.handle(Event::Accepted(remote.to_string()));
    match actions.as_slice() {
        [Action::NewClient(peer)] => peer.clone(),
        other => panic!("not taken in: {:?}", other),
    }
}

#[test]
fn new_server_has_the_defaults() {
    let server = SocketServer::new();
    assert!(!server.is_defined());
    assert!(!server.is_started());
    assert_eq!(server.phase(), Phase::Stopped);
    assert_eq!(server.buffer_size(), 1024);
    assert_eq!(server.local_addr, "");
    assert_eq!(server.bind_address(), None);
    assert_eq!(
        server.callbacks(),
        CallbackSet { new_client: false, receive: false, disconnect: false, error: false }
    );
}

#[test]
fn start_before_configure_is_refused() {
    let mut server = SocketServer::new();
    assert!(!server.start());
    assert!(!server.is_started());
    assert_eq!(server.phase(), Phase::Stopped);
    assert_eq!(server.bind_address(), None);
    assert!(!server.send("x".to_string(), vec![1]));
}

#[test]
fn start_asks_for_a_listener_at_the_bind_text() {
    let mut server = tcp_server();
    assert!(server.is_defined());
    assert!(server.start());
    assert!(server.is_started());
    assert_eq!(server.phase(), Phase::Binding);
    assert_eq!(server.bind_address(), Some("127.0.0.1:1234".to_string()));
}

#[test]
fn set_config_replaces_the_address() {
    let mut server = tcp_server();
    server.set_config(Address {
        host: "0.0.0.0".to_string(),
        port: 9000,
        protocol: Protocol::Tcp,
        ip_version: IpVersion::V4,
    });
    assert_eq!(server.local_addr, "/ipv4/0.0.0.0/tcp/9000");
    assert!(server.start());
    assert_eq!(server.bind_address(), Some("0.0.0.0:9000".to_string()));
}

#[test]
fn set_config_configures_a_new_server() {
    let mut server = SocketServer::new();
    server.set_config(Address {
        host: "localhost".to_string(),
        port: 1,
        protocol: Protocol::Tcp,
        ip_version: IpVersion::V4,
    });
    assert!(server.is_defined());
    assert!(server.start());
    assert_eq!(server.bind_address(), Some("localhost:1".to_string()));
}

#[test]
fn start_reads_the_address_back_from_local_addr() {
    let mut server = tcp_server();
    server.local_addr = "/ipv4/192.168.1.9/tcp/77".to_string();
    assert!(server.start());
    assert_eq!(server.bind_address(), Some("192.168.1.9:77".to_string()));
}

#[test]
fn start_with_udp_asks_for_no_listener() {
    let mut server =
        SocketServer::new_with_config(Protocol::Udp, "127.0.0.1".to_string(), 1234, IpVersion::V4);
    assert!(server.start());
    assert!(server.is_started());
    assert_eq!(server.phase(), Phase::Stopped);
    assert_eq!(server.bind_address(), None);
}

#[test]
fn start_with_ipv6_binds_what_the_canonical_text_reads_back_as() {
    let mut server =
        SocketServer::new_with_config(Protocol::Tcp, "::1".to_string(), 80, IpVersion::V6);
    assert!(server.start());
    assert_eq!(server.bind_address(), Some(":0".to_string()));
}

#[test]
fn start_at_uses_the_address_given() {
    let mut server = tcp_server();
    let address = Address {
        host: "example".to_string(),
        port: 8,
        protocol: Protocol::Tcp,
        ip_version: IpVersion::V4,
    };
    assert!(server.start_at(&address));
    assert_eq!(server.bind_address(), Some("example:8".to_string()));
    let mut unset = SocketServer::new();
    assert!(!unset.start_at(&address));
    assert_eq!(unset.bind_address(), None);
}

#[test]
fn failed_bind_is_reported_and_stops_the_server() {
    let mut server = tcp_server();
    assert!(server.start());
    let actions = server.handle(Event::BindFailed);
    assert_eq!(actions, vec![Action::Error(SocketServerErrorType::Connection)]);
    assert!(!server.is_started());
    assert_eq!(server.phase(), Phase::Stopped);
    assert_eq!(server.bind_address(), None);
    assert!(!server.send("x".to_string(), vec![1]));
    assert_eq!(server.handle(Event::BindFailed), vec![]);
}

#[test]
fn bound_listener_opens_the_channel() {
    let mut server = listening_server();
    assert_eq!(server.phase(), Phase::Listening);
    assert_eq!(server.bind_address(), None);
    assert!(server.send("ignored".to_string(), vec![7, 0, 8]));
    assert_eq!(
        server.handle(Event::Poll),
        vec![Action::Broadcast { payload: vec![7, 0, 8], targets: vec![] }]
    );
    assert_eq!(server.handle(Event::Poll), vec![]);
}

#[test]
fn start_on_a_listening_server_changes_nothing() {
    let mut server = listening_server();
    assert!(server.start());
    assert_eq!(server.phase(), Phase::Listening);
}

#[test]
fn events_before_the_listener_is_bound_are_ignored() {
    let mut server = tcp_server();
    assert_eq!(server.handle(Event::Bound), vec![]);
    assert_eq!(server.phase(), Phase::Stopped);
    assert_eq!(server.handle(Event::Accepted("127.0.0.1:5".to_string())), vec![]);
    assert_eq!(server.handle(Event::AcceptFailed), vec![]);
    assert_eq!(server.handle(Event::Poll), vec![]);
    assert_eq!(
        server.status(&"/ipv4/127.0.0.1/tcp/5".to_string()),
        SocketServerStatus::Disconnected
    );
}

#[test]
fn buffer_size_is_set_and_used_for_receive_buffers() {
    let mut server = tcp_server();
    assert_eq!(server.receive_buffer(), vec![0u8; 1024]);
    server.set_buffer_size(3);
    assert_eq!(server.buffer_size(), 3);
    assert_eq!(server.receive_buffer(), vec![0u8, 0, 0]);
}

#[test]
fn handlers_are_installed_one_by_one() {
    let mut server = tcp_server();
    let receive = Action::Receive { peer: "p".to_string(), payload: vec![1] };
    let new_client = Action::NewClient("p".to_string());
    let disconnect = Action::Disconnect("p".to_string());
    let error = Action::Error(SocketServerErrorType::Communication);
    let broadcast = Action::Broadcast { payload: vec![1], targets: vec![] };
    assert!(!server.delivers(&receive));
    assert!(!server.delivers(&new_client));
    assert!(!server.delivers(&disconnect));
    assert!(!server.delivers(&error));
    assert!(server.delivers(&broadcast));
    server.on_receive();
    assert!(server.delivers(&receive));
    assert!(!server.delivers(&new_client));
    server.on_new_client();
    assert!(server.delivers(&new_client));
    assert!(!server.delivers(&disconnect));
    server.on_client_disconnect();
    assert!(server.delivers(&disconnect));
    assert!(!server.delivers(&error));
    server.on_error();
    assert!(server.delivers(&error));
    assert_eq!(
        server.callbacks(),
        CallbackSet { new_client: true, receive: true, disconnect: true, error: true }
    );
}

#[test]
fn accepted_connection_is_registered_under_its_display_address() {
    let mut server = listening_server();
    let actions = server.handle(Event::Accepted("127.0.0.1:50001".to_string()));
    assert_eq!(actions, vec![Action::NewClient("/ipv4/127.0.0.1/tcp/50001".to_string())]);
    assert_eq!(
        server.status(&"/ipv4/127.0.0.1/tcp/50001".to_string()),
        SocketServerStatus::Connected
    );
    assert_eq!(server.status(&"127.0.0.1:50001".to_string()), SocketServerStatus::Disconnected);
}

#[test]
fn connection_that_cannot_be_taken_in_is_a_connection_error() {
    let mut server = listening_server();
    let refused = vec![Action::Error(SocketServerErrorType::Connection)];
    assert_eq!(server.handle(Event::Accepted("no port".to_string())), refused);
    assert_eq!(server.handle(Event::Accepted("[::1]:9".to_string())), refused);
    connect(&mut server, "127.0.0.1:9");
    assert_eq!(server.handle(Event::Accepted("127.0.0.1:9".to_string())), refused);
    assert_eq!(server.handle(Event::Accepted("127.0.0.1:09".to_string())), refused);
    assert_eq!(server.handle(Event::AcceptFailed), refused);
    server.handle(Event::Poll);
    assert!(server.send(String::new(), vec![1]));
    assert_eq!(
        server.handle(Event::Poll),
        vec![Action::Broadcast {
            payload: vec![1],
            targets: vec!["/ipv4/127.0.0.1/tcp/9".to_string()]
        }]
    );
}

#[test]
fn would_block_is_no_event() {
    let mut server = listening_server();
    let peer = connect(&mut server, "127.0.0.1:9");
    assert_eq!(server.handle(Event::WouldBlock(peer.clone())), vec![]);
    assert_eq!(server.status(&peer), SocketServerStatus::Connected);
    assert_eq!(server.handle(Event::Poll), vec![]);
}

#[test]
fn data_from_an_unknown_peer_is_ignored() {
    let mut server = listening_server();
    let actions =
        server.handle(Event::Data { peer: "stranger".to_string(), buffer: vec![1, 2, 0] });
    assert_eq!(actions, vec![]);
    assert_eq!(server.handle(Event::Poll), vec![]);
    assert_eq!(server.handle(Event::ReadFailed("stranger".to_string())), vec![]);
    assert_eq!(server.handle(Event::WriteFailed("stranger".to_string())), vec![]);
}

#[test]
fn failed_write_prunes_the_peer_until_its_reader_ends() {
    let mut server = listening_server();
    let a = connect(&mut server, "127.0.0.1:1");
    let b = connect(&mut server, "127.0.0.1:2");
    assert_eq!(
        server.handle(Event::WriteFailed(a.clone())),
        vec![Action::Error(SocketServerErrorType::Communication)]
    );
    assert_eq!(server.handle(Event::WriteFailed(a.clone())), vec![]);
    assert_eq!(server.status(&a), SocketServerStatus::Connected);
    assert!(server.send(String::new(), vec![5]));
    assert_eq!(
        server.handle(Event::Poll),
        vec![Action::Broadcast { payload: vec![5], targets: vec![b.clone()] }]
    );
    let from_a = server.handle(Event::Data { peer: a.clone(), buffer: vec![6, 0] });
    assert_eq!(from_a, vec![Action::Receive { peer: a.clone(), payload: vec![6] }]);
    assert_eq!(
        server.handle(Event::ReadFailed(a.clone())),
        vec![Action::Error(SocketServerErrorType::Communication), Action::Disconnect(a.clone())]
    );
    assert_eq!(server.status(&a), SocketServerStatus::Disconnected);
    assert_eq!(server.handle(Event::ReadFailed(a.clone())), vec![]);
}
