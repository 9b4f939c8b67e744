use socket_server::{
    Action, Event, IpVersion, Protocol, SocketServer, SocketServerErrorType, SocketServerStatus,
};

fn slot(payload: &[u8], size: usize) -> Vec<u8> {
    let mut buf = vec![0u8; size];
    buf[..payload.len()].copy_from_slice(payload);
    buf
}

fn running() -> SocketServer {
    let mut server =
        SocketServer::new_with_config(Protocol::Tcp, "127.0.0.1".to_string(), 1234, IpVersion::V4);
    server.set_buffer_size(1024);
    server.on_new_client();
    server.on_receive();
    server.on_client_disconnect();
    server.on_error();
    assert!(server.start());
    assert_eq!(server.bind_address(), Some("127.0.0.1:1234".to_string()));
    assert_eq!(server.handle(Event::Bound), vec![]);
    server
}

fn new_clients(log: &[Action]) -> Vec<String> {
    let mut peers = Vec::new();
    for action in log {
        if let Action::NewClient(peer) = action {
            peers.push(peer.clone());
        }
    }
    peers
}

fn disconnects_of(log: &[Action], peer: &str) -> usize {
    log.iter().filter(|action| **action == Action::Disconnect(peer.to_string())).count()
}

fn announced(log: &[Action]) -> Vec<String> {
    let mut peers: Vec<String> = Vec::new();
    for action in log {
        match action {
            Action::NewClient(peer) => peers.push(peer.clone()),
            Action::Disconnect(peer) => peers.retain(|known| known != peer),
            _ => {},
        }
    }
    peers
}

#[test]
fn two_clients_one_welcome() {
    let mut server = running();
    let mut log: Vec<Action> = Vec::new();
    log.extend(server.handle(Event::Accepted("127.0.0.1:50001".to_string())));
    log.extend(server.handle(Event::Accepted("127.0.0.1:50002".to_string())));
    let a = "/ipv4/127.0.0.1/tcp/50001".to_string();
    let b = "/ipv4/127.0.0.1/tcp/50002".to_string();
    assert_eq!(new_clients(&log), vec![a.clone(), b.clone()]);

    let buffer = slot(b"welcome", server.buffer_size());
    assert_eq!(buffer.len(), 1024);
    let received = server.handle(Event::Data { peer: a.clone(), buffer });
    assert_eq!(received, vec![Action::Receive { peer: a.clone(), payload: b"welcome".to_vec() }]);
    for action in &received {
        assert!(server.delivers(action));
    }
    let written = server.handle(Event::Poll);
    assert_eq!(
        written,
        vec![Action::Broadcast {
            payload: b"welcome".to_vec(),
            targets: vec![a.clone(), b.clone()]
        }]
    );
    if let Action::Broadcast { payload, .. } = &written[0] {
        assert_eq!(payload.len(), 7);
    }
    log.extend(received);
    log.extend(written);

    log.extend(server.handle(Event::ReadFailed(a.clone())));
    log.extend(server.handle(Event::ReadFailed(a.clone())));
    log.extend(server.handle(Event::WouldBlock(a.clone())));
    assert!(server.send(a.clone(), b"again".to_vec()));
    let later = server.handle(Event::Poll);
    assert_eq!(
        later,
        vec![Action::Broadcast { payload: b"again".to_vec(), targets: vec![b.clone()] }]
    );
    log.extend(later);
    assert_eq!(disconnects_of(&log, &a), 1);
    assert_eq!(disconnects_of(&log, &b), 0);
    assert_eq!(server.status(&a), SocketServerStatus::Disconnected);
    assert_eq!(server.status(&b), SocketServerStatus::Connected);
}

#[test]
fn every_client_gets_each_payload_in_the_order_sent() {
    let mut server = running();
    let mut peers = Vec::new();
    for n in 0..5 {
        let actions = server.handle(Event::Accepted(format!("10.0.0.{}:4000", n)));
        peers.extend(new_clients(&actions));
    }
    assert_eq!(peers.len(), 5);
    let sender = peers[2].clone();
    for text in ["one", "two", "three"] {
        let buffer = slot(text.as_bytes(), 1024);
        assert_eq!(
            server.handle(Event::Data { peer: sender.clone(), buffer }),
            vec![Action::Receive { peer: sender.clone(), payload: text.as_bytes().to_vec() }]
        );
    }
    for text in ["one", "two", "three"] {
        assert_eq!(
            server.handle(Event::Poll),
            vec![Action::Broadcast { payload: text.as_bytes().to_vec(), targets: peers.clone() }]
        );
    }
    assert_eq!(server.handle(Event::Poll), vec![]);
}

#[test]
fn payloads_of_different_senders_and_of_send_share_one_queue() {
    let mut server = running();
    let a = new_clients(&server.handle(Event::Accepted("h:1".to_string())))[0].clone();
    let b = new_clients(&server.handle(Event::Accepted("h:2".to_string())))[0].clone();
    server.handle(Event::Data { peer: b.clone(), buffer: slot(b"from b", 16) });
    assert!(server.send(String::new(), b"from host".to_vec()));
    server.handle(Event::Data { peer: a.clone(), buffer: slot(b"from a", 16) });
    let targets = vec![a.clone(), b.clone()];
    for text in ["from b", "from host", "from a"] {
        assert_eq!(
            server.handle(Event::Poll),
            vec![Action::Broadcast { payload: text.as_bytes().to_vec(), targets: targets.clone() }]
        );
    }
}

#[test]
fn received_payload_is_cut_at_its_first_zero() {
    let mut server = running();
    let a = new_clients(&server.handle(Event::Accepted("h:1".to_string())))[0].clone();
    let received = server.handle(Event::Data { peer: a.clone(), buffer: slot(b"ab\0cd", 1024) });
    assert_eq!(received, vec![Action::Receive { peer: a.clone(), payload: b"ab".to_vec() }]);
    assert_eq!(
        server.handle(Event::Poll),
        vec![Action::Broadcast { payload: b"ab".to_vec(), targets: vec![a.clone()] }]
    );
}

#[test]
fn disconnect_is_told_once_and_writes_stop() {
    let mut server = running();
    let a = new_clients(&server.handle(Event::Accepted("h:1".to_string())))[0].clone();
    let b = new_clients(&server.handle(Event::Accepted("h:2".to_string())))[0].clone();
    let mut log: Vec<Action> = Vec::new();
    log.extend(server.handle(Event::ReadFailed(a.clone())));
    assert_eq!(
        log,
        vec![Action::Error(SocketServerErrorType::Communication), Action::Disconnect(a.clone())]
    );
    let later = vec![
        Event::ReadFailed(a.clone()),
        Event::Data { peer: a.clone(), buffer: slot(b"late", 8) },
        Event::Data { peer: b.clone(), buffer: slot(b"live", 8) },
        Event::WriteFailed(a.clone()),
        Event::Poll,
        Event::Accepted("h:3".to_string()),
        Event::Poll,
        Event::ReadFailed(a.clone()),
    ];
    for event in later {
        log.extend(server.handle(event));
    }
    assert_eq!(disconnects_of(&log, &a), 1);
    for action in &log {
        if let Action::Broadcast { targets, .. } = action {
            assert!(!targets.contains(&a));
        }
    }
    assert_eq!(server.status(&a), SocketServerStatus::Disconnected);
}

#[test]
fn connected_peers_are_those_announced_and_not_disconnected() {
    let mut server = running();
    let events = vec![
        Event::Accepted("h:1".to_string()),
        Event::Accepted("h:2".to_string()),
        Event::Accepted("h:2".to_string()),
        Event::Accepted("bad".to_string()),
        Event::Data { peer: "/ipv4/h/tcp/1".to_string(), buffer: slot(b"x", 4) },
        Event::WriteFailed("/ipv4/h/tcp/2".to_string()),
        Event::Poll,
        Event::ReadFailed("/ipv4/h/tcp/1".to_string()),
        Event::Accepted("h:3".to_string()),
        Event::Accepted("h:1".to_string()),
        Event::ReadFailed("/ipv4/h/tcp/2".to_string()),
        Event::AcceptFailed,
    ];
    let known: Vec<String> = (1..=3).map(|n| format!("/ipv4/h/tcp/{}", n)).collect();
    let mut log: Vec<Action> = Vec::new();
    for event in events {
        log.extend(server.handle(event));
        let told = announced(&log);
        for peer in &known {
            let connected = server.status(peer) == SocketServerStatus::Connected;
            assert_eq!(connected, told.contains(peer));
        }
    }
    assert_eq!(announced(&log), vec![known[2].clone(), known[0].clone()]);
}

#[test]
fn full_test() {
    let mut server_obj =
        SocketServer::new_with_config(Protocol::Tcp, "127.0.0.1".to_string(), 1234, IpVersion::V4);
    println!("server_obj.local_addr: {}", server_obj.local_addr);
    let on_receive = |sender: String, income_data: Vec<u8>| {
        let vec_to_string = String::from_utf8(income_data.clone()).unwrap();
        println!("income callback => {} [ {} ]: {}", sender, income_data.len(), vec_to_string);
    };
    let on_new_client = |on_new_client: String| {
        println!("new client connected : {}", on_new_client);
    };
    let on_client_disconnect = |on_new_client: String| {
        println!("client disconnected : {}", on_new_client);
    };
    let on_error = |data: SocketServerErrorType| {
        println!("on error : {:?}", data);
    };
    server_obj.on_receive();
    server_obj.on_new_client();
    server_obj.on_client_disconnect();
    server_obj.on_error();
    server_obj.start();
    let mut actions = server_obj.handle(Event::Bound);
    server_obj.send(String::from("127.0.0.1:1234"), "welcome".as_bytes().to_vec());
    actions.extend(server_obj.handle(Event::Poll));
    for action in actions {
        if server_obj.delivers(&action) {
            match action {
                Action::Receive { peer, payload } => on_receive(peer, payload),
                Action::NewClient(peer) => on_new_client(peer),
                Action::Disconnect(peer) => on_client_disconnect(peer),
                Action::Error(kind) => on_error(kind),
                Action::Broadcast { payload, targets } => {
                    assert_eq!(payload, "welcome".as_bytes().to_vec());
                    assert!(targets.is_empty());
                },
            }
        }
    }

    assert!(true)
}
