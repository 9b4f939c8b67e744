use socket_server::channel::BroadcastChannel;
use socket_server::registry::ConnectionRegistry;

fn name(s: &str) -> String {
    s.to_string()
}

#[test]
fn new_registry_holds_no_peer() {
    let registry = ConnectionRegistry::new();
    assert!(!registry.tracks(&name("a")));
    assert_eq!(registry.live_count(), 0);
    assert_eq!(registry.targets(), Vec::<String>::new());
}

#[test]
fn registered_peers_are_targets_in_connection_order() {
    let mut registry = ConnectionRegistry::new();
    assert!(registry.register(name("b")));
    assert!(registry.register(name("a")));
    assert!(registry.register(name("c")));
    assert_eq!(registry.targets(), vec![name("b"), name("a"), name("c")]);
    assert_eq!(registry.live_count(), 3);
}

#[test]
fn an_address_is_registered_only_once() {
    let mut registry = ConnectionRegistry::new();
    assert!(registry.register(name("a")));
    assert!(!registry.register(name("a")));
    assert_eq!(registry.targets(), vec![name("a")]);
}

#[test]
fn closing_takes_a_peer_out() {
    let mut registry = ConnectionRegistry::new();
    registry.register(name("a"));
    registry.register(name("b"));
    registry.register(name("c"));
    assert!(registry.close(&name("b")));
    assert!(!registry.tracks(&name("b")));
    assert_eq!(registry.targets(), vec![name("a"), name("c")]);
    assert!(!registry.close(&name("b")));
    assert_eq!(registry.targets(), vec![name("a"), name("c")]);
}

#[test]
fn pruned_peer_lingers_until_it_is_closed() {
    let mut registry = ConnectionRegistry::new();
    registry.register(name("a"));
    registry.register(name("b"));
    assert!(registry.prune(&name("a")));
    assert!(!registry.is_live(&name("a")));
    assert!(registry.tracks(&name("a")));
    assert_eq!(registry.targets(), vec![name("b")]);
    assert!(!registry.prune(&name("a")));
    assert!(!registry.register(name("a")));
    assert!(registry.close(&name("a")));
    assert!(!registry.tracks(&name("a")));
    assert!(registry.register(name("a")));
    assert_eq!(registry.targets(), vec![name("b"), name("a")]);
}

#[test]
fn pruning_an_unknown_peer_changes_nothing() {
    let mut registry = ConnectionRegistry::new();
    registry.register(name("a"));
    assert!(!registry.prune(&name("z")));
    assert_eq!(registry.targets(), vec![name("a")]);
}

#[test]
fn channel_is_first_in_first_out() {
    let mut channel = BroadcastChannel::new();
    assert_eq!(channel.len(), 0);
    assert_eq!(channel.try_recv(), None);
    channel.send(vec![1]);
    channel.send(vec![2, 2]);
    channel.send(Vec::new());
    assert_eq!(channel.len(), 3);
    assert_eq!(channel.try_recv(), Some(vec![1]));
    assert_eq!(channel.try_recv(), Some(vec![2, 2]));
    assert_eq!(channel.try_recv(), Some(Vec::new()));
    assert_eq!(channel.try_recv(), None);
}
