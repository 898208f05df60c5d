use carina::registry::{on_explore_network, PeerRegistry};

fn address(text: &str) -> String {
    String::from(text)
}

#[test]
fn registry_operations() {
    let mut registry = PeerRegistry::new(address("0.0.0.0:1"), 3);
    assert_eq!(registry.len(), 0);
    assert!(registry.insert(address("1.2.3.4:5"), vec![1; 32], 100));
    assert!(registry.insert(address("6.7.8.9:10"), vec![2; 32], 101));
    assert_eq!(registry.len(), 2);
    assert!(registry.contains(&address("1.2.3.4:5")));
    assert!(!registry.contains(&address("1.2.3.4:6")));
    assert_eq!(registry.public_key(&address("6.7.8.9:10")), Some(vec![2; 32]));
    assert_eq!(registry.public_key(&address("9.9.9.9:9")), None);
    assert_eq!(registry.addresses(), vec![address("1.2.3.4:5"), address("6.7.8.9:10")]);

    // keys are unique: a second insert replaces
    assert!(registry.insert(address("1.2.3.4:5"), vec![3; 32], 102));
    assert_eq!(registry.len(), 2);
    assert_eq!(registry.public_key(&address("1.2.3.4:5")), Some(vec![3; 32]));

    assert!(registry.remove(&address("6.7.8.9:10")));
    assert!(!registry.remove(&address("6.7.8.9:10")));
    assert_eq!(registry.len(), 1);
}

#[test]
fn registry_never_holds_the_node_itself() {
    let mut registry = PeerRegistry::new(address("0.0.0.0:1"), 3);
    assert!(!registry.insert(address("0.0.0.0:1"), vec![1; 32], 100));
    assert_eq!(registry.len(), 0);
    registry.get_peers_ack(&vec![address("0.0.0.0:1"), address(""), address("5.5.5.5:5")], 7);
    assert_eq!(registry.addresses(), vec![address("5.5.5.5:5")]);
    assert!(!registry.contains(&address("0.0.0.0:1")));
}

#[test]
fn strikes_evict_at_the_limit() {
    let mut registry = PeerRegistry::new(address("0.0.0.0:1"), 3);
    let peer = address("1.2.3.4:5");
    registry.insert(peer.clone(), vec![1; 32], 100);
    assert_eq!(registry.strike(&address("nobody")), None);
    assert_eq!(registry.strike(&peer), Some(1));
    assert_eq!(registry.strike(&peer), Some(2));
    assert!(registry.touch(&peer, 200));
    assert!(!registry.touch(&address("nobody"), 200));
    assert_eq!(registry.strike(&peer), Some(1));
    assert_eq!(registry.strike(&peer), Some(2));
    assert!(registry.contains(&peer));
    assert_eq!(registry.strike(&peer), Some(3));
    assert!(!registry.contains(&peer));
    assert_eq!(registry.strike(&peer), None);
}

#[test]
fn known_peers_keep_what_is_known_of_them() {
    let mut registry = PeerRegistry::new(address("0.0.0.0:1"), 3);
    registry.insert(address("1.2.3.4:5"), vec![1; 32], 100);
    registry.get_peers_ack(&vec![address("1.2.3.4:5"), address("6.7.8.9:10")], 7);
    assert_eq!(registry.public_key(&address("1.2.3.4:5")), Some(vec![1; 32]));
    assert_eq!(registry.public_key(&address("6.7.8.9:10")), Some(Vec::new()));
    assert_eq!(
        on_explore_network(&registry).peers,
        vec![address("1.2.3.4:5"), address("6.7.8.9:10")]
    );
    let copy = registry.snapshot();
    registry.remove(&address("1.2.3.4:5"));
    assert_eq!(copy.addresses(), vec![address("1.2.3.4:5"), address("6.7.8.9:10")]);
    assert_eq!(copy.public_key(&address("1.2.3.4:5")), Some(vec![1; 32]));
    assert_eq!(registry.addresses(), vec![address("6.7.8.9:10")]);
}
