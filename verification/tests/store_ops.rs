use beyond_blue::MemoryPeerStore;

#[test]
fn add_is_idempotent() {
    let mut store = MemoryPeerStore::new();
    store.add(String::from("12D3KooWPeerA"));
    store.add(String::from("12D3KooWPeerA"));
    let all = store.get_all();
    assert_eq!(all, vec![String::from("12D3KooWPeerA")]);
}

#[test]
fn add_keeps_reservation_order() {
    let mut store = MemoryPeerStore::new();
    store.add(String::from("a"));
    store.add(String::from("b"));
    store.add(String::from("a"));
    store.add(String::from("c"));
    assert_eq!(
        store.get_all(),
        vec![String::from("a"), String::from("b"), String::from("c")]
    );
}

#[test]
fn remove_drops_only_that_peer() {
    let mut store = MemoryPeerStore::new();
    store.add(String::from("a"));
    store.add(String::from("b"));
    store.remove(String::from("a"));
    assert_eq!(store.get_all(), vec![String::from("b")]);
    store.remove(String::from("missing"));
    assert_eq!(store.get_all(), vec![String::from("b")]);
}

#[test]
fn relay_addrs_never_shrink_within_session() {
    let mut store = MemoryPeerStore::new();
    store.set_relay_peer_id(&String::from("12D3KooWRelay"));
    let mut last_len = store.get_relay().addrs.len();
    assert_eq!(last_len, 0);
    store.append_relay_addr(String::from("/ip4/127.0.0.1/tcp/9000"));
    let len1 = store.get_relay().addrs.len();
    assert!(len1 >= last_len);
    last_len = len1;
    store.add(String::from("p"));
    store.remove(String::from("p"));
    store.append_relay_addr(String::from("/ip4/10.0.0.1/tcp/9000"));
    let len2 = store.get_relay().addrs.len();
    assert!(len2 >= last_len);
    assert_eq!(len2, 2);
}

#[test]
fn set_relay_peer_id_resets_addresses_keeps_peers() {
    let mut store = MemoryPeerStore::new();
    store.add(String::from("p1"));
    store.set_relay_peer_id(&String::from("relay-one"));
    store.append_relay_addr(String::from("/ip4/1.2.3.4/tcp/1"));
    store.set_relay_peer_id(&String::from("relay-two"));
    let relay = store.get_relay();
    assert_eq!(relay.peer_id, "relay-two");
    assert!(relay.addrs.is_empty());
    assert_eq!(store.get_all(), vec![String::from("p1")]);
}

#[test]
fn default_store_is_empty() {
    let store = MemoryPeerStore::default();
    assert!(store.get_all().is_empty());
    let relay = store.get_relay();
    assert_eq!(relay.peer_id, "");
    assert!(relay.addrs.is_empty());
}
