use beyond_blue::directory::get_peer_list;
use beyond_blue::directory::get_relay_info;
use beyond_blue::directory::peer_list_json;
use beyond_blue::directory::relay_info_json;
use beyond_blue::relay_loop::relay_step;
use beyond_blue::relay_loop::RelayInput;
use beyond_blue::MemoryPeerStore;
use beyond_blue::RelayInfo;
use beyond_blue::WebRelayInfo;

#[test]
fn empty_peer_list_is_an_empty_document() {
    let store = MemoryPeerStore::new();
    let peers = get_peer_list(&store);
    assert!(peers.is_empty());
    assert_eq!(peer_list_json(&peers), b"[]".to_vec());
}

#[test]
fn peer_list_document_lists_each_reservation() {
    let mut store = MemoryPeerStore::new();
    relay_step(
        &mut store,
        &RelayInput::ReservationAccepted(String::from("12D3KooWA")),
    );
    relay_step(
        &mut store,
        &RelayInput::ReservationAccepted(String::from("12D3KooWB")),
    );
    let peers = get_peer_list(&store);
    assert_eq!(peers.len(), 2);
    assert_eq!(
        peer_list_json(&peers),
        b"[{\"addr\":\"12D3KooWA\"},{\"addr\":\"12D3KooWB\"}]".to_vec()
    );
}

#[test]
fn relay_bootstrap_document_after_one_reservation() {
    let mut store = MemoryPeerStore::new();
    store.set_relay_peer_id(&String::from("12D3KooWRelay"));
    relay_step(
        &mut store,
        &RelayInput::NewListenAddr(String::from("/ip4/127.0.0.1/tcp/9000")),
    );
    relay_step(
        &mut store,
        &RelayInput::ReservationAccepted(String::from("12D3KooWClient")),
    );
    let info = get_relay_info(&store);
    assert_eq!(
        relay_info_json(&info),
        b"{\"peer_id\":\"12D3KooWRelay\",\"ips\":[\"/ip4/127.0.0.1/tcp/9000\"]}".to_vec()
    );
    let peers = get_peer_list(&store);
    assert_eq!(peers.len(), 1);
    assert_eq!(peers[0].addr, "12D3KooWClient");
}

#[test]
fn repeated_reservation_is_recorded_once() {
    let mut store = MemoryPeerStore::new();
    relay_step(
        &mut store,
        &RelayInput::ReservationAccepted(String::from("p")),
    );
    relay_step(
        &mut store,
        &RelayInput::ReservationAccepted(String::from("p")),
    );
    assert_eq!(get_peer_list(&store).len(), 1);
}

#[test]
fn other_relay_events_change_nothing() {
    let mut store = MemoryPeerStore::new();
    relay_step(&mut store, &RelayInput::OtherRelayEvent);
    relay_step(&mut store, &RelayInput::Other);
    assert!(get_peer_list(&store).is_empty());
    assert!(get_relay_info(&store).ips.is_empty());
}

#[test]
fn json_strings_are_escaped() {
    let info = WebRelayInfo::from(RelayInfo {
        peer_id: String::from("a\"b\\c\u{1}"),
        addrs: vec![String::from("/ip4/1.2.3.4/tcp/1")],
    });
    assert_eq!(
        relay_info_json(&info),
        b"{\"peer_id\":\"a\\\"b\\\\c\\u0001\",\"ips\":[\"/ip4/1.2.3.4/tcp/1\"]}".to_vec()
    );
}

#[test]
fn relay_document_mirrors_store_identity() {
    let mut store = MemoryPeerStore::new();
    store.set_relay_peer_id(&String::from("r"));
    store.append_relay_addr(String::from("/ip4/9.9.9.9/tcp/1"));
    store.append_relay_addr(String::from("/ip6/::1/tcp/2"));
    let info = get_relay_info(&store);
    assert_eq!(info.peer_id, "r");
    assert_eq!(
        info.ips,
        vec![String::from("/ip4/9.9.9.9/tcp/1"), String::from("/ip6/::1/tcp/2")]
    );
}
