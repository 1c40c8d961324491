use beyond_blue::bootstrap::circuit_dial_addr;
use beyond_blue::bootstrap::circuit_listen_addr;
use beyond_blue::bootstrap::client_listen_addr;
use beyond_blue::bootstrap::dial_targets;
use beyond_blue::bootstrap::listen_step;
use beyond_blue::bootstrap::next_stage;
use beyond_blue::bootstrap::relay_candidates;
use beyond_blue::bootstrap::BootstrapStage;
use beyond_blue::bootstrap::ListenStep;
use beyond_blue::bootstrap::ObserveState;
use beyond_blue::bootstrap::ObserveStep;
use beyond_blue::bootstrap::SwarmInput;
use beyond_blue::BlueError;
use beyond_blue::WebPeerInfo;
use beyond_blue::WebRelayInfo;

#[test]
fn listen_stage_waits_until_grace_period() {
    assert!(matches!(
        listen_step(&SwarmInput::NewListenAddr(String::from("/ip4/1.2.3.4/tcp/5"))),
        ListenStep::KeepWaiting
    ));
    assert!(matches!(
        listen_step(&SwarmInput::GracePeriodElapsed),
        ListenStep::Done
    ));
    assert!(matches!(
        listen_step(&SwarmInput::StreamClosed),
        ListenStep::Fail(BlueError::Local(m)) if m == "swarm stream was closed"
    ));
    assert!(matches!(
        listen_step(&SwarmInput::Dialing),
        ListenStep::Fail(BlueError::Local(m)) if m == "unexpected swarm event"
    ));
}

#[test]
fn observe_stage_needs_both_confirmations() {
    let mut st = ObserveState::new();
    assert!(matches!(
        st.step(&SwarmInput::ConnectionEstablished(String::from("r"))),
        ObserveStep::KeepWaiting
    ));
    assert!(matches!(st.step(&SwarmInput::IdentifySent), ObserveStep::KeepWaiting));
    assert!(matches!(st.step(&SwarmInput::Dialing), ObserveStep::KeepWaiting));
    assert!(matches!(
        st.step(&SwarmInput::IdentifyReceived(String::from("/ip4/5.6.7.8/tcp/9"))),
        ObserveStep::Done
    ));
}

#[test]
fn observe_stage_fails_on_connection_error() {
    let mut st = ObserveState::new();
    assert!(matches!(
        st.step(&SwarmInput::OutgoingConnectionError(String::from("refused"))),
        ObserveStep::Fail(BlueError::Local(m)) if m == "refused"
    ));
    let mut st2 = ObserveState::new();
    assert!(matches!(
        st2.step(&SwarmInput::StreamClosed),
        ObserveStep::Fail(BlueError::Local(m)) if m == "swarm stream was closed"
    ));
}

#[test]
fn relay_candidates_join_address_and_identifier() {
    let info = WebRelayInfo {
        peer_id: String::from("12D3KooWRelay"),
        ips: vec![
            String::from("/ip4/127.0.0.1/tcp/9000"),
            String::from("/ip4/10.1.1.1/tcp/9000"),
        ],
    };
    assert_eq!(
        relay_candidates(&info),
        vec![
            String::from("/ip4/127.0.0.1/tcp/9000/p2p/12D3KooWRelay"),
            String::from("/ip4/10.1.1.1/tcp/9000/p2p/12D3KooWRelay"),
        ]
    );
}

#[test]
fn circuit_addresses_have_the_relay_prefix() {
    let relay = String::from("/ip4/127.0.0.1/tcp/9000/p2p/12D3KooWRelay");
    assert_eq!(
        circuit_listen_addr(&relay),
        "/ip4/127.0.0.1/tcp/9000/p2p/12D3KooWRelay/p2p-circuit"
    );
    assert_eq!(
        circuit_dial_addr(&relay, &String::from("12D3KooWPeer")),
        "/ip4/127.0.0.1/tcp/9000/p2p/12D3KooWRelay/p2p-circuit/p2p/12D3KooWPeer"
    );
}

#[test]
fn dial_targets_exclude_this_node() {
    let peers = vec![
        WebPeerInfo { addr: String::from("p1") },
        WebPeerInfo { addr: String::from("self") },
        WebPeerInfo { addr: String::from("p2") },
        WebPeerInfo { addr: String::from("p3") },
    ];
    let relay = String::from("/ip4/127.0.0.1/tcp/9000/p2p/r");
    assert_eq!(
        dial_targets(&peers, &String::from("self"), &relay),
        vec![
            String::from("/ip4/127.0.0.1/tcp/9000/p2p/r/p2p-circuit/p2p/p1"),
            String::from("/ip4/127.0.0.1/tcp/9000/p2p/r/p2p-circuit/p2p/p2"),
            String::from("/ip4/127.0.0.1/tcp/9000/p2p/r/p2p-circuit/p2p/p3"),
        ]
    );
}

#[test]
fn client_listens_on_every_interface() {
    assert_eq!(client_listen_addr(), "/ip4/0.0.0.0/tcp/0");
}

#[test]
fn stages_run_in_protocol_order() {
    let s = BootstrapStage::Listen;
    let s = next_stage(&s);
    assert!(matches!(s, BootstrapStage::FetchDirectory));
    let s = next_stage(&s);
    assert!(matches!(s, BootstrapStage::ObserveRelay));
    let s = next_stage(&s);
    assert!(matches!(s, BootstrapStage::Reserve));
    let s = next_stage(&s);
    assert!(matches!(s, BootstrapStage::DialPeers));
    let s = next_stage(&s);
    assert!(matches!(s, BootstrapStage::Steady));
    assert!(matches!(next_stage(&s), BootstrapStage::Steady));
}
