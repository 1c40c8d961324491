use beyond_blue::envelope::decode_event;
use beyond_blue::orchestrator::Action;
use beyond_blue::orchestrator::Orchestrator;
use beyond_blue::orchestrator::SteadyInput;
use beyond_blue::NetworkEvent;

#[test]
fn connection_is_announced_exactly_once() {
    let mut orch = Orchestrator::new(String::from("A"));
    let acts = orch.steady_step(SteadyInput::Connected(String::from("B")));
    assert_eq!(
        acts,
        vec![
            Action::Subscribe(String::from("B")),
            Action::Deliver(NetworkEvent::NewConnection(String::from("B"))),
        ]
    );
    let again = orch.steady_step(SteadyInput::Connected(String::from("B")));
    assert!(again.is_empty());
}

#[test]
fn announcement_comes_before_any_payload() {
    // the gossip subscription to B's topic is created by the same step that
    // announces B, so a payload can only follow the announcement
    let mut orch = Orchestrator::new(String::from("A"));
    let mut delivered: Vec<NetworkEvent<Vec<u8>>> = Vec::new();
    let mut b = Orchestrator::new(String::from("B"));
    let publish = b.steady_step(SteadyInput::LocalMessage(vec![9]));
    let payload_bytes = match &publish[0] {
        Action::Publish(_, bytes) => bytes.clone(),
        _ => panic!("expected a publish"),
    };
    for input in [
        SteadyInput::Connected(String::from("B")),
        SteadyInput::GossipMessage(payload_bytes),
    ] {
        for act in orch.steady_step(input) {
            if let Action::Deliver(ev) = act {
                delivered.push(ev);
            }
        }
    }
    assert_eq!(
        delivered,
        vec![
            NetworkEvent::NewConnection(String::from("B")),
            NetworkEvent::Event(String::from("B"), vec![9]),
        ]
    );
}

#[test]
fn local_messages_publish_on_own_topic_in_order() {
    let mut orch = Orchestrator::new(String::from("A"));
    let m1 = vec![1, 0, 0, 128, 63];
    let m2 = vec![2, 0, 0, 0, 64];
    let a1 = orch.steady_step(SteadyInput::LocalMessage(m1.clone()));
    let a2 = orch.steady_step(SteadyInput::LocalMessage(m2.clone()));
    match (&a1[..], &a2[..]) {
        ([Action::Publish(t1, b1)], [Action::Publish(t2, b2)]) => {
            assert_eq!(t1, "A");
            assert_eq!(t2, "A");
            assert_eq!(
                decode_event(b1),
                Some(NetworkEvent::Event(String::from("A"), m1))
            );
            assert_eq!(
                decode_event(b2),
                Some(NetworkEvent::Event(String::from("A"), m2))
            );
        }
        _ => panic!("expected exactly one publish per message"),
    }
}

#[test]
fn two_peer_gossip_preserves_order() {
    // peer A publishes a movement payload twice; peer B's loop receives the
    // gossip in publish order and delivers the envelopes unchanged
    let payload1: Vec<u8> = [1.0f32.to_le_bytes(), 2.0f32.to_le_bytes()].concat();
    let payload2: Vec<u8> = [3.0f32.to_le_bytes(), 4.0f32.to_le_bytes()].concat();
    let mut a = Orchestrator::new(String::from("A"));
    let pub1 = a.steady_step(SteadyInput::LocalMessage(payload1.clone()));
    let pub2 = a.steady_step(SteadyInput::LocalMessage(payload2.clone()));
    let bytes1 = match &pub1[0] {
        Action::Publish(topic, bytes) => {
            assert_eq!(topic, "A");
            bytes.clone()
        }
        _ => panic!("expected a publish"),
    };
    let bytes2 = match &pub2[0] {
        Action::Publish(_, bytes) => bytes.clone(),
        _ => panic!("expected a publish"),
    };

    let mut b = Orchestrator::new(String::from("B"));
    b.steady_step(SteadyInput::Connected(String::from("A")));
    let d1 = b.steady_step(SteadyInput::GossipMessage(bytes1));
    let d2 = b.steady_step(SteadyInput::GossipMessage(bytes2));
    assert_eq!(
        d1,
        vec![Action::Deliver(NetworkEvent::Event(
            String::from("A"),
            payload1
        ))]
    );
    assert_eq!(
        d2,
        vec![Action::Deliver(NetworkEvent::Event(
            String::from("A"),
            payload2
        ))]
    );
}

#[test]
fn malformed_gossip_is_dropped_silently() {
    let mut orch = Orchestrator::new(String::from("A"));
    let acts = orch.steady_step(SteadyInput::GossipMessage(vec![0xde, 0xad, 0xbe, 0xef]));
    assert!(acts.is_empty());
}

#[test]
fn connection_errors_are_not_fatal_and_deliver_nothing() {
    // three directory peers, one unreachable: the two connections are
    // announced, the failed dial only passes through as a logged event
    let mut orch = Orchestrator::new(String::from("self"));
    let mut delivered: Vec<NetworkEvent<Vec<u8>>> = Vec::new();
    for input in [
        SteadyInput::Connected(String::from("p1")),
        SteadyInput::ConnectionError(String::from("dial to p2 timed out")),
        SteadyInput::Connected(String::from("p3")),
    ] {
        for act in orch.steady_step(input) {
            if let Action::Deliver(ev) = act {
                delivered.push(ev);
            }
        }
    }
    assert_eq!(
        delivered,
        vec![
            NetworkEvent::NewConnection(String::from("p1")),
            NetworkEvent::NewConnection(String::from("p3")),
        ]
    );
}

#[test]
fn quiet_events_do_nothing() {
    let mut orch = Orchestrator::new(String::from("A"));
    assert!(orch
        .steady_step(SteadyInput::ListenAddr(String::from("/ip4/0.0.0.0/tcp/5")))
        .is_empty());
    assert!(orch.steady_step(SteadyInput::ProtocolEvent).is_empty());
    assert!(orch.steady_step(SteadyInput::Other).is_empty());
}
