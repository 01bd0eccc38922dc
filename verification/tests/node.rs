use peerchat::aggregator::InboundEvent;
use peerchat::codec::encode;
use peerchat::dial::{DialCondition, DialRequest, Observation};
use peerchat::envelope::ChatEnvelope;
use peerchat::node::{Effect, NetworkEvent, Node};
use peerchat::notice::Notice;
use peerchat::peer::{PeerAddress, PeerIdentity};

fn peer(text: &str) -> PeerIdentity {
    PeerIdentity::new(text)
}

fn discovered(pairs: &[(&str, &str)]) -> NetworkEvent {
    NetworkEvent::Protocol(InboundEvent::Discovered {
        observations: pairs
            .iter()
            .map(|(who, at)| Observation { peer: peer(who), address: PeerAddress::new(at) })
            .collect(),
    })
}

fn dial(who: &str, addresses: &[&str]) -> Effect {
    Effect::Dial(DialRequest {
        peer: peer(who),
        addresses: addresses.iter().map(|at| PeerAddress::new(at)).collect(),
        condition: DialCondition::Disconnected,
    })
}

fn gossip(from: &str, envelope: &ChatEnvelope) -> NetworkEvent {
    NetworkEvent::Protocol(InboundEvent::GossipMessage {
        propagation_source: peer("relay"),
        source: Some(peer(from)),
        data: encode(envelope),
    })
}

#[test]
fn a_new_node_knows_nobody() {
    let node = Node::new();
    assert!(!node.session().is_connected(&peer("a")));
    let node = Node::default();
    assert_eq!(node.session().display_name(&peer("a")), "a");
}

#[test]
fn discovered_peers_are_dialed() {
    let mut node = Node::new();
    assert_eq!(
        node.handle(discovered(&[("a", "1"), ("b", "2"), ("a", "3")])),
        vec![dial("a", &["1", "3"]), dial("b", &["2"])]
    );
}

#[test]
fn connected_peers_are_not_dialed() {
    let mut node = Node::new();
    node.handle(NetworkEvent::ConnectionEstablished { peer: peer("a") });
    assert_eq!(node.handle(discovered(&[("a", "1"), ("b", "2")])), vec![dial("b", &["2"])]);
    assert_eq!(node.handle(discovered(&[("a", "1"), ("a", "2")])), vec![]);
    node.handle(NetworkEvent::ConnectionClosed { peer: peer("a"), remaining_established: 0 });
    assert_eq!(node.handle(discovered(&[("a", "1")])), vec![dial("a", &["1"])]);
}

#[test]
fn presence_is_shown_once() {
    let mut node = Node::new();
    assert_eq!(
        node.handle(NetworkEvent::ConnectionEstablished { peer: peer("a") }),
        vec![Effect::Show(Notice::Connected { name: "a".to_string() })]
    );
    assert_eq!(node.handle(NetworkEvent::ConnectionEstablished { peer: peer("a") }), vec![]);
    assert_eq!(
        node.handle(NetworkEvent::ConnectionClosed { peer: peer("a"), remaining_established: 1 }),
        vec![]
    );
    assert_eq!(
        node.handle(NetworkEvent::ConnectionClosed { peer: peer("a"), remaining_established: 0 }),
        vec![Effect::Show(Notice::Disconnected { name: "a".to_string() })]
    );
    assert_eq!(
        node.handle(NetworkEvent::ConnectionClosed { peer: peer("a"), remaining_established: 0 }),
        vec![]
    );
}

#[test]
fn chat_is_shown_under_the_name_of_the_moment() {
    let mut node = Node::new();
    let hello = ChatEnvelope::Message { text: "hello".to_string(), origin_timestamp: 1 };
    assert_eq!(
        node.handle(gossip("a", &hello)),
        vec![Effect::Show(Notice::Chat {
            origin_timestamp: 1,
            sender: "a".to_string(),
            text: "hello".to_string(),
        })]
    );
    let rename = ChatEnvelope::ChangeNickname { nick: "alice".to_string() };
    assert_eq!(
        node.handle(gossip("a", &rename)),
        vec![Effect::Show(Notice::Renamed {
            old_name: "a".to_string(),
            new_name: "alice".to_string(),
        })]
    );
    assert_eq!(node.handle(gossip("a", &rename)), vec![]);
    assert_eq!(
        node.handle(gossip("a", &hello)),
        vec![Effect::Show(Notice::Chat {
            origin_timestamp: 1,
            sender: "alice".to_string(),
            text: "hello".to_string(),
        })]
    );
    assert_eq!(node.session().display_name(&peer("a")), "alice");
}

#[test]
fn garbage_has_no_effect() {
    let mut node = Node::new();
    let event = NetworkEvent::Protocol(InboundEvent::GossipMessage {
        propagation_source: peer("relay"),
        source: None,
        data: vec![0xa1, 0x00, 0xff],
    });
    assert_eq!(node.handle(event), vec![]);
}

#[test]
fn a_failed_heartbeat_is_reported() {
    let mut node = Node::new();
    let event = NetworkEvent::Protocol(InboundEvent::Heartbeat {
        peer: peer("a"),
        failure: Some("timeout".to_string()),
    });
    assert_eq!(
        node.handle(event),
        vec![Effect::Report { peer: peer("a"), reason: "timeout".to_string() }]
    );
    let event = NetworkEvent::Protocol(InboundEvent::Heartbeat { peer: peer("a"), failure: None });
    assert_eq!(node.handle(event), vec![]);
}
