use peerchat::envelope::ChatEnvelope;
use peerchat::notice::Notice;
use peerchat::peer::PeerIdentity;
use peerchat::session::{SessionEvent, SessionState};

const NODE_A: &str = "12D3KooWDpJ7As7BWAwRMfu1VU2WCqNjvq387JEYKDBj4kx6nXTN";
const NODE_C: &str = "12D3KooWRBhwfeP2Y4TCx1SM6s9rUoHhR5STiGwxBhgFRcw3UMkv";

fn peer(text: &str) -> PeerIdentity {
    PeerIdentity::new(text)
}

fn connected(name: &str) -> Option<Notice> {
    Some(Notice::Connected { name: name.to_string() })
}

fn disconnected(name: &str) -> Option<Notice> {
    Some(Notice::Disconnected { name: name.to_string() })
}

fn renamed(old_name: &str, new_name: &str) -> Option<Notice> {
    Some(Notice::Renamed { old_name: old_name.to_string(), new_name: new_name.to_string() })
}

#[test]
fn a_new_session_knows_nobody() {
    let session = SessionState::new();
    assert!(!session.is_connected(&peer(NODE_A)));
    assert_eq!(session.display_name(&peer(NODE_A)), NODE_A);
}

#[test]
fn an_unnamed_sender_is_shown_by_its_identity() {
    let session = SessionState::new();
    let notice = session.on_message(&peer(NODE_A), "hello".to_string(), 1_700_000_000_000);
    assert_eq!(
        notice,
        Notice::Chat {
            origin_timestamp: 1_700_000_000_000,
            sender: NODE_A.to_string(),
            text: "hello".to_string(),
        }
    );
}

#[test]
fn a_named_sender_is_shown_by_its_nickname() {
    let mut session = SessionState::new();
    session.on_nickname(peer(NODE_A), "alice".to_string());
    let notice = session.on_message(&peer(NODE_A), "hi".to_string(), 5);
    assert_eq!(
        notice,
        Notice::Chat { origin_timestamp: 5, sender: "alice".to_string(), text: "hi".to_string() }
    );
    let other = session.on_message(&peer(NODE_C), "hi".to_string(), 5);
    assert_eq!(
        other,
        Notice::Chat { origin_timestamp: 5, sender: NODE_C.to_string(), text: "hi".to_string() }
    );
}

#[test]
fn a_first_nickname_is_announced_from_the_identity() {
    let mut session = SessionState::new();
    assert_eq!(session.on_nickname(peer(NODE_A), "alice".to_string()), renamed(NODE_A, "alice"));
    assert_eq!(session.display_name(&peer(NODE_A)), "alice");
}

#[test]
fn the_same_nickname_again_is_not_announced() {
    let mut session = SessionState::new();
    assert_eq!(session.on_nickname(peer(NODE_A), "alice".to_string()), renamed(NODE_A, "alice"));
    assert_eq!(session.on_nickname(peer(NODE_A), "alice".to_string()), None);
    assert_eq!(session.on_nickname(peer(NODE_A), "alice".to_string()), None);
    assert_eq!(session.display_name(&peer(NODE_A)), "alice");
}

#[test]
fn a_new_nickname_is_announced_once_from_the_old_one() {
    let mut session = SessionState::new();
    session.on_nickname(peer(NODE_A), "alice".to_string());
    assert_eq!(session.on_nickname(peer(NODE_A), "alicia".to_string()), renamed("alice", "alicia"));
    assert_eq!(session.on_nickname(peer(NODE_A), "alicia".to_string()), None);
    assert_eq!(session.on_nickname(peer(NODE_A), "alice".to_string()), renamed("alicia", "alice"));
}

#[test]
fn a_nickname_equal_to_the_identity_is_not_announced() {
    let mut session = SessionState::new();
    assert_eq!(session.on_nickname(peer(NODE_A), NODE_A.to_string()), None);
    assert_eq!(session.on_nickname(peer(NODE_A), "alice".to_string()), renamed(NODE_A, "alice"));
}

#[test]
fn nicknames_of_different_peers_do_not_mix() {
    let mut session = SessionState::new();
    session.on_nickname(peer(NODE_A), "alice".to_string());
    assert_eq!(session.on_nickname(peer(NODE_C), "alice".to_string()), renamed(NODE_C, "alice"));
    assert_eq!(session.on_nickname(peer(NODE_C), "carol".to_string()), renamed("alice", "carol"));
    assert_eq!(session.display_name(&peer(NODE_A)), "alice");
    assert_eq!(session.display_name(&peer(NODE_C)), "carol");
}

#[test]
fn a_first_connection_is_announced() {
    let mut session = SessionState::new();
    assert_eq!(session.on_connected(peer(NODE_A)), connected(NODE_A));
    assert!(session.is_connected(&peer(NODE_A)));
    assert!(!session.is_connected(&peer(NODE_C)));
}

#[test]
fn two_connections_make_one_presence() {
    let mut session = SessionState::new();
    assert_eq!(session.on_connected(peer(NODE_A)), connected(NODE_A));
    assert_eq!(session.on_connected(peer(NODE_A)), None);
    assert_eq!(session.on_disconnected(&peer(NODE_A), 1), None);
    assert!(session.is_connected(&peer(NODE_A)));
    assert_eq!(session.on_disconnected(&peer(NODE_A), 0), disconnected(NODE_A));
    assert!(!session.is_connected(&peer(NODE_A)));
}

#[test]
fn a_second_report_of_zero_connections_is_not_announced() {
    let mut session = SessionState::new();
    session.on_connected(peer(NODE_A));
    assert_eq!(session.on_disconnected(&peer(NODE_A), 0), disconnected(NODE_A));
    assert_eq!(session.on_disconnected(&peer(NODE_A), 0), None);
    assert_eq!(session.on_disconnected(&peer(NODE_C), 0), None);
}

#[test]
fn a_peer_can_come_back() {
    let mut session = SessionState::new();
    session.on_connected(peer(NODE_A));
    session.on_disconnected(&peer(NODE_A), 0);
    assert_eq!(session.on_connected(peer(NODE_A)), connected(NODE_A));
}

#[test]
fn presence_is_announced_under_the_nickname() {
    let mut session = SessionState::new();
    session.on_nickname(peer(NODE_A), "alice".to_string());
    assert_eq!(session.on_connected(peer(NODE_A)), connected("alice"));
    assert_eq!(session.on_disconnected(&peer(NODE_A), 0), disconnected("alice"));
}

#[test]
fn a_nickname_outlives_the_connection() {
    let mut session = SessionState::new();
    session.on_connected(peer(NODE_A));
    session.on_nickname(peer(NODE_A), "alice".to_string());
    session.on_disconnected(&peer(NODE_A), 0);
    assert_eq!(session.display_name(&peer(NODE_A)), "alice");
    assert_eq!(session.on_connected(peer(NODE_A)), connected("alice"));
}

#[test]
fn disconnecting_one_peer_keeps_the_others() {
    let mut session = SessionState::new();
    session.on_connected(peer("first"));
    session.on_connected(peer("second"));
    session.on_connected(peer("third"));
    assert_eq!(session.on_disconnected(&peer("second"), 0), disconnected("second"));
    assert!(session.is_connected(&peer("first")));
    assert!(!session.is_connected(&peer("second")));
    assert!(session.is_connected(&peer("third")));
    assert_eq!(session.on_disconnected(&peer("first"), 0), disconnected("first"));
    assert_eq!(session.on_disconnected(&peer("third"), 0), disconnected("third"));
}

#[test]
fn events_are_handled_as_the_single_operations_are() {
    let mut session = SessionState::new();
    assert_eq!(
        session.handle_event(SessionEvent::ConnectionEstablished { peer: peer(NODE_A) }),
        connected(NODE_A)
    );
    assert_eq!(
        session.handle_event(SessionEvent::Chat {
            peer: peer(NODE_A),
            message: ChatEnvelope::Message {
                text: "hello".to_string(),
                origin_timestamp: 1_700_000_000_000,
            },
        }),
        Some(Notice::Chat {
            origin_timestamp: 1_700_000_000_000,
            sender: NODE_A.to_string(),
            text: "hello".to_string(),
        })
    );
    assert_eq!(
        session.handle_event(SessionEvent::Chat {
            peer: peer(NODE_A),
            message: ChatEnvelope::ChangeNickname { nick: "alice".to_string() },
        }),
        renamed(NODE_A, "alice")
    );
    assert_eq!(
        session.handle_event(SessionEvent::Chat {
            peer: peer(NODE_A),
            message: ChatEnvelope::ChangeNickname { nick: "alice".to_string() },
        }),
        None
    );
    assert_eq!(
        session.handle_event(SessionEvent::ConnectionClosed {
            peer: peer(NODE_A),
            remaining_established: 2,
        }),
        None
    );
    assert_eq!(
        session.handle_event(SessionEvent::ConnectionClosed {
            peer: peer(NODE_A),
            remaining_established: 0,
        }),
        disconnected("alice")
    );
}
