use zap::relay_matcher::{
    on_peer_matched, relay_step, PeerTable, RegisterOutcome, RelayAction, RelayEvent, SessionState,
};
use zap::relay_protocol::{RelayMessage, Role};

fn register_event(role: Role, hash: &str) -> RelayEvent {
    RelayEvent::Control(RelayMessage::Register {
        role,
        code_hash: hash.to_string(),
    })
}

#[test]
fn register_then_match() {
    let mut table = PeerTable::new();
    assert!(matches!(
        table.register(1, Role::Sender, "h1".to_string()),
        RegisterOutcome::Waiting
    ));
    match table.register(2, Role::Receiver, "h1".to_string()) {
        RegisterOutcome::Matched { peer_session } => assert_eq!(peer_session, 1),
        _ => panic!("expected a match"),
    }
    // pairing is one-shot: the entry is gone
    assert!(matches!(
        table.register(3, Role::Receiver, "h1".to_string()),
        RegisterOutcome::Waiting
    ));
}

#[test]
fn duplicate_role_refused_original_kept() {
    let mut table = PeerTable::new();
    assert!(matches!(
        table.register(1, Role::Sender, "h1".to_string()),
        RegisterOutcome::Waiting
    ));
    assert!(matches!(
        table.register(2, Role::Sender, "h1".to_string()),
        RegisterOutcome::DuplicateRole
    ));
    // the first registration still waits and still matches
    match table.register(3, Role::Receiver, "h1".to_string()) {
        RegisterOutcome::Matched { peer_session } => assert_eq!(peer_session, 1),
        _ => panic!("expected a match with the original"),
    }
}

#[test]
fn duplicate_role_session_gets_error_and_close() {
    let mut table = PeerTable::new();
    let (state1, actions1) = relay_step(
        SessionState::AwaitRegister,
        1,
        register_event(Role::Sender, "cafe"),
        &mut table,
    );
    assert!(matches!(state1, SessionState::Waiting { .. }));
    assert!(actions1.is_empty());

    let (state2, actions2) = relay_step(
        SessionState::AwaitRegister,
        2,
        register_event(Role::Sender, "cafe"),
        &mut table,
    );
    assert!(matches!(state2, SessionState::Closed));
    assert_eq!(actions2.len(), 2);
    match &actions2[0] {
        RelayAction::Reply(RelayMessage::Error { message }) => {
            assert_eq!(message, "duplicate role")
        }
        _ => panic!("expected an error reply"),
    }
    assert!(matches!(actions2[1], RelayAction::Close));

    // the first session still waits: a receiver still matches it
    let (state3, actions3) = relay_step(
        SessionState::AwaitRegister,
        3,
        register_event(Role::Receiver, "cafe"),
        &mut table,
    );
    match state3 {
        SessionState::Matched { peer } => assert_eq!(peer, 1),
        _ => panic!("expected a matched session"),
    }
    let mut notified_self = false;
    let mut notified_peer = false;
    for a in &actions3 {
        match a {
            RelayAction::Reply(RelayMessage::Matched) => notified_self = true,
            RelayAction::Notify(1, RelayMessage::Matched) => notified_peer = true,
            _ => panic!("unexpected action"),
        }
    }
    assert!(notified_self && notified_peer);
}

#[test]
fn matched_sessions_forward_in_order() {
    let mut table = PeerTable::new();
    let state = SessionState::Matched { peer: 9 };
    let (state, a1) = relay_step(state, 2, RelayEvent::Data(vec![1, 2, 3]), &mut table);
    let (_state, a2) = relay_step(state, 2, RelayEvent::Data(vec![4, 5]), &mut table);
    match (&a1[0], &a2[0]) {
        (RelayAction::Forward(9, d1), RelayAction::Forward(9, d2)) => {
            assert_eq!(d1, &vec![1, 2, 3]);
            assert_eq!(d2, &vec![4, 5]);
        }
        _ => panic!("expected forwarding"),
    }
}

#[test]
fn waiting_disconnect_removes_own_entry_only() {
    let mut table = PeerTable::new();
    let (state1, _) = relay_step(
        SessionState::AwaitRegister,
        1,
        register_event(Role::Sender, "dead"),
        &mut table,
    );
    // session 1 disconnects while waiting: its entry goes away
    let (state1, _) = relay_step(state1, 1, RelayEvent::Disconnected, &mut table);
    assert!(matches!(state1, SessionState::Closed));
    // a fresh sender can register again under the same hash
    assert!(matches!(
        table.register(5, Role::Sender, "dead".to_string()),
        RegisterOutcome::Waiting
    ));
}

#[test]
fn ping_answered_and_non_register_refused() {
    let mut table = PeerTable::new();
    let (state, actions) = relay_step(
        SessionState::AwaitRegister,
        1,
        RelayEvent::Control(RelayMessage::Ping),
        &mut table,
    );
    assert!(matches!(state, SessionState::AwaitRegister));
    assert!(matches!(actions[0], RelayAction::Reply(RelayMessage::Pong)));

    let (state, actions) = relay_step(
        SessionState::AwaitRegister,
        1,
        RelayEvent::Control(RelayMessage::Matched),
        &mut table,
    );
    assert!(matches!(state, SessionState::Closed));
    assert!(matches!(actions[0], RelayAction::Reply(RelayMessage::Error { .. })));
    assert!(matches!(actions[1], RelayAction::Close));
}

#[test]
fn peer_side_becomes_matched() {
    let waiting = SessionState::Waiting {
        code_hash: "abcd".to_string(),
        role: Role::Sender,
    };
    match on_peer_matched(waiting, 42) {
        SessionState::Matched { peer } => assert_eq!(peer, 42),
        _ => panic!("expected matched"),
    }
}
