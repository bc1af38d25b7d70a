use session_core::connection::ConnectionManager;
use session_core::error::HttpError;
use session_core::gateway::authorize_and_attach;
use session_core::lifecycle::relay_from;
use session_core::message::Message;
use session_core::principal::Principal;
use session_core::principal::Role;
use session_core::registry::Registry;
use session_core::session::Session;
use session_core::session::SessionState;

fn msg(bytes: &[u8]) -> Message {
    Message::new(bytes.to_vec())
}

fn payloads(msgs: &[Message]) -> Vec<Vec<u8>> {
    msgs.iter().map(|m| m.payload.clone()).collect()
}

#[test]
fn message_duplicate_carries_the_same_bytes() {
    let m = msg(b"abc");
    let d = m.duplicate();
    assert_eq!(d.payload, m.payload);
}

#[test]
fn register_unregister_and_duplicate_registration() {
    let mut cm = ConnectionManager::new();
    assert_eq!(cm.len(), 0);
    cm.register(1).unwrap();
    cm.register(2).unwrap();
    assert_eq!(cm.len(), 2);
    assert!(cm.contains(1));
    // a second connection for the same participant is a duplicate
    assert_eq!(cm.register(1), Err(HttpError::Conflict));
    assert_eq!(cm.len(), 2);
    cm.unregister(1).unwrap();
    assert!(!cm.contains(1));
    assert_eq!(cm.unregister(1), Err(HttpError::NotFound));
    assert_eq!(cm.len(), 1);
}

#[test]
fn broadcast_excludes_the_sender_and_survives_a_broken_connection() {
    let mut cm = ConnectionManager::new();
    cm.register(1).unwrap();
    cm.register(2).unwrap();
    cm.register(3).unwrap();
    // participant 3's transport breaks before the broadcast
    cm.mark_broken(3).unwrap();

    let m = msg(b"move");
    cm.broadcast(&m, Some(1));

    // 2 still received the message even though 3's delivery failed
    let got = cm.drain_outbox(2).unwrap();
    assert_eq!(payloads(&got), vec![b"move".to_vec()]);
    // the sender was excluded
    let got = cm.drain_outbox(1).unwrap();
    assert!(got.is_empty());
    // the broken connection was forcibly unregistered
    assert!(!cm.contains(3));
    assert_eq!(cm.len(), 2);
}

#[test]
fn broadcast_without_exclusion_reaches_everyone() {
    let mut cm = ConnectionManager::new();
    cm.register(1).unwrap();
    cm.register(2).unwrap();
    let m = msg(b"tick");
    cm.broadcast(&m, None);
    assert_eq!(payloads(&cm.drain_outbox(1).unwrap()), vec![b"tick".to_vec()]);
    assert_eq!(payloads(&cm.drain_outbox(2).unwrap()), vec![b"tick".to_vec()]);
}

#[test]
fn send_to_targets_one_connection() {
    let mut cm = ConnectionManager::new();
    cm.register(1).unwrap();
    cm.register(2).unwrap();
    cm.send_to(1, &msg(b"psst")).unwrap();
    assert_eq!(payloads(&cm.drain_outbox(1).unwrap()), vec![b"psst".to_vec()]);
    assert!(cm.drain_outbox(2).unwrap().is_empty());
    assert_eq!(cm.send_to(9, &msg(b"psst")), Err(HttpError::NotFound));
}

#[test]
fn send_to_broken_connection_fails_internal_and_cleans_up() {
    let mut cm = ConnectionManager::new();
    cm.register(1).unwrap();
    cm.mark_broken(1).unwrap();
    assert_eq!(cm.send_to(1, &msg(b"x")), Err(HttpError::Internal));
    // the failed connection was unregistered, the rest of the set survives
    assert!(!cm.contains(1));
    assert_eq!(cm.len(), 0);
}

#[test]
fn queued_messages_keep_sender_order() {
    let mut cm = ConnectionManager::new();
    cm.register(1).unwrap();
    cm.broadcast(&msg(b"first"), None);
    cm.broadcast(&msg(b"second"), None);
    cm.send_to(1, &msg(b"third")).unwrap();
    assert_eq!(
        payloads(&cm.drain_outbox(1).unwrap()),
        vec![b"first".to_vec(), b"second".to_vec(), b"third".to_vec()]
    );
    // draining empties the queue
    assert!(cm.drain_outbox(1).unwrap().is_empty());
}

#[test]
fn attach_on_closed_session_is_conflict() {
    let mut s = Session::new(1, 1);
    s.close().unwrap();
    assert_eq!(s.state(), SessionState::Closed);
    assert_eq!(s.attach(10), Err(HttpError::Conflict));
    assert_eq!(s.participant_count(), 0);
}

#[test]
fn close_is_refused_while_occupied_and_terminal_after() {
    let mut s = Session::new(1, 1);
    s.attach(10).unwrap();
    assert_eq!(s.state(), SessionState::Active);
    assert_eq!(s.close(), Err(HttpError::Conflict));
    s.detach(10).unwrap();
    assert_eq!(s.state(), SessionState::Created);
    s.close().unwrap();
    // closing is terminal: a second close is a stale transition
    assert_eq!(s.close(), Err(HttpError::Conflict));
}

#[test]
fn detach_alone_never_destroys_a_session() {
    let mut s = Session::new(4, 1);
    s.attach(10).unwrap();
    s.detach(10).unwrap();
    assert_eq!(s.state(), SessionState::Created);
    // the session is still usable: a new participant can attach
    s.attach(11).unwrap();
    assert_eq!(s.state(), SessionState::Active);
}

#[test]
fn duplicate_attach_on_session_is_conflict() {
    let mut s = Session::new(2, 1);
    s.attach(10).unwrap();
    assert_eq!(s.attach(10), Err(HttpError::Conflict));
    assert_eq!(s.participant_count(), 1);
}

#[test]
fn greeting_is_queued_ahead_of_all_other_traffic() {
    let mut s = Session::new(3, 1);
    let g = msg(b"welcome");
    s.attach_with_greeting(10, &g).unwrap();
    s.broadcast(&msg(b"news"), None);
    assert_eq!(
        payloads(&s.drain_outbox(10).unwrap()),
        vec![b"welcome".to_vec(), b"news".to_vec()]
    );
}

#[test]
fn gateway_rejects_invalid_token_before_attach() {
    let mut reg = Registry::new();
    let owner = Principal { id: 1, role: Role::GameMaster };
    let id = reg.create(&owner).unwrap();
    // the resolver found the token expired or invalid: no principal
    let r = authorize_and_attach(&mut reg, None, id, &msg(b"welcome"));
    assert_eq!(r, Err(HttpError::Unauthorized));
    // the upgrade was rejected before attach: participant count unchanged
    assert_eq!(reg.get(id).unwrap().participants, 0);
    assert_eq!(reg.get(id).unwrap().state, SessionState::Created);
}

#[test]
fn gateway_rejects_unknown_session() {
    let mut reg = Registry::new();
    let p = Principal { id: 10, role: Role::Player };
    let r = authorize_and_attach(&mut reg, Some(p), 77, &msg(b"welcome"));
    assert_eq!(r, Err(HttpError::NotFound));
}

#[test]
fn gateway_attach_greets_and_relay_excludes_sender() {
    let mut reg = Registry::new();
    let owner = Principal { id: 1, role: Role::GameMaster };
    let id = reg.create(&owner).unwrap();
    let g = msg(b"welcome");
    authorize_and_attach(&mut reg, Some(Principal { id: 10, role: Role::Player }), id, &g)
        .unwrap();
    authorize_and_attach(&mut reg, Some(Principal { id: 11, role: Role::Player }), id, &g)
        .unwrap();

    // participant 10 sends a move; it reaches 11 but is not echoed back
    relay_from(&mut reg, id, 10, &msg(b"move")).unwrap();
    assert_eq!(
        payloads(&reg.drain_outbox(id, 11).unwrap()),
        vec![b"welcome".to_vec(), b"move".to_vec()]
    );
    assert_eq!(payloads(&reg.drain_outbox(id, 10).unwrap()), vec![b"welcome".to_vec()]);
}

#[test]
fn broadcast_detaches_broken_connection_and_reverts_state() {
    let mut reg = Registry::new();
    let owner = Principal { id: 1, role: Role::GameMaster };
    let id = reg.create(&owner).unwrap();
    reg.attach(id, 10).unwrap();
    reg.mark_broken(id, 10).unwrap();
    // the only participant's transport is broken: the broadcast fails on it,
    // detaches it, and the session reverts to Created
    reg.broadcast(id, &msg(b"tick"), None).unwrap();
    let sum = reg.get(id).unwrap();
    assert_eq!(sum.participants, 0);
    assert_eq!(sum.state, SessionState::Created);
}
