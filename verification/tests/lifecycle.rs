use session_core::error::HttpError;
use session_core::lifecycle::create_session;
use session_core::lifecycle::delete_session;
use session_core::lifecycle::get_session;
use session_core::lifecycle::list_sessions;
use session_core::message::Message;
use session_core::principal::Principal;
use session_core::principal::Role;
use session_core::registry::Registry;
use session_core::session::SessionState;

fn gm(id: u64) -> Principal {
    Principal { id, role: Role::GameMaster }
}

fn player(id: u64) -> Principal {
    Principal { id, role: Role::Player }
}

fn greeting() -> Message {
    Message::new(b"hello".to_vec())
}

#[test]
fn gm_creates_session_in_created_state() {
    let mut reg = Registry::new();
    let id = reg.create(&gm(1)).expect("gm create must succeed");
    let sum = reg.get(id).expect("created session must be listed");
    assert_eq!(sum.id, id);
    assert_eq!(sum.state, SessionState::Created);
    assert_eq!(sum.participants, 0);
}

#[test]
fn player_create_fails_unauthorized_and_stores_nothing() {
    let mut reg = Registry::new();
    let r = reg.create(&player(7));
    assert_eq!(r, Err(HttpError::Unauthorized));
    assert_eq!(reg.list().len(), 0);
}

#[test]
fn missing_token_create_fails_unauthorized() {
    let mut reg = Registry::new();
    let r = create_session(&mut reg, None);
    assert_eq!(r, Err(HttpError::Unauthorized));
    assert_eq!(list_sessions(&reg).len(), 0);
}

#[test]
fn session_ids_are_unique_and_never_reused() {
    let mut reg = Registry::new();
    let a = reg.create(&gm(1)).unwrap();
    let b = reg.create(&gm(1)).unwrap();
    assert_ne!(a, b);
    reg.delete(a, &gm(1)).unwrap();
    let c = reg.create(&gm(1)).unwrap();
    assert_ne!(c, a);
    assert_ne!(c, b);
}

#[test]
fn get_unknown_session_is_not_found() {
    let reg = Registry::new();
    assert_eq!(reg.get(42), Err(HttpError::NotFound));
}

#[test]
fn delete_unknown_session_is_not_found() {
    let mut reg = Registry::new();
    assert_eq!(reg.delete(42, &gm(1)), Err(HttpError::NotFound));
}

#[test]
fn delete_by_non_owner_is_unauthorized() {
    let mut reg = Registry::new();
    let id = reg.create(&gm(1)).unwrap();
    assert_eq!(reg.delete(id, &gm(2)), Err(HttpError::Unauthorized));
    assert_eq!(reg.delete(id, &player(1)), Err(HttpError::Unauthorized));
    assert!(reg.get(id).is_ok());
}

#[test]
fn delete_occupied_session_is_conflict() {
    let mut reg = Registry::new();
    let owner = gm(1);
    let id = reg.create(&owner).unwrap();
    reg.attach(id, 10).unwrap();
    assert_eq!(reg.delete(id, &owner), Err(HttpError::Conflict));
    let sum = reg.get(id).unwrap();
    assert_eq!(sum.participants, 1);
    reg.detach(id, 10).unwrap();
    assert_eq!(reg.delete(id, &owner), Ok(()));
}

#[test]
fn delete_racing_attach_is_conflict() {
    let mut reg = Registry::new();
    let owner = gm(1);
    let id = reg.create(&owner).unwrap();
    // the attach wins the race: the delete that follows must not remove the
    // session that just became non-empty
    reg.attach(id, 99).unwrap();
    assert_eq!(reg.delete(id, &owner), Err(HttpError::Conflict));
    assert!(reg.get(id).is_ok());
}

#[test]
fn participant_count_tracks_attach_and_detach() {
    let mut reg = Registry::new();
    let id = reg.create(&gm(1)).unwrap();
    assert_eq!(reg.get(id).unwrap().participants, 0);
    reg.attach(id, 10).unwrap();
    assert_eq!(reg.get(id).unwrap().participants, 1);
    reg.attach(id, 11).unwrap();
    assert_eq!(reg.get(id).unwrap().participants, 2);
    reg.detach(id, 10).unwrap();
    assert_eq!(reg.get(id).unwrap().participants, 1);
    // detaching a participant that is not attached changes nothing
    assert_eq!(reg.detach(id, 10), Err(HttpError::NotFound));
    assert_eq!(reg.get(id).unwrap().participants, 1);
    reg.detach(id, 11).unwrap();
    assert_eq!(reg.get(id).unwrap().participants, 0);
    // the count cannot go below zero: there is nothing left to detach
    assert_eq!(reg.detach(id, 11), Err(HttpError::NotFound));
    assert_eq!(reg.get(id).unwrap().participants, 0);
}

#[test]
fn full_session_lifecycle_scenario() {
    let mut reg = Registry::new();
    let owner = gm(1);

    // GM creates the session: Created, empty
    let s1 = create_session(&mut reg, Some(owner)).expect("gm create must succeed");
    let sum = get_session(&reg, s1).unwrap();
    assert_eq!(sum.state, SessionState::Created);
    assert_eq!(sum.participants, 0);

    // two players attach through the realtime gateway with valid tokens
    let g = greeting();
    session_core::gateway::authorize_and_attach(&mut reg, Some(player(10)), s1, &g).unwrap();
    session_core::gateway::authorize_and_attach(&mut reg, Some(player(11)), s1, &g).unwrap();
    let sum = get_session(&reg, s1).unwrap();
    assert_eq!(sum.state, SessionState::Active);
    assert_eq!(sum.participants, 2);

    // one player disconnects: still Active with one participant
    reg.detach(s1, 10).unwrap();
    let sum = get_session(&reg, s1).unwrap();
    assert_eq!(sum.state, SessionState::Active);
    assert_eq!(sum.participants, 1);

    // the second disconnects: back to Created, not deleted
    reg.detach(s1, 11).unwrap();
    let sum = get_session(&reg, s1).unwrap();
    assert_eq!(sum.state, SessionState::Created);
    assert_eq!(sum.participants, 0);

    // the GM deletes it: gone from list and get
    delete_session(&mut reg, Some(owner), s1).unwrap();
    assert_eq!(get_session(&reg, s1), Err(HttpError::NotFound));
    assert!(list_sessions(&reg).iter().all(|s| s.id != s1));
}

#[test]
fn list_reports_every_session() {
    let mut reg = Registry::new();
    let a = reg.create(&gm(1)).unwrap();
    let b = reg.create(&gm(2)).unwrap();
    reg.attach(b, 20).unwrap();
    let all = list_sessions(&reg);
    assert_eq!(all.len(), 2);
    let sa = all.iter().find(|s| s.id == a).unwrap();
    assert_eq!(sa.state, SessionState::Created);
    assert_eq!(sa.participants, 0);
    let sb = all.iter().find(|s| s.id == b).unwrap();
    assert_eq!(sb.state, SessionState::Active);
    assert_eq!(sb.participants, 1);
}

#[test]
fn payload_round_trips_through_registry() {
    let mut reg = Registry::new();
    let id = reg.create(&gm(1)).unwrap();
    assert_eq!(reg.payload_of(id).unwrap().len(), 0);
    reg.set_payload(id, b"board state".to_vec()).unwrap();
    assert_eq!(reg.payload_of(id).unwrap().as_slice(), b"board state");
    assert_eq!(reg.payload_of(999), Err(HttpError::NotFound));
    assert_eq!(reg.set_payload(999, b"x".to_vec()), Err(HttpError::NotFound));
}
