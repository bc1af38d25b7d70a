use session_core::error::HttpError;
use session_core::gateway::frame_action;
use session_core::gateway::Frame;
use session_core::gateway::FrameAction;
use session_core::message::Message;
use session_core::principal::Principal;
use session_core::principal::Role;

#[test]
fn every_error_maps_to_its_status_code() {
    assert_eq!(HttpError::Unauthorized.status_code(), 401);
    assert_eq!(HttpError::NotFound.status_code(), 404);
    assert_eq!(HttpError::Conflict.status_code(), 409);
    assert_eq!(HttpError::BadRequest.status_code(), 400);
    assert_eq!(HttpError::Internal.status_code(), 500);
}

#[test]
fn capability_check_follows_the_role() {
    assert!(Principal { id: 1, role: Role::GameMaster }.is_game_master());
    assert!(!Principal { id: 1, role: Role::Player }.is_game_master());
}

#[test]
fn frames_map_to_their_actions() {
    let data = Frame::Data(Message::new(b"move".to_vec()));
    assert_eq!(frame_action(&data), FrameAction::Deliver);
    assert_eq!(frame_action(&Frame::Close), FrameAction::Detach);
    assert_eq!(frame_action(&Frame::Control), FrameAction::Ignore);
}
