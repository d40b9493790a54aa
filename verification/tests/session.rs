//! Session state machine: the auth handshake, gating, heartbeat and
//! teardown.

use chat_core::claims::{Claims, TypeClaims};
use chat_core::message::{ClientMessage, ServerMessage};
use chat_core::models::UserRole;
use chat_core::session::{Action, WebSocketSession, CLIENT_TIMEOUT_MS};

fn access_claims(user: u128) -> Claims {
    Claims::new(user, UserRole::User, 1_000, 900).with_type(TypeClaims::AccessToken)
}

#[test]
fn new_session_is_unauthenticated() {
    let session = WebSocketSession::new(5, 0);
    assert_eq!(session.id, 5);
    assert!(session.user_id.is_none());
    assert!(session.friend_ids.is_empty());
}

#[test]
fn started_session_registers_with_hub() {
    let session = WebSocketSession::new(5, 0);
    let actions = session.on_started();
    assert_eq!(actions, vec![Action::HubConnect { session_id: 5 }]);
}

#[test]
fn auth_frame_requests_token_verification() {
    let mut session = WebSocketSession::new(5, 0);
    let actions = session.handle_client_message(
        &ClientMessage::Auth { token: "token-abc".to_string() },
        0,
    );
    assert_eq!(actions, vec![Action::VerifyToken { token: "token-abc".to_string() }]);
}

#[test]
fn valid_access_token_authenticates() {
    let mut session = WebSocketSession::new(5, 0);
    let actions = session.handle_auth_outcome(Ok(access_claims(77)));
    assert_eq!(session.user_id, Some(77));
    assert_eq!(
        actions,
        vec![
            Action::HubAuthenticate { session_id: 5, user_id: 77 },
            Action::SendToClient(ServerMessage::AuthSuccess { user_id: 77 }),
            Action::LoadFriends { user_id: 77 },
        ]
    );
}

#[test]
fn failed_verification_keeps_session_unauthenticated() {
    let mut session = WebSocketSession::new(5, 0);
    let actions = session.handle_auth_outcome(Err("expired".to_string()));
    assert!(session.user_id.is_none());
    assert_eq!(actions.len(), 1);
    assert!(matches!(
        &actions[0],
        Action::SendToClient(ServerMessage::AuthFailed { reason })
            if reason == "Token is invalid or expired"
    ));
}

#[test]
fn refresh_token_is_rejected() {
    let mut session = WebSocketSession::new(5, 0);
    let claims = Claims::new(77, UserRole::User, 1_000, 900).with_type(TypeClaims::RefreshToken);
    let actions = session.handle_auth_outcome(Ok(claims));
    assert!(session.user_id.is_none());
    assert!(matches!(
        &actions[0],
        Action::SendToClient(ServerMessage::AuthFailed { reason })
            if reason == "Only access tokens are accepted"
    ));
}

#[test]
fn auth_replay_fails_and_keeps_original_user() {
    let mut session = WebSocketSession::new(5, 0);
    session.handle_auth_outcome(Ok(access_claims(77)));

    let actions = session.handle_client_message(
        &ClientMessage::Auth { token: "second-token".to_string() },
        0,
    );
    assert_eq!(actions.len(), 1);
    assert!(matches!(
        &actions[0],
        Action::SendToClient(ServerMessage::AuthFailed { reason })
            if reason == "Session is already authenticated"
    ));
    assert_eq!(session.user_id, Some(77), "the original user stays");

    // Even a verification outcome smuggled in afterwards cannot overwrite
    // the session's user.
    let late = session.handle_auth_outcome(Ok(access_claims(88)));
    assert_eq!(session.user_id, Some(77));
    assert!(matches!(
        &late[0],
        Action::SendToClient(ServerMessage::AuthFailed { reason })
            if reason == "Session is already authenticated"
    ));
}

#[test]
fn send_message_requires_authentication() {
    let mut session = WebSocketSession::new(5, 0);
    let actions = session.handle_client_message(
        &ClientMessage::SendMessage { conversation_id: 9, content: "hi".to_string() },
        0,
    );
    assert_eq!(actions.len(), 1);
    assert!(matches!(
        &actions[0],
        Action::SendToClient(ServerMessage::Error { message })
            if message == "You must authenticate before performing this action"
    ));
}

#[test]
fn send_message_when_authenticated_persists() {
    let mut session = WebSocketSession::new(5, 0);
    session.handle_auth_outcome(Ok(access_claims(77)));
    let actions = session.handle_client_message(
        &ClientMessage::SendMessage { conversation_id: 9, content: "hello".to_string() },
        0,
    );
    assert_eq!(
        actions,
        vec![Action::PersistMessage {
            sender_id: 77,
            conversation_id: 9,
            content: "hello".to_string(),
        }]
    );
}

#[test]
fn persist_success_broadcasts_with_sender_included() {
    let session = WebSocketSession::new(5, 0);
    let actions = session.handle_persist_outcome(9, Ok("{\"content\":\"hello\"}".to_string()));
    assert_eq!(
        actions,
        vec![Action::HubBroadcastToRoom {
            conversation_id: 9,
            message: ServerMessage::NewMessage {
                conversation_id: 9,
                message: "{\"content\":\"hello\"}".to_string(),
            },
            skip_user_id: None,
        }]
    );
}

#[test]
fn persist_failure_reports_to_sender_only() {
    let session = WebSocketSession::new(5, 0);
    let actions = session.handle_persist_outcome(9, Err("db down".to_string()));
    assert_eq!(actions.len(), 1);
    assert!(matches!(
        &actions[0],
        Action::SendToClient(ServerMessage::Error { message })
            if message == "Could not send the message. Please try again."
    ));
}

#[test]
fn join_and_leave_delegate_to_hub() {
    let mut session = WebSocketSession::new(5, 0);
    session.handle_auth_outcome(Ok(access_claims(77)));

    let join = session.handle_client_message(&ClientMessage::JoinConversation {
        conversation_id: 9,
    }, 0);
    assert_eq!(join, vec![Action::HubJoinRoom { user_id: 77, conversation_id: 9 }]);

    let leave = session.handle_client_message(&ClientMessage::LeaveConversation {
        conversation_id: 9,
    }, 0);
    assert_eq!(leave, vec![Action::HubLeaveRoom { user_id: 77, conversation_id: 9 }]);
}

#[test]
fn typing_always_skips_the_sender() {
    let mut session = WebSocketSession::new(5, 0);
    session.handle_auth_outcome(Ok(access_claims(77)));

    let start = session.handle_client_message(&ClientMessage::TypingStart {
        conversation_id: 9,
    }, 0);
    assert_eq!(
        start,
        vec![Action::HubBroadcastToRoom {
            conversation_id: 9,
            message: ServerMessage::UserTyping { conversation_id: 9, user_id: 77 },
            skip_user_id: Some(77),
        }]
    );

    let stop = session.handle_client_message(&ClientMessage::TypingStop {
        conversation_id: 9,
    }, 0);
    assert_eq!(
        stop,
        vec![Action::HubBroadcastToRoom {
            conversation_id: 9,
            message: ServerMessage::UserStoppedTyping { conversation_id: 9, user_id: 77 },
            skip_user_id: Some(77),
        }]
    );
}

#[test]
fn ping_refreshes_liveness_and_answers_pong() {
    let mut session = WebSocketSession::new(5, 0);
    let actions = session.handle_client_message(&ClientMessage::Ping, 12_000);
    assert_eq!(session.last_heartbeat, 12_000);
    assert_eq!(actions, vec![Action::SendToClient(ServerMessage::Pong)]);
}

#[test]
fn silent_client_is_stopped_after_timeout() {
    let session = WebSocketSession::new(5, 0);
    let actions = session.heartbeat_tick(CLIENT_TIMEOUT_MS + 1);
    assert_eq!(actions, vec![Action::Stop]);
}

#[test]
fn live_client_is_probed_and_presence_refreshed() {
    let mut session = WebSocketSession::new(5, 0);
    let before_auth = session.heartbeat_tick(1_000);
    assert_eq!(before_auth, vec![Action::SendToClient(ServerMessage::Pong)]);

    session.handle_auth_outcome(Ok(access_claims(77)));
    let after_auth = session.heartbeat_tick(1_000);
    assert_eq!(
        after_auth,
        vec![
            Action::SendToClient(ServerMessage::Pong),
            Action::RefreshPresence { user_id: 77 },
        ]
    );
}

#[test]
fn friend_load_failure_degrades_to_empty_list() {
    let mut session = WebSocketSession::new(5, 0);
    session.handle_auth_outcome(Ok(access_claims(77)));
    let actions = session.handle_friends_loaded(Err("db down".to_string()));
    assert_eq!(actions, vec![Action::SetPresenceOnline { user_id: 77 }]);
    assert!(session.friend_ids.is_empty());
}

#[test]
fn friends_loaded_notifies_and_reports_initial_presence() {
    let mut session = WebSocketSession::new(5, 0);
    session.handle_auth_outcome(Ok(access_claims(77)));
    let actions = session.handle_friends_loaded(Ok(vec![1, 2, 3]));
    assert_eq!(session.friend_ids, vec![1, 2, 3]);
    assert_eq!(
        actions,
        vec![
            Action::SetPresenceOnline { user_id: 77 },
            Action::HubPresenceChanged {
                user_id: 77,
                is_online: true,
                friend_ids: vec![1, 2, 3],
                last_seen: None,
            },
            Action::HubSendInitialPresence { user_id: 77, friend_ids: vec![1, 2, 3] },
        ]
    );
}

#[test]
fn stopping_unauthenticated_session_only_disconnects() {
    let session = WebSocketSession::new(5, 0);
    let actions = session.on_stopped("2024-05-01T00:00:00+00:00".to_string());
    assert_eq!(actions, vec![Action::HubDisconnect { session_id: 5 }]);
}

#[test]
fn stopping_authenticated_session_goes_offline_and_notifies_friends() {
    let mut session = WebSocketSession::new(5, 0);
    session.handle_auth_outcome(Ok(access_claims(77)));
    session.handle_friends_loaded(Ok(vec![1, 2]));

    let actions = session.on_stopped("2024-05-01T00:00:00+00:00".to_string());
    assert_eq!(
        actions,
        vec![
            Action::HubDisconnect { session_id: 5 },
            Action::SetPresenceOffline { user_id: 77 },
            Action::HubPresenceChanged {
                user_id: 77,
                is_online: false,
                friend_ids: vec![1, 2],
                last_seen: Some("2024-05-01T00:00:00+00:00".to_string()),
            },
        ]
    );
}

#[test]
fn empty_content_is_accepted() {
    let mut session = WebSocketSession::new(5, 0);
    session.handle_auth_outcome(Ok(access_claims(77)));
    let actions = session.handle_client_message(
        &ClientMessage::SendMessage { conversation_id: 9, content: "".to_string() },
        0,
    );
    assert_eq!(
        actions,
        vec![Action::PersistMessage {
            sender_id: 77,
            conversation_id: 9,
            content: "".to_string(),
        }]
    );
}
