//! End-to-end flows across the session machine, the hub and the presence
//! store, driving the actions each handler returns by hand.

use chat_core::claims::{Claims, TypeClaims};
use chat_core::message::{ClientMessage, ServerMessage};
use chat_core::models::UserRole;
use chat_core::presence::PresenceStore;
use chat_core::server::WebSocketServer;
use chat_core::session::{Action, WebSocketSession};

fn valid_access_claims(user: u128) -> Claims {
    Claims::new(user, UserRole::User, 1_000, 900).with_type(TypeClaims::AccessToken)
}

/// Connects and authenticates a session for `user` against the hub.
fn bring_online(hub: &mut WebSocketServer, session_id: u128, user: u128) -> WebSocketSession {
    let mut session = WebSocketSession::new(session_id, 0);
    for action in session.on_started() {
        match action {
            Action::HubConnect { session_id } => hub.connect(session_id),
            other => panic!("unexpected action at start: {other:?}"),
        }
    }
    let actions = session.handle_auth_outcome(Ok(valid_access_claims(user)));
    assert!(matches!(
        actions[1],
        Action::SendToClient(ServerMessage::AuthSuccess { user_id }) if user_id == user
    ));
    match actions[0] {
        Action::HubAuthenticate { session_id, user_id } => {
            hub.authenticate(session_id, user_id).unwrap();
        }
        ref other => panic!("unexpected action after auth: {other:?}"),
    }
    session
}

#[test]
fn send_message_reaches_both_members_including_sender() {
    let mut hub = WebSocketServer::new();

    // Client A connects, authenticates and joins conversation C.
    let mut session_a = bring_online(&mut hub, 1, 100);
    let conv: u128 = 555;
    for action in session_a.handle_client_message(
        &ClientMessage::JoinConversation { conversation_id: conv },
        0,
    ) {
        match action {
            Action::HubJoinRoom { user_id, conversation_id } => {
                hub.join_room(user_id, conversation_id)
            }
            other => panic!("unexpected action on join: {other:?}"),
        }
    }

    // Client B joins too and sends a message.
    let mut session_b = bring_online(&mut hub, 2, 200);
    for action in session_b.handle_client_message(
        &ClientMessage::JoinConversation { conversation_id: conv },
        0,
    ) {
        match action {
            Action::HubJoinRoom { user_id, conversation_id } => {
                hub.join_room(user_id, conversation_id)
            }
            other => panic!("unexpected action on join: {other:?}"),
        }
    }
    let send = session_b.handle_client_message(
        &ClientMessage::SendMessage { conversation_id: conv, content: "hi".to_string() },
        0,
    );
    let (sender_id, content) = match &send[0] {
        Action::PersistMessage { sender_id, conversation_id, content } => {
            assert_eq!(*conversation_id, conv);
            (*sender_id, content.clone())
        }
        other => panic!("unexpected action on send: {other:?}"),
    };
    assert_eq!(sender_id, 200);

    // The storage collaborator persists and hands back the stored record.
    let stored = format!("{{\"content\":\"{content}\"}}");
    let after = session_b.handle_persist_outcome(conv, Ok(stored.clone()));
    let recipients = match &after[0] {
        Action::HubBroadcastToRoom { conversation_id, message, skip_user_id } => {
            assert_eq!(*conversation_id, conv);
            assert_eq!(*skip_user_id, None, "the sender gets its own echo");
            assert!(matches!(
                message,
                ServerMessage::NewMessage { conversation_id, message }
                    if *conversation_id == conv && message.contains("hi")
            ));
            hub.broadcast_to_room(*conversation_id, *skip_user_id)
        }
        other => panic!("unexpected action after persist: {other:?}"),
    };
    assert!(recipients.contains(&1), "client A receives the new message");
    assert!(recipients.contains(&2), "client B, the sender, receives its echo");
}

#[test]
fn authenticating_notifies_online_friends_and_reports_them_back() {
    let mut hub = WebSocketServer::new();
    let mut store = PresenceStore::new();

    // B is already connected and authenticated.
    let _session_b = bring_online(&mut hub, 2, 200);

    // A connects and authenticates; A and B are friends.
    let mut session_a = bring_online(&mut hub, 1, 100);
    let actions = session_a.handle_friends_loaded(Ok(vec![200, 300]));

    assert_eq!(actions[0], Action::SetPresenceOnline { user_id: 100 });
    store.set_online(100, 0);
    assert!(store.is_online(100, 30));

    // The hub fans the presence change out to connected friends only.
    let sessions_of_b = match &actions[1] {
        Action::HubPresenceChanged { user_id, is_online, friend_ids, last_seen } => {
            assert_eq!((*user_id, *is_online), (100, true));
            assert_eq!(*last_seen, None);
            let (recipients, event) =
                hub.user_presence_changed(*user_id, *is_online, friend_ids, last_seen.clone());
            assert_eq!(event, ServerMessage::UserOnline { user_id: 100 });
            recipients
        }
        other => panic!("unexpected action: {other:?}"),
    };
    assert_eq!(sessions_of_b, vec![2], "B must learn that A came online");

    // A's initial presence report lists exactly the connected friends.
    match &actions[2] {
        Action::HubSendInitialPresence { user_id, friend_ids } => {
            let (recipients, report) = hub.send_initial_presence(*user_id, friend_ids);
            assert_eq!(recipients, vec![1], "the report goes to A's own session");
            assert_eq!(report, ServerMessage::OnlineUsers { user_ids: vec![200] });
        }
        other => panic!("unexpected action: {other:?}"),
    }
}

#[test]
fn timeout_disconnect_reports_offline_with_last_seen() {
    let mut hub = WebSocketServer::new();
    let mut store = PresenceStore::new();

    let _session_b = bring_online(&mut hub, 2, 200);
    let mut session_a = bring_online(&mut hub, 1, 100);
    session_a.handle_friends_loaded(Ok(vec![200]));
    store.set_online(100, 0);

    // A's client goes silent; the heartbeat declares the connection dead.
    let tick = session_a.heartbeat_tick(40_000);
    assert_eq!(tick, vec![Action::Stop]);

    let stamp = "2024-05-01T12:00:00+00:00".to_string();
    let teardown = session_a.on_stopped(stamp.clone());
    assert_eq!(teardown[0], Action::HubDisconnect { session_id: 1 });
    hub.disconnect(1);
    assert!(!hub.has_user(100));

    assert_eq!(teardown[1], Action::SetPresenceOffline { user_id: 100 });
    store.set_offline(100, stamp.clone());

    let delivered = match &teardown[2] {
        Action::HubPresenceChanged { user_id, is_online, friend_ids, last_seen } => {
            assert_eq!((*user_id, *is_online), (100, false));
            assert_eq!(*last_seen, Some(stamp.clone()));
            let (recipients, event) =
                hub.user_presence_changed(*user_id, *is_online, friend_ids, last_seen.clone());
            assert_eq!(
                event,
                ServerMessage::UserOffline { user_id: 100, last_seen: Some(stamp.clone()) }
            );
            recipients
        }
        other => panic!("unexpected action: {other:?}"),
    };
    assert_eq!(delivered, vec![2], "B, the friend, learns A went offline");

    // A later presence batch reports A offline with the very same stamp.
    let batch = store.get_batch(&vec![100], 60);
    assert_eq!(batch.len(), 1);
    assert_eq!(batch[0].user_id, 100);
    assert!(!batch[0].is_online);
    assert_eq!(batch[0].last_seen, Some(stamp));
}

#[test]
fn auth_replay_keeps_room_delivery_on_original_mapping() {
    let mut hub = WebSocketServer::new();
    let conv: u128 = 555;

    let mut session = bring_online(&mut hub, 1, 100);
    hub.join_room(100, conv);

    // A second authentication attempt is rejected outright...
    let replay = session.handle_client_message(
        &ClientMessage::Auth { token: "another-token".to_string() },
        0,
    );
    assert!(matches!(
        &replay[0],
        Action::SendToClient(ServerMessage::AuthFailed { .. })
    ));
    // ...and even a forged verification outcome changes no mapping.
    session.handle_auth_outcome(Ok(valid_access_claims(999)));
    assert_eq!(session.user_id, Some(100));

    // A room broadcast still reaches the session through the original
    // user mapping, and nothing is registered for the impostor user.
    let recipients = hub.broadcast_to_room(conv, None);
    assert_eq!(recipients, vec![1]);
    assert!(!hub.has_user(999));
}

#[test]
fn typing_start_reaches_the_room_but_never_the_typist() {
    let mut hub = WebSocketServer::new();
    let conv: u128 = 555;

    let mut session_a = bring_online(&mut hub, 1, 100);
    let _session_b = bring_online(&mut hub, 2, 200);
    hub.join_room(100, conv);
    hub.join_room(200, conv);

    let actions = session_a.handle_client_message(
        &ClientMessage::TypingStart { conversation_id: conv },
        0,
    );
    let recipients = match &actions[0] {
        Action::HubBroadcastToRoom { conversation_id, message, skip_user_id } => {
            assert_eq!(
                *message,
                ServerMessage::UserTyping { conversation_id: conv, user_id: 100 }
            );
            assert_eq!(*skip_user_id, Some(100));
            hub.broadcast_to_room(*conversation_id, *skip_user_id)
        }
        other => panic!("unexpected action: {other:?}"),
    };
    assert!(recipients.contains(&2), "B sees that A is typing");
    assert!(!recipients.contains(&1), "A never receives its own typing event");
}
