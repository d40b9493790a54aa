//! Registry behavior: connect, authenticate, rooms, multi-device and
//! cleanup.

use chat_core::server::WebSocketServer;

#[test]
fn test_new_server_is_empty() {
    let server = WebSocketServer::new();
    assert!(server.session_count() == 0);
    assert!(server.user_count() == 0);
    assert!(server.room_count() == 0);
}

#[test]
fn test_get_online_users_empty() {
    let server = WebSocketServer::new();
    assert!(server.get_online_users().is_empty());
}

#[test]
fn test_get_online_users_returns_authenticated_users() {
    let mut server = WebSocketServer::new();
    let user_a: u128 = 11;
    let user_b: u128 = 12;
    let session_a: u128 = 101;
    let session_b: u128 = 102;

    server.authenticate(session_a, user_a).unwrap();
    server.authenticate(session_b, user_b).unwrap();

    let online = server.get_online_users();
    assert_eq!(online.len(), 2);
    assert!(online.contains(&user_a));
    assert!(online.contains(&user_b));
}

#[test]
fn test_connect_adds_session() {
    let mut server = WebSocketServer::new();
    let session_id: u128 = 7;
    server.connect(session_id);
    assert!(server.has_session(session_id));
    // An unauthenticated connection is not online.
    let online = server.get_online_users();
    assert!(online.is_empty(), "no user has authenticated yet");
}

#[test]
fn test_authenticate_and_get_online() {
    let mut server = WebSocketServer::new();
    let user_id: u128 = 21;
    let session_id: u128 = 201;

    server.connect(session_id);
    server.authenticate(session_id, user_id).unwrap();

    let online = server.get_online_users();
    assert_eq!(online.len(), 1);
    assert!(online.contains(&user_id));
}

#[test]
fn test_join_room_creates_room() {
    let mut server = WebSocketServer::new();
    let user_id: u128 = 31;
    let conv_id: u128 = 301;

    server.join_room(user_id, conv_id);
    assert!(server.has_room(conv_id));

    // Broadcasting into the room does not panic even with nobody connected.
    let recipients = server.broadcast_to_room(conv_id, None);
    assert!(recipients.is_empty());
}

#[test]
fn test_leave_room_removes_user() {
    let mut server = WebSocketServer::new();
    let user_id: u128 = 41;
    let conv_id: u128 = 401;

    server.join_room(user_id, conv_id);
    assert_eq!(server.room_members(conv_id).unwrap().len(), 1);

    server.leave_room(user_id, conv_id);
    assert!(!server.has_room(conv_id), "an emptied room must be dropped");
}

#[test]
fn test_disconnect_cleans_up_rooms() {
    let mut server = WebSocketServer::new();
    let user_id: u128 = 51;
    let session_id: u128 = 501;
    let conv_a: u128 = 502;
    let conv_b: u128 = 503;

    server.connect(session_id);
    server.authenticate(session_id, user_id).unwrap();
    server.join_room(user_id, conv_a);
    server.join_room(user_id, conv_b);

    server.disconnect(session_id);

    assert!(server.user_count() == 0);
    assert!(server.room_count() == 0, "every emptied room must be swept");
}

#[test]
fn test_multiple_users_in_room() {
    let mut server = WebSocketServer::new();
    let user_a: u128 = 61;
    let user_b: u128 = 62;
    let user_c: u128 = 63;
    let conv_id: u128 = 601;

    server.join_room(user_a, conv_id);
    server.join_room(user_b, conv_id);
    server.join_room(user_c, conv_id);

    assert_eq!(server.room_members(conv_id).unwrap().len(), 3);

    // One user leaves; the room survives with the others.
    server.leave_room(user_b, conv_id);
    assert_eq!(server.room_members(conv_id).unwrap().len(), 2);
}

#[test]
fn test_multi_device_same_user() {
    let mut server = WebSocketServer::new();
    let user_id: u128 = 71;
    let session_1: u128 = 701;
    let session_2: u128 = 702;

    server.connect(session_1);
    server.authenticate(session_1, user_id).unwrap();
    assert!(server.user_sessions(user_id).unwrap().contains(&session_1));

    server.connect(session_2);
    server.authenticate(session_2, user_id).unwrap();

    let sessions = server.user_sessions(user_id).unwrap();
    assert!(sessions.contains(&session_1), "the first session stays");
    assert!(sessions.contains(&session_2), "the second session is added");
    assert_eq!(sessions.len(), 2, "the user has two sessions (multi-device)");
    assert_eq!(server.user_count(), 1, "still one user entry");
}

#[test]
fn test_broadcast_to_nonexistent_room_no_panic() {
    let server = WebSocketServer::new();
    let fake_conv: u128 = 999;

    let recipients = server.broadcast_to_room(fake_conv, None);
    assert!(recipients.is_empty());
}

#[test]
fn test_send_to_user_not_online_no_panic() {
    let server = WebSocketServer::new();
    let fake_user: u128 = 998;

    let recipients = server.send_to_user(fake_user);
    assert!(recipients.is_empty());
}

#[test]
fn multi_device_receives_send_to_user_and_broadcast() {
    let mut server = WebSocketServer::new();
    let user_id: u128 = 81;
    let session_1: u128 = 801;
    let session_2: u128 = 802;
    let conv_id: u128 = 803;

    server.connect(session_1);
    server.connect(session_2);
    server.authenticate(session_1, user_id).unwrap();
    server.authenticate(session_2, user_id).unwrap();
    server.join_room(user_id, conv_id);

    let direct = server.send_to_user(user_id);
    assert!(direct.contains(&session_1));
    assert!(direct.contains(&session_2));

    let broadcast = server.broadcast_to_room(conv_id, None);
    assert!(broadcast.contains(&session_1));
    assert!(broadcast.contains(&session_2));
}

#[test]
fn broadcast_skip_excludes_every_sender_session() {
    let mut server = WebSocketServer::new();
    let sender: u128 = 91;
    let other: u128 = 92;
    let sender_s1: u128 = 901;
    let sender_s2: u128 = 902;
    let other_s: u128 = 903;
    let conv_id: u128 = 904;

    for s in [sender_s1, sender_s2, other_s] {
        server.connect(s);
    }
    server.authenticate(sender_s1, sender).unwrap();
    server.authenticate(sender_s2, sender).unwrap();
    server.authenticate(other_s, other).unwrap();
    server.join_room(sender, conv_id);
    server.join_room(other, conv_id);

    let skipped = server.broadcast_to_room(conv_id, Some(sender));
    assert!(!skipped.contains(&sender_s1));
    assert!(!skipped.contains(&sender_s2));
    assert!(skipped.contains(&other_s));

    let unskipped = server.broadcast_to_room(conv_id, None);
    assert!(unskipped.contains(&sender_s1));
    assert!(unskipped.contains(&sender_s2));
    assert!(unskipped.contains(&other_s));
}

#[test]
fn disconnect_one_of_two_sessions_keeps_user_online() {
    let mut server = WebSocketServer::new();
    let user_id: u128 = 95;
    let session_1: u128 = 951;
    let session_2: u128 = 952;
    let conv_id: u128 = 953;

    server.connect(session_1);
    server.connect(session_2);
    server.authenticate(session_1, user_id).unwrap();
    server.authenticate(session_2, user_id).unwrap();
    server.join_room(user_id, conv_id);

    server.disconnect(session_1);
    assert!(server.has_user(user_id), "a device remains, so the user stays online");
    assert!(server.has_room(conv_id));

    server.disconnect(session_2);
    assert!(!server.has_user(user_id), "the last session removes the user");
    assert!(!server.has_room(conv_id), "the user's rooms are swept");
}

#[test]
fn disconnect_twice_is_idempotent() {
    let mut server = WebSocketServer::new();
    let user_id: u128 = 97;
    let session_id: u128 = 971;
    let conv_id: u128 = 972;
    let other_user: u128 = 98;
    let other_session: u128 = 973;

    server.connect(session_id);
    server.connect(other_session);
    server.authenticate(session_id, user_id).unwrap();
    server.authenticate(other_session, other_user).unwrap();
    server.join_room(other_user, conv_id);

    server.disconnect(session_id);
    let users_after = server.get_online_users();
    let sessions_after = server.session_count();

    // A second disconnect of the same, already absent session changes
    // nothing observable.
    server.disconnect(session_id);
    assert_eq!(server.get_online_users(), users_after);
    assert_eq!(server.session_count(), sessions_after);
    assert!(server.has_room(conv_id));
    assert!(server.has_session(other_session));
}

#[test]
fn send_to_users_reaches_each_listed_connected_user() {
    let mut server = WebSocketServer::new();
    let user_a: u128 = 121;
    let user_b: u128 = 122;
    let offline_user: u128 = 123;
    let session_a: u128 = 1201;
    let session_b: u128 = 1202;

    server.connect(session_a);
    server.connect(session_b);
    server.authenticate(session_a, user_a).unwrap();
    server.authenticate(session_b, user_b).unwrap();

    let recipients = server.send_to_users(&vec![user_a, user_b, offline_user]);
    assert!(recipients.contains(&session_a));
    assert!(recipients.contains(&session_b));
    assert_eq!(recipients.len(), 2);
}

#[test]
fn broadcast_to_all_reaches_every_connection() {
    let mut server = WebSocketServer::new();
    server.connect(1);
    server.connect(2);
    server.authenticate(2, 42).unwrap();

    let everyone = server.broadcast_to_all();
    assert_eq!(everyone.len(), 2);
    assert!(everyone.contains(&1));
    assert!(everyone.contains(&2));
}

#[test]
fn joining_the_same_room_twice_keeps_one_membership() {
    let mut server = WebSocketServer::new();
    let user_id: u128 = 131;
    let conv_id: u128 = 1301;

    server.join_room(user_id, conv_id);
    server.join_room(user_id, conv_id);
    assert_eq!(server.room_members(conv_id).unwrap().len(), 1);

    server.leave_room(user_id, conv_id);
    assert!(!server.has_room(conv_id));
}
