//! Outbound wire encoding: frame shapes, UUID form and string escaping,
//! cross-checked against the JSON and UUID crates the transport uses.

use chat_core::message::ServerMessage;
use chat_core::wire::encode_server_message;
use uuid::Uuid;

#[test]
fn test_server_auth_success_serialize() {
    let uid = Uuid::now_v7();
    let msg = ServerMessage::AuthSuccess { user_id: uid.as_u128() };
    let json = encode_server_message(&msg);
    assert!(json.contains("\"type\":\"authSuccess\""));
    assert!(json.contains(&uid.to_string()));
}

#[test]
fn test_server_auth_failed_serialize() {
    let msg = ServerMessage::AuthFailed { reason: "Token hết hạn".to_string() };
    let json = encode_server_message(&msg);
    assert!(json.contains("\"type\":\"authFailed\""));
    assert!(json.contains("Token hết hạn"));
}

#[test]
fn test_server_new_message_serialize() {
    let conv_id = Uuid::now_v7();
    let msg = ServerMessage::NewMessage {
        conversation_id: conv_id.as_u128(),
        message: "{\"content\":\"Hello\"}".to_string(),
    };
    let json = encode_server_message(&msg);
    assert!(json.contains("\"type\":\"newMessage\""));
    assert!(json.contains("\"content\":\"Hello\""));
}

#[test]
fn test_server_pong_serialize() {
    let msg = ServerMessage::Pong;
    let json = encode_server_message(&msg);
    assert_eq!(json, r#"{"type":"pong"}"#);
}

#[test]
fn test_server_error_serialize() {
    let msg = ServerMessage::Error { message: "Lỗi hệ thống".to_string() };
    let json = encode_server_message(&msg);
    assert!(json.contains("\"type\":\"error\""));
    assert!(json.contains("Lỗi hệ thống"));
}

#[test]
fn test_server_online_users_serialize() {
    let u1 = Uuid::now_v7();
    let u2 = Uuid::now_v7();
    let msg = ServerMessage::OnlineUsers { user_ids: vec![u1.as_u128(), u2.as_u128()] };
    let json = encode_server_message(&msg);
    assert!(json.contains("\"type\":\"onlineUsers\""));
    assert!(json.contains(&u1.to_string()));
    assert!(json.contains(&u2.to_string()));
}

#[test]
fn test_server_user_typing_serialize() {
    let conv_id = Uuid::now_v7();
    let uid = Uuid::now_v7();
    let msg = ServerMessage::UserTyping {
        conversation_id: conv_id.as_u128(),
        user_id: uid.as_u128(),
    };
    let json = encode_server_message(&msg);
    assert!(json.contains("\"type\":\"userTyping\""));
}

#[test]
fn uuid_form_matches_the_uuid_crate() {
    let uid = Uuid::parse_str("550e8400-e29b-41d4-a716-446655440000").unwrap();
    let json = encode_server_message(&ServerMessage::UserOnline { user_id: uid.as_u128() });
    assert_eq!(json, r#"{"type":"userOnline","userId":"550e8400-e29b-41d4-a716-446655440000"}"#);

    let random = Uuid::now_v7();
    let json = encode_server_message(&ServerMessage::UserOnline { user_id: random.as_u128() });
    assert!(json.contains(&random.to_string()));
}

#[test]
fn escaping_round_trips_through_a_json_parser() {
    let tricky = "quote:\" backslash:\\ newline:\n tab:\t bell:\u{7} emoji:🇻🇳".to_string();
    let json = encode_server_message(&ServerMessage::Error { message: tricky.clone() });
    let parsed: serde_json::Value = serde_json::from_str(&json).expect("valid JSON");
    assert_eq!(parsed["type"], "error");
    assert_eq!(parsed["message"], serde_json::Value::String(tricky));
}

#[test]
fn user_offline_reports_last_seen_or_null() {
    let uid = Uuid::now_v7();
    let with_stamp = encode_server_message(&ServerMessage::UserOffline {
        user_id: uid.as_u128(),
        last_seen: Some("2024-05-01T00:00:00+00:00".to_string()),
    });
    let parsed: serde_json::Value = serde_json::from_str(&with_stamp).unwrap();
    assert_eq!(parsed["lastSeen"], "2024-05-01T00:00:00+00:00");

    let without = encode_server_message(&ServerMessage::UserOffline {
        user_id: uid.as_u128(),
        last_seen: None,
    });
    let parsed: serde_json::Value = serde_json::from_str(&without).unwrap();
    assert!(parsed["lastSeen"].is_null());
}
