//! Inbound frame decoding: the frame shapes, tolerance for whitespace,
//! field order and escapes, rejection of malformed text, and round trips
//! through the encoder.

use chat_core::message::ClientMessage;
use chat_core::parse::decode_client_message;
use chat_core::wire::encode_client_message;
use uuid::Uuid;

#[test]
fn test_client_auth_deserialize() {
    let json = r#"{"type":"auth","token":"my-jwt-token"}"#;
    let msg = decode_client_message(json).unwrap();
    assert!(matches!(msg, ClientMessage::Auth { token } if token == "my-jwt-token"));
}

#[test]
fn test_client_send_message_deserialize() {
    let id = Uuid::now_v7();
    let json =
        format!(r#"{{"type":"sendMessage","conversationId":"{}","content":"Xin chào!"}}"#, id);
    let msg = decode_client_message(&json).unwrap();
    match msg {
        ClientMessage::SendMessage { conversation_id, content } => {
            assert_eq!(conversation_id, id.as_u128());
            assert_eq!(content, "Xin chào!");
        }
        _ => panic!("Expected SendMessage variant"),
    }
}

#[test]
fn test_client_join_conversation_deserialize() {
    let id = Uuid::now_v7();
    let json = format!(r#"{{"type":"joinConversation","conversationId":"{}"}}"#, id);
    let msg = decode_client_message(&json).unwrap();
    assert!(matches!(
        msg,
        ClientMessage::JoinConversation { conversation_id } if conversation_id == id.as_u128()
    ));
}

#[test]
fn test_client_leave_conversation_deserialize() {
    let id = Uuid::now_v7();
    let json = format!(r#"{{"type":"leaveConversation","conversationId":"{}"}}"#, id);
    let msg = decode_client_message(&json).unwrap();
    assert!(matches!(
        msg,
        ClientMessage::LeaveConversation { conversation_id } if conversation_id == id.as_u128()
    ));
}

#[test]
fn test_client_typing_start_deserialize() {
    let id = Uuid::now_v7();
    let json = format!(r#"{{"type":"typingStart","conversationId":"{}"}}"#, id);
    let msg = decode_client_message(&json).unwrap();
    assert!(matches!(
        msg,
        ClientMessage::TypingStart { conversation_id } if conversation_id == id.as_u128()
    ));
}

#[test]
fn test_client_typing_stop_deserialize() {
    let id = Uuid::now_v7();
    let json = format!(r#"{{"type":"typingStop","conversationId":"{}"}}"#, id);
    let msg = decode_client_message(&json).unwrap();
    assert!(matches!(
        msg,
        ClientMessage::TypingStop { conversation_id } if conversation_id == id.as_u128()
    ));
}

#[test]
fn test_client_ping_deserialize() {
    let json = r#"{"type":"ping"}"#;
    let msg = decode_client_message(json).unwrap();
    assert!(matches!(msg, ClientMessage::Ping));
}

#[test]
fn test_invalid_type_returns_error() {
    let json = r#"{"type":"unknownType"}"#;
    let result = decode_client_message(json);
    assert!(result.is_none());
}

#[test]
fn test_missing_required_field_returns_error() {
    // sendMessage without its content field
    let json = r#"{"type":"sendMessage","conversationId":"550e8400-e29b-41d4-a716-446655440000"}"#;
    let result = decode_client_message(json);
    assert!(result.is_none());
}

#[test]
fn test_client_message_roundtrip() {
    let id = Uuid::now_v7();
    let original = ClientMessage::SendMessage {
        conversation_id: id.as_u128(),
        content: "Test message 🇻🇳".to_string(),
    };
    let json = encode_client_message(&original);
    let deserialized = decode_client_message(&json).unwrap();

    match deserialized {
        ClientMessage::SendMessage { conversation_id, content } => {
            assert_eq!(conversation_id, id.as_u128());
            assert_eq!(content, "Test message 🇻🇳");
        }
        _ => panic!("Roundtrip failed"),
    }
}

#[test]
fn test_empty_content_allowed() {
    let id = Uuid::now_v7();
    let json = format!(r#"{{"type":"sendMessage","conversationId":"{}","content":""}}"#, id);
    let msg = decode_client_message(&json).unwrap();
    assert!(matches!(msg, ClientMessage::SendMessage { content, .. } if content.is_empty()));
}

#[test]
fn every_client_frame_round_trips() {
    let id = Uuid::parse_str("550e8400-e29b-41d4-a716-446655440000").unwrap().as_u128();
    let frames = vec![
        ClientMessage::Auth { token: "with \"quotes\" and \\slashes\\ and \nnewlines".to_string() },
        ClientMessage::SendMessage { conversation_id: id, content: "hello".to_string() },
        ClientMessage::JoinConversation { conversation_id: id },
        ClientMessage::LeaveConversation { conversation_id: id },
        ClientMessage::TypingStart { conversation_id: id },
        ClientMessage::TypingStop { conversation_id: id },
        ClientMessage::Ping,
    ];
    for frame in frames {
        let json = encode_client_message(&frame);
        assert_eq!(decode_client_message(&json), Some(frame));
    }
}

#[test]
fn decoding_tolerates_whitespace_and_field_order() {
    let json = " { \"content\" : \"hi\" ,\n\t\"conversationId\":\"550e8400-e29b-41d4-a716-446655440000\" , \"type\" : \"sendMessage\" } ";
    let msg = decode_client_message(json).unwrap();
    match msg {
        ClientMessage::SendMessage { conversation_id, content } => {
            assert_eq!(
                conversation_id,
                Uuid::parse_str("550e8400-e29b-41d4-a716-446655440000").unwrap().as_u128()
            );
            assert_eq!(content, "hi");
        }
        _ => panic!("Expected SendMessage variant"),
    }
}

#[test]
fn decoding_handles_unicode_escapes_and_surrogate_pairs() {
    let json = r#"{"type":"auth","token":"\u0041\u0042\u00e9\ud83d\ude00\t"}"#;
    let msg = decode_client_message(json).unwrap();
    assert!(matches!(msg, ClientMessage::Auth { token } if token == "AB\u{e9}\u{1F600}\t"));
}

#[test]
fn decoding_rejects_duplicates_and_malformed_text() {
    assert!(decode_client_message(r#"{"type":"ping","type":"ping"}"#).is_none());
    assert!(decode_client_message("").is_none());
    assert!(decode_client_message("not json").is_none());
    assert!(decode_client_message(r#"{"type":"ping""#).is_none());
    assert!(decode_client_message(r#"{"type":"auth","token":"unterminated}"#).is_none());
    assert!(decode_client_message(r#"{"type":"joinConversation","conversationId":"not-a-uuid"}"#)
        .is_none());
    assert!(decode_client_message(r#"{"type":"auth","token":"bad \q escape"}"#).is_none());
    assert!(decode_client_message(r#"{"type":"ping"} trailing"#).is_none());
}
