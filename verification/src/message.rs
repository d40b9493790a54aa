//! Wire-protocol data types exchanged between clients and the server.
//!
//! Identifiers travel as plain 128-bit values (the numeric form of the
//! service's UUIDs); opaque JSON payloads travel as their serialized text.
//! Frames are serialized by the verified encoders in `wire` and inbound
//! frames decoded by the verified parser in `parse`.

use vstd::prelude::*;

verus! {

/// Frames a client may send to the server.
#[derive(Debug, Clone, PartialEq, Eq)]
pub enum ClientMessage {
    /// Authenticate the connection with a bearer token.
    Auth { token: String },
    /// Send a message into a conversation.
    SendMessage { conversation_id: u128, content: String },
    /// Join a conversation room for live updates.
    JoinConversation { conversation_id: u128 },
    /// Leave a conversation room.
    LeaveConversation { conversation_id: u128 },
    /// Started typing in a conversation.
    TypingStart { conversation_id: u128 },
    /// Stopped typing in a conversation.
    TypingStop { conversation_id: u128 },
    /// Liveness probe.
    Ping,
}

/// Frames the server may send to a client.
#[derive(Debug, Clone, PartialEq, Eq)]
pub enum ServerMessage {
    /// Authentication succeeded.
    AuthSuccess { user_id: u128 },
    /// Authentication failed.
    AuthFailed { reason: String },
    /// A new message in a conversation; the message itself is an opaque
    /// serialized object owned by the storage layer.
    NewMessage { conversation_id: u128, message: String },
    /// A message was edited.
    MessageEdited { conversation_id: u128, message_id: u128, new_content: String },
    /// A message was deleted.
    MessageDeleted { conversation_id: u128, message_id: u128 },
    /// A user read messages up to a given point.
    MessagesRead { conversation_id: u128, user_id: u128, last_read_message_id: u128 },
    /// The online users visible to the recipient.
    OnlineUsers { user_ids: Vec<u128> },
    /// A friend came online.
    UserOnline { user_id: u128 },
    /// A friend went offline, with the moment it was last seen.
    UserOffline { user_id: u128, last_seen: Option<String> },
    /// A newly created group conversation, as an opaque serialized object.
    NewGroup { conversation: String },
    /// A user is typing in a conversation.
    UserTyping { conversation_id: u128, user_id: u128 },
    /// A user stopped typing in a conversation.
    UserStoppedTyping { conversation_id: u128, user_id: u128 },
    /// Reply to a liveness probe.
    Pong,
    /// An error scoped to the receiving connection.
    Error { message: String },
}

} // verus!
