//! The per-connection session state machine.
//!
//! A session starts unauthenticated and becomes authenticated at most once;
//! a second authentication attempt is rejected without changing state. Each
//! handler consumes one inbound event — a client frame, a token
//! verification outcome, a loaded friend list, a persistence outcome, a
//! heartbeat tick or the connection's end — and returns the exact list of
//! actions the transport must carry out: frames to write back, hub
//! operations, presence-store writes, and the collaborator calls whose
//! outcomes are fed back in as later events. The contracts pin down the
//! full action list and state change for every event in every state.

use vstd::prelude::*;

use crate::claims::Claims;
use crate::claims::TypeClaims;
use crate::message::ClientMessage;
use crate::message::ServerMessage;

verus! {

/// How often the server probes a connection, in milliseconds.
pub const HEARTBEAT_INTERVAL_MS: u64 = 15000;

/// How long a client may stay silent before its connection counts as dead,
/// in milliseconds.
pub const CLIENT_TIMEOUT_MS: u64 = 30000;

/// What a session asks its surroundings to do: write a frame to its own
/// client, run a hub operation, touch the presence store, call a
/// collaborator, or stop the session.
#[derive(Debug, Clone, PartialEq, Eq)]
pub enum Action {
    /// Write this frame to the session's own client.
    SendToClient(ServerMessage),
    /// Verify this bearer token; the outcome comes back through
    /// `handle_auth_outcome`.
    VerifyToken { token: String },
    /// Register the session with the hub.
    HubConnect { session_id: u128 },
    /// Remove the session from the hub.
    HubDisconnect { session_id: u128 },
    /// Record the session under its authenticated user in the hub.
    HubAuthenticate { session_id: u128, user_id: u128 },
    /// Join the user to a conversation's live room.
    HubJoinRoom { user_id: u128, conversation_id: u128 },
    /// Remove the user from a conversation's live room.
    HubLeaveRoom { user_id: u128, conversation_id: u128 },
    /// Fan a frame out to a conversation's live room.
    HubBroadcastToRoom {
        conversation_id: u128,
        message: ServerMessage,
        skip_user_id: Option<u128>,
    },
    /// Tell connected friends that the user's presence changed.
    HubPresenceChanged {
        user_id: u128,
        is_online: bool,
        friend_ids: Vec<u128>,
        last_seen: Option<String>,
    },
    /// Send the user its connected friends as an initial presence report.
    HubSendInitialPresence { user_id: u128, friend_ids: Vec<u128> },
    /// Load the user's friend ids; the outcome comes back through
    /// `handle_friends_loaded`.
    LoadFriends { user_id: u128 },
    /// Persist a message; the outcome comes back through
    /// `handle_persist_outcome`.
    PersistMessage { sender_id: u128, conversation_id: u128, content: String },
    /// Mark the user online in the presence store.
    SetPresenceOnline { user_id: u128 },
    /// Mark the user offline in the presence store, recording when it was
    /// last seen.
    SetPresenceOffline { user_id: u128 },
    /// Extend the user's presence time-to-live.
    RefreshPresence { user_id: u128 },
    /// Terminate the session; the transport then reports the end through
    /// `on_stopped`.
    Stop,
}

/// The message sent when an action needs authentication first.
pub open spec fn auth_required_text() -> Seq<char> {
    "You must authenticate before performing this action"@
}

/// The rejection of a second authentication attempt.
pub open spec fn already_authenticated_text() -> Seq<char> {
    "Session is already authenticated"@
}

/// The rejection of a token the verifier did not accept.
pub open spec fn invalid_token_text() -> Seq<char> {
    "Token is invalid or expired"@
}

/// The rejection of a token of the wrong kind.
pub open spec fn wrong_token_kind_text() -> Seq<char> {
    "Only access tokens are accepted"@
}

/// The report sent to the sender alone when persistence failed.
pub open spec fn persist_failed_text() -> Seq<char> {
    "Could not send the message. Please try again."@
}

/// Whether `a` writes an `Error` frame with the given text to the client.
pub open spec fn is_error_action(a: Action, text: Seq<char>) -> bool {
    a matches Action::SendToClient(ServerMessage::Error { message }) && message@ == text
}

/// Whether `a` writes an `AuthFailed` frame with the given reason to the
/// client.
pub open spec fn is_auth_failed_action(a: Action, text: Seq<char>) -> bool {
    a matches Action::SendToClient(ServerMessage::AuthFailed { reason }) && reason@ == text
}

/// The live state of one client connection.
pub struct WebSocketSession {
    /// Unique id of this connection.
    pub id: u128,
    /// The authenticated user, `None` until the handshake succeeds.
    pub user_id: Option<u128>,
    /// Friend ids snapshotted when authentication completed, so that the
    /// offline notification at teardown needs no storage round-trip.
    pub friend_ids: Vec<u128>,
    /// When the client last showed liveness, in milliseconds.
    pub last_heartbeat: u64,
}

/// The authenticated user of a session known to be authenticated.
pub open spec fn current_user(s: WebSocketSession) -> u128 {
    s.user_id->0
}

impl WebSocketSession {
    pub open spec fn authenticated(self) -> bool {
        self.user_id is Some
    }

    /// A fresh, unauthenticated session created when the transport accepts
    /// a connection at moment `now`.
    pub fn new(id: u128, now: u64) -> (r: WebSocketSession)
        ensures
            r.id == id,
            r.user_id is None,
            r.friend_ids@ == Seq::<u128>::empty(),
            r.last_heartbeat == now,
    {
        WebSocketSession { id, user_id: Option::None, friend_ids: Vec::new(), last_heartbeat: now }
    }

    /// Actions due when the session starts: register with the hub.
    pub fn on_started(&self) -> (r: Vec<Action>)
        ensures
            r@.len() == 1,
            r@[0] == (Action::HubConnect { session_id: self.id }),
    {
        let mut r: Vec<Action> = Vec::new();
        r.push(Action::HubConnect { session_id: self.id });
        r
    }

    /// Consumes one client frame. Authentication-gated frames are rejected
    /// with an `Error` frame and no state change while unauthenticated; a
    /// repeated `Auth` is rejected with `AuthFailed` and no state change;
    /// `Ping` refreshes the liveness stamp and answers `Pong`.
    pub fn handle_client_message(&mut self, msg: &ClientMessage, now: u64) -> (r: Vec<Action>)
        ensures
            final(self).id == old(self).id,
            final(self).user_id == old(self).user_id,
            final(self).friend_ids@ == old(self).friend_ids@,
            ((*msg) matches ClientMessage::Ping ==> final(self).last_heartbeat == now && r@.len()
                == 1 && r@[0] == Action::SendToClient(ServerMessage::Pong)),
            (!((*msg) matches ClientMessage::Ping) ==> final(self).last_heartbeat == old(self).last_heartbeat),
            ((*msg) matches ClientMessage::Auth { token } ==> r@.len() == 1 && (if old(self).authenticated() {
                is_auth_failed_action(r@[0], already_authenticated_text())
            } else {
                r@[0] matches Action::VerifyToken { token: t } && t@ == token@
            })),
            ((*msg) matches ClientMessage::SendMessage { conversation_id, content } ==> r@.len()
                == 1 && (if old(self).authenticated() {
                r@[0] matches Action::PersistMessage {
                    sender_id,
                    conversation_id: c,
                    content: t,
                } && sender_id == current_user(*old(self)) && c == conversation_id && t@
                    == content@
            } else {
                is_error_action(r@[0], auth_required_text())
            })),
            ((*msg) matches ClientMessage::JoinConversation { conversation_id } ==> r@.len() == 1
                && (if old(self).authenticated() {
                r@[0] == (Action::HubJoinRoom {
                    user_id: current_user(*old(self)),
                    conversation_id,
                })
            } else {
                is_error_action(r@[0], auth_required_text())
            })),
            ((*msg) matches ClientMessage::LeaveConversation { conversation_id } ==> r@.len() == 1
                && (if old(self).authenticated() {
                r@[0] == (Action::HubLeaveRoom {
                    user_id: current_user(*old(self)),
                    conversation_id,
                })
            } else {
                is_error_action(r@[0], auth_required_text())
            })),
            ((*msg) matches ClientMessage::TypingStart { conversation_id } ==> r@.len() == 1 && (
            if old(self).authenticated() {
                r@[0] == (Action::HubBroadcastToRoom {
                    conversation_id,
                    message: ServerMessage::UserTyping {
                        conversation_id,
                        user_id: current_user(*old(self)),
                    },
                    skip_user_id: Option::Some(current_user(*old(self))),
                })
            } else {
                is_error_action(r@[0], auth_required_text())
            })),
            ((*msg) matches ClientMessage::TypingStop { conversation_id } ==> r@.len() == 1 && (
            if old(self).authenticated() {
                r@[0] == (Action::HubBroadcastToRoom {
                    conversation_id,
                    message: ServerMessage::UserStoppedTyping {
                        conversation_id,
                        user_id: current_user(*old(self)),
                    },
                    skip_user_id: Option::Some(current_user(*old(self))),
                })
            } else {
                is_error_action(r@[0], auth_required_text())
            })),
    {
        let mut r: Vec<Action> = Vec::new();
        match msg {
            ClientMessage::Auth { token } => {
                if self.user_id.is_some() {
                    r.push(
                        Action::SendToClient(
                            ServerMessage::AuthFailed {
                                reason: "Session is already authenticated".to_owned(),
                            },
                        ),
                    );
                } else {
                    r.push(Action::VerifyToken { token: token.clone() });
                }
            },
            ClientMessage::SendMessage { conversation_id, content } => {
                match self.user_id {
                    Option::Some(uid) => {
                        r.push(
                            Action::PersistMessage {
                                sender_id: uid,
                                conversation_id: *conversation_id,
                                content: content.clone(),
                            },
                        );
                    },
                    Option::None => {
                        r.push(Self::auth_required_error());
                    },
                }
            },
            ClientMessage::JoinConversation { conversation_id } => {
                match self.user_id {
                    Option::Some(uid) => {
                        r.push(
                            Action::HubJoinRoom {
                                user_id: uid,
                                conversation_id: *conversation_id,
                            },
                        );
                    },
                    Option::None => {
                        r.push(Self::auth_required_error());
                    },
                }
            },
            ClientMessage::LeaveConversation { conversation_id } => {
                match self.user_id {
                    Option::Some(uid) => {
                        r.push(
                            Action::HubLeaveRoom {
                                user_id: uid,
                                conversation_id: *conversation_id,
                            },
                        );
                    },
                    Option::None => {
                        r.push(Self::auth_required_error());
                    },
                }
            },
            ClientMessage::TypingStart { conversation_id } => {
                match self.user_id {
                    Option::Some(uid) => {
                        r.push(
                            Action::HubBroadcastToRoom {
                                conversation_id: *conversation_id,
                                message: ServerMessage::UserTyping {
                                    conversation_id: *conversation_id,
                                    user_id: uid,
                                },
                                skip_user_id: Option::Some(uid),
                            },
                        );
                    },
                    Option::None => {
                        r.push(Self::auth_required_error());
                    },
                }
            },
            ClientMessage::TypingStop { conversation_id } => {
                match self.user_id {
                    Option::Some(uid) => {
                        r.push(
                            Action::HubBroadcastToRoom {
                                conversation_id: *conversation_id,
                                message: ServerMessage::UserStoppedTyping {
                                    conversation_id: *conversation_id,
                                    user_id: uid,
                                },
                                skip_user_id: Option::Some(uid),
                            },
                        );
                    },
                    Option::None => {
                        r.push(Self::auth_required_error());
                    },
                }
            },
            ClientMessage::Ping => {
                self.last_heartbeat = now;
                r.push(Action::SendToClient(ServerMessage::Pong));
            },
        }
        r
    }

    /// The rejection of an authentication-gated frame.
    fn auth_required_error() -> (r: Action)
        ensures
            is_error_action(r, auth_required_text()),
    {
        Action::SendToClient(
            ServerMessage::Error {
                message: "You must authenticate before performing this action".to_owned(),
            },
        )
    }

    /// Consumes the outcome of verifying an `Auth` token. A failed
    /// verification or a token of the wrong kind leaves the session
    /// unauthenticated, with the connection open for another attempt; a
    /// valid access token authenticates the session, acknowledges the hub
    /// and the client, and starts the friend-list load. An already
    /// authenticated session rejects the outcome without changing state.
    pub fn handle_auth_outcome(&mut self, outcome: Result<Claims, String>) -> (r: Vec<Action>)
        ensures
            final(self).id == old(self).id,
            final(self).friend_ids@ == old(self).friend_ids@,
            final(self).last_heartbeat == old(self).last_heartbeat,
            (old(self).authenticated() ==> final(self).user_id == old(self).user_id && r@.len()
                == 1 && is_auth_failed_action(r@[0], already_authenticated_text())),
            (!old(self).authenticated() ==> (outcome matches Result::Err(e) ==> final(self).user_id is None && r@.len() == 1 && is_auth_failed_action(
                r@[0],
                invalid_token_text(),
            ))),
            (!old(self).authenticated() ==> (outcome matches Result::Ok(c) ==> (if c._type
                == Option::Some(TypeClaims::AccessToken) {
                final(self).user_id == Option::Some(c.sub) && r@.len() == 3 && r@[0]
                    == (Action::HubAuthenticate {
                    session_id: old(self).id,
                    user_id: c.sub,
                }) && r@[1] == Action::SendToClient(ServerMessage::AuthSuccess { user_id: c.sub })
                    && r@[2] == (Action::LoadFriends { user_id: c.sub })
            } else {
                final(self).user_id is None && r@.len() == 1 && is_auth_failed_action(
                    r@[0],
                    wrong_token_kind_text(),
                )
            }))),
    {
        let mut r: Vec<Action> = Vec::new();
        if self.user_id.is_some() {
            r.push(
                Action::SendToClient(
                    ServerMessage::AuthFailed {
                        reason: "Session is already authenticated".to_owned(),
                    },
                ),
            );
            return r;
        }
        match outcome {
            Result::Err(_reason) => {
                r.push(
                    Action::SendToClient(
                        ServerMessage::AuthFailed {
                            reason: "Token is invalid or expired".to_owned(),
                        },
                    ),
                );
            },
            Result::Ok(claims) => {
                if !claims.is_access_token() {
                    r.push(
                        Action::SendToClient(
                            ServerMessage::AuthFailed {
                                reason: "Only access tokens are accepted".to_owned(),
                            },
                        ),
                    );
                } else {
                    let uid = claims.sub;
                    self.user_id = Option::Some(uid);
                    r.push(Action::HubAuthenticate { session_id: self.id, user_id: uid });
                    r.push(Action::SendToClient(ServerMessage::AuthSuccess { user_id: uid }));
                    r.push(Action::LoadFriends { user_id: uid });
                }
            },
        }
        r
    }

    /// Consumes the loaded friend list. A load failure degrades to an empty
    /// list: presence still goes online, nobody is notified. With friends
    /// present, connected friends learn the user is online and the user
    /// receives its initial presence report. The list is cached for the
    /// offline notification at teardown.
    pub fn handle_friends_loaded(&mut self, result: Result<Vec<u128>, String>) -> (r: Vec<Action>)
        ensures
            final(self).id == old(self).id,
            final(self).user_id == old(self).user_id,
            final(self).last_heartbeat == old(self).last_heartbeat,
            (!old(self).authenticated() ==> final(self).friend_ids@ == old(self).friend_ids@
                && r@.len() == 0),
            (old(self).authenticated() ==> (result matches Result::Ok(ids) ==> final(self).friend_ids@ == ids@ && r@[0] == (Action::SetPresenceOnline {
                user_id: current_user(*old(self)),
            }) && (if ids@.len() == 0 {
                r@.len() == 1
            } else {
                r@.len() == 3 && (r@[1] matches Action::HubPresenceChanged {
                    user_id: u,
                    is_online,
                    friend_ids: f,
                    last_seen,
                } && u == current_user(*old(self)) && is_online == true && f@ == ids@ && last_seen
                    is None) && (r@[2] matches Action::HubSendInitialPresence {
                    user_id: u2,
                    friend_ids: f2,
                } && u2 == current_user(*old(self)) && f2@ == ids@)
            }))),
            (old(self).authenticated() ==> (result is Err ==> final(self).friend_ids@
                == Seq::<u128>::empty() && r@.len() == 1 && r@[0] == (Action::SetPresenceOnline {
                user_id: current_user(*old(self)),
            }))),
    {
        let uid = match self.user_id {
            Option::Some(uid) => uid,
            Option::None => {
                return Vec::new();
            },
        };
        let ids: Vec<u128> = match result {
            Result::Ok(ids) => ids,
            Result::Err(_reason) => Vec::new(),
        };
        let mut r: Vec<Action> = Vec::new();
        r.push(Action::SetPresenceOnline { user_id: uid });
        if ids.len() > 0 {
            let notify_list = copy_ids(&ids);
            let report_list = copy_ids(&ids);
            r.push(
                Action::HubPresenceChanged {
                    user_id: uid,
                    is_online: true,
                    friend_ids: notify_list,
                    last_seen: Option::None,
                },
            );
            r.push(Action::HubSendInitialPresence { user_id: uid, friend_ids: report_list });
        }
        self.friend_ids = ids;
        r
    }

    /// Consumes the outcome of persisting a sent message. Success fans the
    /// stored record out to the conversation's live room with nobody
    /// skipped — the sender's echo is its delivery confirmation. Failure is
    /// reported to the sender alone and nothing is broadcast.
    pub fn handle_persist_outcome(&self, conversation_id: u128, outcome: Result<String, String>)
        -> (r: Vec<Action>)
        ensures
            (outcome matches Result::Ok(m) ==> r@.len() == 1 && r@[0]
                == (Action::HubBroadcastToRoom {
                conversation_id,
                message: ServerMessage::NewMessage { conversation_id, message: m },
                skip_user_id: Option::None,
            })),
            (outcome is Err ==> r@.len() == 1 && is_error_action(r@[0], persist_failed_text())),
    {
        let mut r: Vec<Action> = Vec::new();
        match outcome {
            Result::Ok(message) => {
                r.push(
                    Action::HubBroadcastToRoom {
                        conversation_id,
                        message: ServerMessage::NewMessage { conversation_id, message },
                        skip_user_id: Option::None,
                    },
                );
            },
            Result::Err(_reason) => {
                r.push(
                    Action::SendToClient(
                        ServerMessage::Error {
                            message: "Could not send the message. Please try again.".to_owned(),
                        },
                    ),
                );
            },
        }
        r
    }

    /// One heartbeat tick at moment `now`. A client silent beyond the
    /// timeout window ends the session; otherwise the client is probed and,
    /// when authenticated, the presence time-to-live is refreshed.
    pub fn heartbeat_tick(&self, now: u64) -> (r: Vec<Action>)
        requires
            now >= self.last_heartbeat,
        ensures
            (now - self.last_heartbeat > CLIENT_TIMEOUT_MS ==> r@.len() == 1 && r@[0]
                == Action::Stop),
            (now - self.last_heartbeat <= CLIENT_TIMEOUT_MS ==> r@[0] == Action::SendToClient(
                ServerMessage::Pong,
            ) && (if self.authenticated() {
                r@.len() == 2 && r@[1] == (Action::RefreshPresence {
                    user_id: current_user(*self),
                })
            } else {
                r@.len() == 1
            })),
    {
        let mut r: Vec<Action> = Vec::new();
        if now - self.last_heartbeat > CLIENT_TIMEOUT_MS {
            r.push(Action::Stop);
            return r;
        }
        r.push(Action::SendToClient(ServerMessage::Pong));
        match self.user_id {
            Option::Some(uid) => {
                r.push(Action::RefreshPresence { user_id: uid });
            },
            Option::None => {
            },
        }
        r
    }

    /// Actions due when the connection ends, however it ends: the hub
    /// forgets the session, and an authenticated user goes offline in the
    /// presence store — `now_iso` becomes its last-seen moment — with the
    /// cached friends notified.
    pub fn on_stopped(&self, now_iso: String) -> (r: Vec<Action>)
        ensures
            r@[0] == (Action::HubDisconnect { session_id: self.id }),
            (!self.authenticated() ==> r@.len() == 1),
            (self.authenticated() ==> r@[1] == (Action::SetPresenceOffline {
                user_id: current_user(*self),
            }) && (if self.friend_ids@.len() == 0 {
                r@.len() == 2
            } else {
                r@.len() == 3 && (r@[2] matches Action::HubPresenceChanged {
                    user_id: u,
                    is_online,
                    friend_ids: f,
                    last_seen,
                } && u == current_user(*self) && is_online == false && f@ == self.friend_ids@
                    && last_seen == Option::Some(now_iso))
            })),
    {
        let mut r: Vec<Action> = Vec::new();
        r.push(Action::HubDisconnect { session_id: self.id });
        match self.user_id {
            Option::Some(uid) => {
                r.push(Action::SetPresenceOffline { user_id: uid });
                if self.friend_ids.len() > 0 {
                    let friends = copy_ids(&self.friend_ids);
                    r.push(
                        Action::HubPresenceChanged {
                            user_id: uid,
                            is_online: false,
                            friend_ids: friends,
                            last_seen: Option::Some(now_iso),
                        },
                    );
                }
            },
            Option::None => {
            },
        }
        r
    }
}

/// A plain copy of a list of ids.
fn copy_ids(src: &Vec<u128>) -> (r: Vec<u128>)
    ensures
        r@ == src@,
{
    let n: usize = src.len();
    let mut out: Vec<u128> = Vec::new();
    let mut i: usize = 0;
    while i < n
        invariant
            i <= n,
            n == src@.len(),
            out@.len() == i,
            forall|j: int| 0 <= j < i ==> out@[j] == src@[j],
        decreases n - i,
    {
        out.push(src[i]);
        i = i + 1;
    }
    proof {
        assert(out@ =~= src@);
    }
    out
}

} // verus!
