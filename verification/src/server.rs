//! The connection registry ("hub"): the single owner of the session, user
//! and room state, and the routing of every broadcast.
//!
//! State is viewed abstractly as a `HubView`: the set of live sessions, the
//! map from an authenticated user to its sessions (multi-device), and the
//! map from a conversation to the users currently joined to its live room.
//! Every mutating operation's contract gives the new view as a function of
//! the old one; every routing operation's contract characterizes exactly
//! which sessions receive the message. Delivery itself — writing to a
//! connection handle — belongs to the transport and is fed by the session
//! id lists these functions return.

use vstd::prelude::*;

use crate::idmap::IdSet;
use crate::idmap::IdSetMap;
use crate::idmap::keys_emptied_by;
use crate::idmap::map_purge;
use crate::idmap::map_remove_val;
use crate::idmap::set_after_add;
use crate::message::ServerMessage;

verus! {

broadcast use vstd::seq_lib::lemma_seq_contains_after_push, vstd::seq_lib::lemma_seq_subrange_elements;

/// Abstract state of the hub.
pub ghost struct HubView {
    /// Every live connection, authenticated or not.
    pub sessions: Set<u128>,
    /// Sessions of each authenticated user; a key is present exactly while
    /// the user has at least one session.
    pub users: Map<u128, Set<u128>>,
    /// Users currently joined to each live room; a key is present exactly
    /// while the room has at least one joined user.
    pub rooms: Map<u128, Set<u128>>,
}

/// The hub after a new connection registers.
pub open spec fn spec_connect(v: HubView, session_id: u128) -> HubView {
    HubView { sessions: v.sessions.insert(session_id), users: v.users, rooms: v.rooms }
}

/// The hub after a session authenticates as `user_id`.
pub open spec fn spec_authenticate(v: HubView, session_id: u128, user_id: u128) -> HubView {
    HubView {
        sessions: v.sessions,
        users: v.users.insert(user_id, set_after_add(v.users, user_id, session_id)),
        rooms: v.rooms,
    }
}

/// The rooms after the users in `gone` leave every room; rooms left with no
/// member are dropped.
pub open spec fn rooms_after_users_left(rooms: Map<u128, Set<u128>>, gone: Set<u128>) -> Map<
    u128,
    Set<u128>,
> {
    Map::new(
        |c: u128| rooms.dom().contains(c) && !rooms[c].difference(gone).is_empty(),
        |c: u128| rooms[c].difference(gone),
    )
}

/// The hub after a session disconnects: the session disappears, the user
/// that owned it loses it (and disappears with its rooms when it was the
/// last one).
pub open spec fn spec_disconnect(v: HubView, session_id: u128) -> HubView {
    HubView {
        sessions: v.sessions.remove(session_id),
        users: map_purge(v.users, session_id),
        rooms: rooms_after_users_left(v.rooms, keys_emptied_by(v.users, session_id)),
    }
}

/// The hub after `user_id` joins the live room of a conversation.
pub open spec fn spec_join_room(v: HubView, user_id: u128, conversation_id: u128) -> HubView {
    HubView {
        sessions: v.sessions,
        users: v.users,
        rooms: v.rooms.insert(conversation_id, set_after_add(v.rooms, conversation_id, user_id)),
    }
}

/// The hub after `user_id` leaves the live room of a conversation.
pub open spec fn spec_leave_room(v: HubView, user_id: u128, conversation_id: u128) -> HubView {
    HubView {
        sessions: v.sessions,
        users: v.users,
        rooms: map_remove_val(v.rooms, conversation_id, user_id),
    }
}

/// The live sessions a message addressed to `user_id` reaches: every
/// registered session of that user, on every device.
pub open spec fn user_targets(v: HubView, user_id: u128) -> Set<u128> {
    Set::new(
        |sid: u128|
            v.users.dom().contains(user_id) && v.users[user_id].contains(sid)
                && v.sessions.contains(sid),
    )
}

/// The live sessions a message addressed to each user in `user_ids`
/// reaches.
pub open spec fn group_targets(v: HubView, user_ids: Seq<u128>) -> Set<u128> {
    Set::new(
        |sid: u128|
            exists|j: int|
                0 <= j < user_ids.len() && user_targets(v, #[trigger] user_ids[j]).contains(sid),
    )
}

/// Whether `user_id` survives the skip filter of a broadcast.
pub open spec fn allowed_member(skip_user_id: Option<u128>, user_id: u128) -> bool {
    match skip_user_id {
        Option::Some(s) => user_id != s,
        Option::None => true,
    }
}

/// Whether a broadcast into `conversation_id` reaches session `sid` by way
/// of room member `user_id`.
pub open spec fn routes_to(
    v: HubView,
    conversation_id: u128,
    skip_user_id: Option<u128>,
    user_id: u128,
    sid: u128,
) -> bool {
    &&& v.rooms.dom().contains(conversation_id)
    &&& v.rooms[conversation_id].contains(user_id)
    &&& allowed_member(skip_user_id, user_id)
    &&& user_targets(v, user_id).contains(sid)
}

/// The sessions a room broadcast reaches: every session of every joined
/// user, minus the skipped user's sessions.
pub open spec fn broadcast_targets(
    v: HubView,
    conversation_id: u128,
    skip_user_id: Option<u128>,
) -> Set<u128> {
    Set::new(
        |sid: u128|
            exists|user_id: u128| #[trigger] routes_to(v, conversation_id, skip_user_id, user_id, sid),
    )
}

/// Whether a broadcast over the member prefix `members` reaches `sid`.
pub open spec fn member_routed(
    v: HubView,
    conversation_id: u128,
    skip_user_id: Option<u128>,
    members: Seq<u128>,
    sid: u128,
) -> bool {
    exists|j: int|
        0 <= j < members.len() && routes_to(
            v,
            conversation_id,
            skip_user_id,
            #[trigger] members[j],
            sid,
        )
}

/// The predicate "this user is currently online" over the user map.
pub open spec fn online_filter(users: Map<u128, Set<u128>>) -> spec_fn(u128) -> bool {
    |f: u128| users.dom().contains(f)
}

/// The connection registry: owner of the session set, the user map and the
/// room map.
pub struct WebSocketServer {
    sessions: IdSet,
    users: IdSetMap,
    rooms: IdSetMap,
}

impl View for WebSocketServer {
    type V = HubView;

    closed spec fn view(&self) -> HubView {
        HubView { sessions: self.sessions@, users: self.users@, rooms: self.rooms@ }
    }
}

impl WebSocketServer {
    pub closed spec fn wf(self) -> bool {
        &&& self.sessions.wf()
        &&& self.users.wf()
        &&& self.rooms.wf()
    }

    pub fn new() -> (r: WebSocketServer)
        ensures
            r.wf(),
            r@ == (HubView {
                sessions: Set::<u128>::empty(),
                users: Map::<u128, Set<u128>>::empty(),
                rooms: Map::<u128, Set<u128>>::empty(),
            }),
    {
        WebSocketServer { sessions: IdSet::new(), users: IdSetMap::new(), rooms: IdSetMap::new() }
    }

    /// The registry invariant: a user key exists in the user map exactly
    /// while its session set is non-empty, and a room key exists in the
    /// room map exactly while its member set is non-empty.
    pub proof fn lemma_entries_nonempty(&self)
        requires
            self.wf(),
        ensures
            forall|u: u128| self@.users.dom().contains(u) ==> !(#[trigger] self@.users[u]).is_empty(),
            forall|c: u128| self@.rooms.dom().contains(c) ==> !(#[trigger] self@.rooms[c]).is_empty(),
    {
        self.users.lemma_values_nonempty();
        self.rooms.lemma_values_nonempty();
    }

    /// Registers a new connection. No authentication is required and no
    /// other session observes any effect.
    pub fn connect(&mut self, session_id: u128)
        requires
            old(self).wf(),
        ensures
            final(self).wf(),
            final(self)@ == spec_connect(old(self)@, session_id),
    {
        self.sessions.insert(session_id);
    }

    /// Adds the session to the user's session set, creating the entry for a
    /// first device; always acknowledges with the user id.
    pub fn authenticate(&mut self, session_id: u128, user_id: u128) -> (r: Result<u128, String>)
        requires
            old(self).wf(),
        ensures
            final(self).wf(),
            final(self)@ == spec_authenticate(old(self)@, session_id, user_id),
            r == Result::<u128, String>::Ok(user_id),
    {
        self.users.add_val(user_id, session_id);
        Result::Ok(user_id)
    }

    /// Removes a session. When it was the user's last session, the user
    /// leaves the user map and every room; emptied rooms are dropped.
    /// Disconnecting an absent session changes nothing.
    pub fn disconnect(&mut self, session_id: u128)
        requires
            old(self).wf(),
        ensures
            final(self).wf(),
            final(self)@ == spec_disconnect(old(self)@, session_id),
    {
        let ghost v0 = old(self)@;
        self.sessions.remove(session_id);
        let gone = self.users.remove_val_everywhere(session_id);
        proof {
            old(self).rooms.lemma_values_nonempty();
            lemma_rooms_after_no_users_left(v0.rooms);
            assert(gone@.subrange(0, 0).to_set() =~= Set::<u128>::empty());
        }
        let n: usize = gone.len();
        let mut i: usize = 0;
        while i < n
            invariant
                i <= n,
                n == gone@.len(),
                gone@.to_set() == keys_emptied_by(v0.users, session_id),
                self.sessions.wf(),
                self.users.wf(),
                self.rooms.wf(),
                self.sessions@ == v0.sessions.remove(session_id),
                self.users@ == map_purge(v0.users, session_id),
                self.rooms@ == rooms_after_users_left(
                    v0.rooms,
                    gone@.subrange(0, i as int).to_set(),
                ),
            decreases n - i,
        {
            let u = gone[i];
            let ghost pre = gone@.subrange(0, i as int).to_set();
            let _emptied = self.rooms.remove_val_everywhere(u);
            proof {
                lemma_purge_compose(v0.rooms, pre, u);
                assert(gone@.subrange(0, i + 1).to_set() =~= pre.insert(u));
            }
            i = i + 1;
        }
        proof {
            assert(gone@.subrange(0, n as int) =~= gone@);
        }
    }

    /// Adds a user to the live room of a conversation, creating the room on
    /// first join. Authorization is the caller's concern.
    pub fn join_room(&mut self, user_id: u128, conversation_id: u128)
        requires
            old(self).wf(),
        ensures
            final(self).wf(),
            final(self)@ == spec_join_room(old(self)@, user_id, conversation_id),
    {
        self.rooms.add_val(conversation_id, user_id);
    }

    /// Removes a user from the live room of a conversation, dropping the
    /// room when it empties; a no-op for an unknown room or member.
    pub fn leave_room(&mut self, user_id: u128, conversation_id: u128)
        requires
            old(self).wf(),
        ensures
            final(self).wf(),
            final(self)@ == spec_leave_room(old(self)@, user_id, conversation_id),
    {
        self.rooms.remove_val(conversation_id, user_id);
    }

    /// Appends every live session of `user_id` to `out`.
    fn push_user_sessions(&self, user_id: u128, out: &mut Vec<u128>)
        requires
            self.wf(),
        ensures
            forall|x: u128|
                final(out)@.contains(x) <==> (old(out)@.contains(x) || user_targets(
                    self@,
                    user_id,
                ).contains(x)),
    {
        match self.users.get(user_id) {
            Option::None => {
            },
            Option::Some(sids) => {
                let n: usize = sids.len();
                let mut j: usize = 0;
                while j < n
                    invariant
                        j <= n,
                        n == sids@.len(),
                        self.wf(),
                        self@.users.dom().contains(user_id),
                        sids@.to_set() == self@.users[user_id],
                        forall|x: u128|
                            out@.contains(x) <==> (old(out)@.contains(x) || (exists|t: int|
                                0 <= t < j && #[trigger] sids@[t] == x && self@.sessions.contains(
                                    x,
                                ))),
                    decreases n - j,
                {
                    let sid = sids[j];
                    if self.sessions.contains(sid) {
                        out.push(sid);
                    }
                    proof {
                        assert forall|x: u128| out@.contains(x) implies (old(out)@.contains(x) || (
                        exists|t: int|
                            0 <= t < j + 1 && #[trigger] sids@[t] == x && self@.sessions.contains(
                                x,
                            ))) by {
                            if !old(out)@.contains(x) {
                                if exists|t: int|
                                    0 <= t < j && #[trigger] sids@[t] == x
                                        && self@.sessions.contains(x) {
                                    let t = choose|t: int|
                                        0 <= t < j && #[trigger] sids@[t] == x
                                            && self@.sessions.contains(x);
                                    assert(0 <= t < j + 1 && sids@[t] == x);
                                } else {
                                    assert(sids@[j as int] == x);
                                }
                            }
                        }
                    }
                    j = j + 1;
                }
                proof {
                    assert forall|x: u128| out@.contains(x) implies (old(out)@.contains(x)
                        || user_targets(self@, user_id).contains(x)) by {
                        if !old(out)@.contains(x) {
                            let t = choose|t: int|
                                0 <= t < n && #[trigger] sids@[t] == x && self@.sessions.contains(
                                    x,
                                );
                            assert(sids@.to_set().contains(x));
                        }
                    }
                    assert forall|x: u128|
                        user_targets(self@, user_id).contains(x) implies out@.contains(x) by {
                        assert(sids@.to_set().contains(x));
                        let t = choose|t: int| 0 <= t < sids@.len() && sids@[t] == x;
                        assert(sids@[t] == x && self@.sessions.contains(x));
                    }
                }
            },
        }
    }

    /// The live sessions that a message for `user_id` is handed to: all the
    /// user's devices; empty when the user is not connected.
    pub fn send_to_user(&self, user_id: u128) -> (r: Vec<u128>)
        requires
            self.wf(),
        ensures
            r@.to_set() == user_targets(self@, user_id),
    {
        let mut out: Vec<u128> = Vec::new();
        self.push_user_sessions(user_id, &mut out);
        proof {
            assert(out@.to_set() =~= user_targets(self@, user_id));
        }
        out
    }

    /// The live sessions that a message for each listed user is handed to;
    /// users that are not connected are skipped silently.
    pub fn send_to_users(&self, user_ids: &Vec<u128>) -> (r: Vec<u128>)
        requires
            self.wf(),
        ensures
            r@.to_set() == group_targets(self@, user_ids@),
    {
        let mut out: Vec<u128> = Vec::new();
        let n: usize = user_ids.len();
        let mut i: usize = 0;
        while i < n
            invariant
                i <= n,
                n == user_ids@.len(),
                self.wf(),
                forall|x: u128|
                    out@.contains(x) <==> group_targets(
                        self@,
                        user_ids@.subrange(0, i as int),
                    ).contains(x),
            decreases n - i,
        {
            self.push_user_sessions(user_ids[i], &mut out);
            proof {
                assert forall|x: u128|
                    out@.contains(x) <==> group_targets(
                        self@,
                        user_ids@.subrange(0, i + 1),
                    ).contains(x) by {
                    lemma_group_prefix_extend(self@, user_ids@, i as int, x);
                }
            }
            i = i + 1;
        }
        proof {
            assert(user_ids@.subrange(0, n as int) =~= user_ids@);
            assert(out@.to_set() =~= group_targets(self@, user_ids@));
        }
        out
    }

    /// The live sessions a room broadcast is handed to: every session of
    /// every joined user except the skipped one. A broadcast into an
    /// unknown or emptied room reaches nobody and is not an error.
    pub fn broadcast_to_room(&self, conversation_id: u128, skip_user_id: Option<u128>) -> (r: Vec<
        u128,
    >)
        requires
            self.wf(),
        ensures
            r@.to_set() == broadcast_targets(self@, conversation_id, skip_user_id),
    {
        let mut out: Vec<u128> = Vec::new();
        let members: &Vec<u128> = match self.rooms.get(conversation_id) {
            Option::None => {
                proof {
                    assert forall|x: u128|
                        !broadcast_targets(self@, conversation_id, skip_user_id).contains(x) by {
                        assert(!self@.rooms.dom().contains(conversation_id));
                    }
                    assert(out@.to_set() =~= broadcast_targets(
                        self@,
                        conversation_id,
                        skip_user_id,
                    ));
                }
                return out;
            },
            Option::Some(m) => m,
        };
        let n: usize = members.len();
        let mut i: usize = 0;
        while i < n
            invariant
                i <= n,
                n == members@.len(),
                self.wf(),
                self@.rooms.dom().contains(conversation_id),
                members@.to_set() == self@.rooms[conversation_id],
                forall|x: u128|
                    out@.contains(x) <==> member_routed(
                        self@,
                        conversation_id,
                        skip_user_id,
                        members@.subrange(0, i as int),
                        x,
                    ),
            decreases n - i,
        {
            let u = members[i];
            proof {
                assert(members@.to_set().contains(u));
            }
            let allowed: bool = match skip_user_id {
                Option::Some(s) => u != s,
                Option::None => true,
            };
            if allowed {
                self.push_user_sessions(u, &mut out);
            }
            proof {
                assert forall|x: u128|
                    out@.contains(x) <==> member_routed(
                        self@,
                        conversation_id,
                        skip_user_id,
                        members@.subrange(0, i + 1),
                        x,
                    ) by {
                    lemma_member_prefix_extend(
                        self@,
                        conversation_id,
                        skip_user_id,
                        members@,
                        i as int,
                        x,
                    );
                }
            }
            i = i + 1;
        }
        proof {
            assert(members@.subrange(0, n as int) =~= members@);
            assert forall|x: u128| out@.contains(x) implies broadcast_targets(
                self@,
                conversation_id,
                skip_user_id,
            ).contains(x) by {
                let j = choose|j: int|
                    0 <= j < members@.len() && routes_to(
                        self@,
                        conversation_id,
                        skip_user_id,
                        #[trigger] members@[j],
                        x,
                    );
                assert(routes_to(self@, conversation_id, skip_user_id, members@[j], x));
            }
            assert forall|x: u128|
                broadcast_targets(self@, conversation_id, skip_user_id).contains(x) implies out@
                .contains(x) by {
                let uid = choose|uid: u128|
                    #[trigger] routes_to(self@, conversation_id, skip_user_id, uid, x);
                assert(members@.to_set().contains(uid));
                let j = choose|j: int| 0 <= j < members@.len() && members@[j] == uid;
                assert(routes_to(self@, conversation_id, skip_user_id, members@[j], x));
            }
            assert(out@.to_set() =~= broadcast_targets(self@, conversation_id, skip_user_id));
        }
        out
    }

    /// The friend-scoped presence fan-out: the sessions of every listed
    /// friend that is currently connected, paired with the event to send
    /// them. Friends not connected are skipped silently.
    pub fn user_presence_changed(
        &self,
        user_id: u128,
        is_online: bool,
        friend_ids: &Vec<u128>,
        last_seen: Option<String>,
    ) -> (r: (Vec<u128>, ServerMessage))
        requires
            self.wf(),
        ensures
            r.0@.to_set() == group_targets(self@, friend_ids@),
            is_online ==> r.1 == (ServerMessage::UserOnline { user_id }),
            !is_online ==> r.1 == (ServerMessage::UserOffline { user_id, last_seen }),
    {
        let targets = self.send_to_users(friend_ids);
        let event = if is_online {
            ServerMessage::UserOnline { user_id }
        } else {
            ServerMessage::UserOffline { user_id, last_seen }
        };
        (targets, event)
    }

    /// The initial presence report for a user that just authenticated: the
    /// listed friends filtered down to those currently connected, addressed
    /// to every session of that user.
    pub fn send_initial_presence(&self, user_id: u128, friend_ids: &Vec<u128>) -> (r: (
        Vec<u128>,
        ServerMessage,
    ))
        requires
            self.wf(),
        ensures
            r.0@.to_set() == user_targets(self@, user_id),
            (r.1 matches ServerMessage::OnlineUsers { user_ids } && user_ids@
                == friend_ids@.filter(online_filter(self@.users))),
    {
        let mut online: Vec<u128> = Vec::new();
        let n: usize = friend_ids.len();
        let mut i: usize = 0;
        proof {
            reveal(Seq::filter);
            assert(friend_ids@.subrange(0, 0) =~= Seq::<u128>::empty());
            assert(friend_ids@.subrange(0, 0).filter(online_filter(self@.users))
                =~= Seq::<u128>::empty());
        }
        while i < n
            invariant
                i <= n,
                n == friend_ids@.len(),
                self.wf(),
                online@ == friend_ids@.subrange(0, i as int).filter(online_filter(self@.users)),
            decreases n - i,
        {
            let f = friend_ids[i];
            let connected = self.users.contains_key(f);
            proof {
                assert(friend_ids@.subrange(0, i + 1) =~= friend_ids@.subrange(0, i as int).push(
                    f,
                ));
            }
            if connected {
                online.push(f);
            }
            proof {
                friend_ids@.subrange(0, i as int).lemma_filter_push(f, online_filter(self@.users));
                assert(online@ == friend_ids@.subrange(0, i + 1).filter(
                    online_filter(self@.users),
                ));
            }
            i = i + 1;
        }
        proof {
            assert(friend_ids@.subrange(0, n as int) =~= friend_ids@);
        }
        let targets = self.send_to_user(user_id);
        (targets, ServerMessage::OnlineUsers { user_ids: online })
    }

    /// A snapshot of every currently authenticated user.
    pub fn get_online_users(&self) -> (r: Vec<u128>)
        requires
            self.wf(),
        ensures
            r@.no_duplicates(),
            r@.to_set() == self@.users.dom(),
    {
        self.users.keys()
    }

    /// The sessions a broadcast to every connection is handed to.
    pub fn broadcast_to_all(&self) -> (r: Vec<u128>)
        requires
            self.wf(),
        ensures
            r@.no_duplicates(),
            r@.to_set() == self@.sessions,
    {
        let elems = self.sessions.elements();
        let n: usize = elems.len();
        let mut out: Vec<u128> = Vec::new();
        let mut i: usize = 0;
        while i < n
            invariant
                i <= n,
                n == elems@.len(),
                out@.len() == i,
                forall|j: int| 0 <= j < i ==> out@[j] == elems@[j],
            decreases n - i,
        {
            out.push(elems[i]);
            i = i + 1;
        }
        proof {
            assert(out@ =~= elems@);
        }
        out
    }

    pub fn has_session(&self, session_id: u128) -> (r: bool)
        ensures
            r == self@.sessions.contains(session_id),
    {
        self.sessions.contains(session_id)
    }

    pub fn session_count(&self) -> (r: usize)
        requires
            self.wf(),
        ensures
            r == self@.sessions.len(),
    {
        self.sessions.len()
    }

    pub fn has_user(&self, user_id: u128) -> (r: bool)
        ensures
            r == self@.users.dom().contains(user_id),
    {
        self.users.contains_key(user_id)
    }

    pub fn user_count(&self) -> (r: usize)
        requires
            self.wf(),
        ensures
            r == self@.users.dom().len(),
    {
        self.users.len()
    }

    /// The sessions of a user, when it is authenticated.
    pub fn user_sessions(&self, user_id: u128) -> (r: Option<&Vec<u128>>)
        requires
            self.wf(),
        ensures
            match r {
                Option::Some(v) => self@.users.dom().contains(user_id) && v@.to_set()
                    == self@.users[user_id] && v@.no_duplicates() && v@.len() > 0,
                Option::None => !self@.users.dom().contains(user_id),
            },
    {
        self.users.get(user_id)
    }

    pub fn has_room(&self, conversation_id: u128) -> (r: bool)
        ensures
            r == self@.rooms.dom().contains(conversation_id),
    {
        self.rooms.contains_key(conversation_id)
    }

    pub fn room_count(&self) -> (r: usize)
        requires
            self.wf(),
        ensures
            r == self@.rooms.dom().len(),
    {
        self.rooms.len()
    }

    /// The joined users of a conversation's live room, when it exists.
    pub fn room_members(&self, conversation_id: u128) -> (r: Option<&Vec<u128>>)
        requires
            self.wf(),
        ensures
            match r {
                Option::Some(v) => self@.rooms.dom().contains(conversation_id) && v@.to_set()
                    == self@.rooms[conversation_id] && v@.no_duplicates() && v@.len() > 0,
                Option::None => !self@.rooms.dom().contains(conversation_id),
            },
    {
        self.rooms.get(conversation_id)
    }
}

impl Default for WebSocketServer {
    fn default() -> (r: WebSocketServer)
        ensures
            r.wf(),
            r@ == (HubView {
                sessions: Set::<u128>::empty(),
                users: Map::<u128, Set<u128>>::empty(),
                rooms: Map::<u128, Set<u128>>::empty(),
            }),
    {
        WebSocketServer::new()
    }
}

/// With no user leaving, rooms whose member sets are non-empty are kept
/// exactly as they are.
proof fn lemma_rooms_after_no_users_left(rooms: Map<u128, Set<u128>>)
    requires
        forall|c: u128| rooms.dom().contains(c) ==> !(#[trigger] rooms[c]).is_empty(),
    ensures
        rooms_after_users_left(rooms, Set::<u128>::empty()) == rooms,
{
    assert forall|c: u128| rooms.dom().contains(c) implies rooms[c].difference(
        Set::<u128>::empty(),
    ) =~= rooms[c] by {}
    assert(rooms_after_users_left(rooms, Set::<u128>::empty()) =~~= rooms);
}

/// Removing one more user from every room after a set of users already left
/// equals all of them leaving together.
proof fn lemma_purge_compose(m: Map<u128, Set<u128>>, s: Set<u128>, u: u128)
    ensures
        map_purge(rooms_after_users_left(m, s), u) == rooms_after_users_left(m, s.insert(u)),
{
    assert forall|c: u128| m.dom().contains(c) implies m[c].difference(s).remove(u)
        =~= m[c].difference(s.insert(u)) by {}
    assert(map_purge(rooms_after_users_left(m, s), u) =~~= rooms_after_users_left(
        m,
        s.insert(u),
    ));
}

/// Extending the user prefix of a grouped send by one adds exactly that
/// user's sessions.
proof fn lemma_group_prefix_extend(v: HubView, user_ids: Seq<u128>, i: int, x: u128)
    requires
        0 <= i < user_ids.len(),
    ensures
        group_targets(v, user_ids.subrange(0, i + 1)).contains(x) <==> (group_targets(
            v,
            user_ids.subrange(0, i),
        ).contains(x) || user_targets(v, user_ids[i]).contains(x)),
{
    let pre = user_ids.subrange(0, i);
    let ext = user_ids.subrange(0, i + 1);
    if group_targets(v, ext).contains(x) {
        let j = choose|j: int|
            0 <= j < ext.len() && user_targets(v, #[trigger] ext[j]).contains(x);
        if j < i {
            assert(pre[j] == ext[j]);
            assert(user_targets(v, pre[j]).contains(x));
        } else {
            assert(ext[j] == user_ids[i]);
        }
    }
    if group_targets(v, pre).contains(x) {
        let j = choose|j: int|
            0 <= j < pre.len() && user_targets(v, #[trigger] pre[j]).contains(x);
        assert(ext[j] == pre[j]);
        assert(user_targets(v, ext[j]).contains(x));
    }
    if user_targets(v, user_ids[i]).contains(x) {
        assert(ext[i] == user_ids[i]);
        assert(user_targets(v, ext[i]).contains(x));
    }
}

/// Extending the member prefix of a room broadcast by one adds exactly the
/// routes through that member.
proof fn lemma_member_prefix_extend(
    v: HubView,
    conversation_id: u128,
    skip_user_id: Option<u128>,
    members: Seq<u128>,
    i: int,
    x: u128,
)
    requires
        0 <= i < members.len(),
    ensures
        member_routed(v, conversation_id, skip_user_id, members.subrange(0, i + 1), x) <==> (
        member_routed(v, conversation_id, skip_user_id, members.subrange(0, i), x) || routes_to(
            v,
            conversation_id,
            skip_user_id,
            members[i],
            x,
        )),
{
    let pre = members.subrange(0, i);
    let ext = members.subrange(0, i + 1);
    if member_routed(v, conversation_id, skip_user_id, ext, x) {
        let j = choose|j: int|
            0 <= j < ext.len() && routes_to(
                v,
                conversation_id,
                skip_user_id,
                #[trigger] ext[j],
                x,
            );
        if j < i {
            assert(pre[j] == ext[j]);
            assert(routes_to(v, conversation_id, skip_user_id, pre[j], x));
        } else {
            assert(ext[j] == members[i]);
        }
    }
    if member_routed(v, conversation_id, skip_user_id, pre, x) {
        let j = choose|j: int|
            0 <= j < pre.len() && routes_to(
                v,
                conversation_id,
                skip_user_id,
                #[trigger] pre[j],
                x,
            );
        assert(ext[j] == pre[j]);
        assert(routes_to(v, conversation_id, skip_user_id, ext[j], x));
    }
    if routes_to(v, conversation_id, skip_user_id, members[i], x) {
        assert(ext[i] == members[i]);
        assert(routes_to(v, conversation_id, skip_user_id, ext[i], x));
    }
}

/// Whether no session is owned by two different users. This holds of every
/// hub whose sessions each authenticate at most once, which the session
/// state machine guarantees by rejecting repeated authentication.
pub open spec fn owners_disjoint(users: Map<u128, Set<u128>>) -> bool {
    forall|u1: u128, u2: u128, sid: u128|
        users.dom().contains(u1) && users.dom().contains(u2) && #[trigger] users[u1].contains(sid)
            && #[trigger] users[u2].contains(sid) ==> u1 == u2
}

/// Multi-device delivery: every registered session of a user receives a
/// send addressed to that user, and every broadcast into a room the user
/// has joined and is not skipped for.
pub proof fn lemma_multi_device_delivery(
    v: HubView,
    user_id: u128,
    s1: u128,
    s2: u128,
    conversation_id: u128,
    skip_user_id: Option<u128>,
)
    requires
        v.users.dom().contains(user_id),
        v.users[user_id].contains(s1),
        v.users[user_id].contains(s2),
        v.sessions.contains(s1),
        v.sessions.contains(s2),
    ensures
        user_targets(v, user_id).contains(s1),
        user_targets(v, user_id).contains(s2),
        v.rooms.dom().contains(conversation_id) && v.rooms[conversation_id].contains(user_id)
            && allowed_member(skip_user_id, user_id) ==> broadcast_targets(
            v,
            conversation_id,
            skip_user_id,
        ).contains(s1) && broadcast_targets(v, conversation_id, skip_user_id).contains(s2),
{
    if v.rooms.dom().contains(conversation_id) && v.rooms[conversation_id].contains(user_id)
        && allowed_member(skip_user_id, user_id) {
        assert(routes_to(v, conversation_id, skip_user_id, user_id, s1));
        assert(routes_to(v, conversation_id, skip_user_id, user_id, s2));
    }
}

/// Disconnecting one of several sessions keeps the user online; the user
/// stays in the user map with the remaining sessions.
pub proof fn lemma_disconnect_keeps_user(v: HubView, user_id: u128, s1: u128, s2: u128)
    requires
        v.users.dom().contains(user_id),
        v.users[user_id].contains(s1),
        v.users[user_id].contains(s2),
        s1 != s2,
    ensures
        spec_disconnect(v, s1).users.dom().contains(user_id),
        spec_disconnect(v, s1).users[user_id] == v.users[user_id].remove(s1),
{
    assert(v.users[user_id].remove(s1).contains(s2));
}

/// Disconnecting a user's last session removes the user from the user map
/// and from every room.
pub proof fn lemma_disconnect_last_session(v: HubView, user_id: u128, sid: u128)
    requires
        v.users.dom().contains(user_id),
        v.users[user_id] == Set::<u128>::empty().insert(sid),
    ensures
        !spec_disconnect(v, sid).users.dom().contains(user_id),
        forall|c: u128|
            spec_disconnect(v, sid).rooms.dom().contains(c) ==> !(#[trigger] spec_disconnect(
                v,
                sid,
            ).rooms[c]).contains(user_id),
{
    assert(v.users[user_id].remove(sid) =~= Set::<u128>::empty());
    assert(keys_emptied_by(v.users, sid).contains(user_id));
}

/// A broadcast that skips the sender reaches no session owned by the
/// sender, provided no session is owned by two users.
pub proof fn lemma_broadcast_skips_sender(v: HubView, conversation_id: u128, sender: u128, sid: u128)
    requires
        owners_disjoint(v.users),
        v.users.dom().contains(sender),
        v.users[sender].contains(sid),
    ensures
        !broadcast_targets(v, conversation_id, Option::Some(sender)).contains(sid),
{
    if broadcast_targets(v, conversation_id, Option::Some(sender)).contains(sid) {
        let uid = choose|uid: u128|
            #[trigger] routes_to(v, conversation_id, Option::Some(sender), uid, sid);
        assert(v.users[uid].contains(sid));
        assert(uid == sender);
        assert(false);
    }
}

/// A broadcast without a skipped user reaches every live session of every
/// joined member, the sender included.
pub proof fn lemma_broadcast_reaches_members(
    v: HubView,
    conversation_id: u128,
    user_id: u128,
    sid: u128,
)
    requires
        v.rooms.dom().contains(conversation_id),
        v.rooms[conversation_id].contains(user_id),
        v.users.dom().contains(user_id),
        v.users[user_id].contains(sid),
        v.sessions.contains(sid),
    ensures
        broadcast_targets(v, conversation_id, Option::None).contains(sid),
{
    assert(routes_to(v, conversation_id, Option::None, user_id, sid));
}

/// A broadcast into a conversation with no live room reaches nobody.
pub proof fn lemma_broadcast_unknown_room(v: HubView, conversation_id: u128, skip_user_id: Option<
    u128,
>)
    requires
        !v.rooms.dom().contains(conversation_id),
    ensures
        broadcast_targets(v, conversation_id, skip_user_id).is_empty(),
{
    assert forall|sid: u128|
        !broadcast_targets(v, conversation_id, skip_user_id).contains(sid) by {}
    assert(broadcast_targets(v, conversation_id, skip_user_id) =~= Set::<u128>::empty());
}

/// Disconnecting a session that is registered nowhere changes nothing,
/// provided the user and room maps hold no empty sets — which the registry
/// invariant guarantees.
pub proof fn lemma_disconnect_absent_is_noop(v: HubView, sid: u128)
    requires
        !v.sessions.contains(sid),
        forall|u: u128| v.users.dom().contains(u) ==> !(#[trigger] v.users[u]).contains(sid),
        forall|u: u128| v.users.dom().contains(u) ==> !(#[trigger] v.users[u]).is_empty(),
        forall|c: u128| v.rooms.dom().contains(c) ==> !(#[trigger] v.rooms[c]).is_empty(),
    ensures
        spec_disconnect(v, sid) == v,
{
    assert(v.sessions.remove(sid) =~= v.sessions);
    assert forall|u: u128| v.users.dom().contains(u) implies #[trigger] v.users[u].remove(sid)
        =~= v.users[u] by {}
    assert(map_purge(v.users, sid) =~~= v.users);
    assert(keys_emptied_by(v.users, sid) =~= Set::<u128>::empty());
    assert forall|c: u128| v.rooms.dom().contains(c) implies #[trigger] v.rooms[c].difference(
        Set::<u128>::empty(),
    ) =~= v.rooms[c] by {}
    assert(rooms_after_users_left(v.rooms, keys_emptied_by(v.users, sid)) =~~= v.rooms);
}

/// Disconnecting the same session twice equals disconnecting it once.
pub proof fn lemma_disconnect_idempotent(v: HubView, sid: u128)
    ensures
        spec_disconnect(spec_disconnect(v, sid), sid) == spec_disconnect(v, sid),
{
    let v1 = spec_disconnect(v, sid);
    assert(!v1.sessions.contains(sid));
    assert forall|u: u128| v1.users.dom().contains(u) implies !(#[trigger] v1.users[u]).contains(
        sid,
    ) && !v1.users[u].is_empty() by {
        assert(v1.users[u] == v.users[u].remove(sid));
    }
    assert forall|c: u128| v1.rooms.dom().contains(c) implies !(#[trigger] v1.rooms[c]).is_empty()
        by {}
    lemma_disconnect_absent_is_noop(v1, sid);
}

/// Authentication of a session that no user owns yet keeps session sets
/// disjoint across users.
pub proof fn lemma_authenticate_preserves_disjoint(v: HubView, session_id: u128, user_id: u128)
    requires
        owners_disjoint(v.users),
        forall|u: u128|
            v.users.dom().contains(u) ==> !(#[trigger] v.users[u]).contains(session_id),
    ensures
        owners_disjoint(spec_authenticate(v, session_id, user_id).users),
{
    let m = spec_authenticate(v, session_id, user_id).users;
    assert forall|u1: u128, u2: u128, sid: u128|
        m.dom().contains(u1) && m.dom().contains(u2) && #[trigger] m[u1].contains(sid)
            && #[trigger] m[u2].contains(sid) implies u1 == u2 by {
        if sid == session_id {
            if u1 != user_id {
                assert(v.users[u1].contains(sid));
                assert(false);
            }
            if u2 != user_id {
                assert(v.users[u2].contains(sid));
                assert(false);
            }
        } else {
            if u1 == user_id && v.users.dom().contains(u1) {
                assert(v.users[u1].contains(sid));
            }
            if u1 == user_id && !v.users.dom().contains(u1) {
                assert(m[u1] == Set::<u128>::empty().insert(session_id));
                assert(false);
            }
            if u2 == user_id && !v.users.dom().contains(u2) {
                assert(m[u2] == Set::<u128>::empty().insert(session_id));
                assert(false);
            }
            assert(v.users[u1].contains(sid));
            assert(v.users[u2].contains(sid));
        }
    }
}

/// Disconnecting preserves disjoint session ownership.
pub proof fn lemma_disconnect_preserves_disjoint(v: HubView, session_id: u128)
    requires
        owners_disjoint(v.users),
    ensures
        owners_disjoint(spec_disconnect(v, session_id).users),
{
    let m = spec_disconnect(v, session_id).users;
    assert forall|u1: u128, u2: u128, sid: u128|
        m.dom().contains(u1) && m.dom().contains(u2) && #[trigger] m[u1].contains(sid)
            && #[trigger] m[u2].contains(sid) implies u1 == u2 by {
        assert(v.users[u1].contains(sid));
        assert(v.users[u2].contains(sid));
    }
}

} // verus!
