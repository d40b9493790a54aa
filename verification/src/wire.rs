//! The textual wire format of outbound server frames.
//!
//! Frames travel as JSON objects tagged by a camel-cased `type` field;
//! identifiers appear in canonical UUID form, string payloads with the
//! usual JSON escapes, and opaque payloads — records serialized by the
//! storage layer — are spliced in verbatim. The encoder is specified down
//! to the character: `spec_encode_server` *is* the wire format, and
//! `encode_server_message` produces exactly it.

use vstd::prelude::*;

use crate::message::ClientMessage;
use crate::message::ServerMessage;

verus! {

/// The hexadecimal digit for a value below sixteen.
pub open spec fn spec_hex_digit(n: u128) -> char {
    if n == 0 {
        '0'
    } else if n == 1 {
        '1'
    } else if n == 2 {
        '2'
    } else if n == 3 {
        '3'
    } else if n == 4 {
        '4'
    } else if n == 5 {
        '5'
    } else if n == 6 {
        '6'
    } else if n == 7 {
        '7'
    } else if n == 8 {
        '8'
    } else if n == 9 {
        '9'
    } else if n == 10 {
        'a'
    } else if n == 11 {
        'b'
    } else if n == 12 {
        'c'
    } else if n == 13 {
        'd'
    } else if n == 14 {
        'e'
    } else {
        'f'
    }
}

/// The `k`-th hexadecimal digit of a 128-bit id, most significant first.
pub open spec fn spec_nibble(id: u128, k: int) -> u128 {
    (id >> (((31 - k) * 4) as u128)) & 0xf
}

/// The hexadecimal digits `from..to` of a 128-bit id.
pub open spec fn spec_hex_range(id: u128, from: int, to: int) -> Seq<char>
    decreases to - from,
{
    if to <= from {
        Seq::empty()
    } else {
        spec_hex_range(id, from, to - 1).push(spec_hex_digit(spec_nibble(id, to - 1)))
    }
}

/// The canonical UUID form of a 128-bit id: five groups of hexadecimal
/// digits joined by dashes.
pub open spec fn spec_uuid(id: u128) -> Seq<char> {
    spec_hex_range(id, 0, 8) + seq!['-'] + spec_hex_range(id, 8, 12) + seq!['-'] + spec_hex_range(
        id,
        12,
        16,
    ) + seq!['-'] + spec_hex_range(id, 16, 20) + seq!['-'] + spec_hex_range(id, 20, 32)
}

/// The JSON escape of one character: quote and backslash are escaped, the
/// named control characters take their short forms, the remaining control
/// characters their `\u00..` form, and everything else stands as itself.
pub open spec fn spec_escape_char(c: char) -> Seq<char> {
    if c == '"' {
        seq!['\\', '"']
    } else if c == '\\' {
        seq!['\\', '\\']
    } else if c == '\u{08}' {
        seq!['\\', 'b']
    } else if c == '\u{09}' {
        seq!['\\', 't']
    } else if c == '\u{0a}' {
        seq!['\\', 'n']
    } else if c == '\u{0c}' {
        seq!['\\', 'f']
    } else if c == '\u{0d}' {
        seq!['\\', 'r']
    } else if (c as u32) < 32 {
        seq![
            '\\',
            'u',
            '0',
            '0',
            spec_hex_digit(((c as u32) / 16) as u128),
            spec_hex_digit(((c as u32) % 16) as u128),
        ]
    } else {
        seq![c]
    }
}

/// The body of a JSON string: every character escaped, in order.
pub open spec fn spec_escaped(s: Seq<char>) -> Seq<char>
    decreases s.len(),
{
    if s.len() == 0 {
        Seq::empty()
    } else {
        spec_escaped(s.drop_last()) + spec_escape_char(s.last())
    }
}

/// A JSON array of UUID strings, comma separated.
pub open spec fn spec_uuid_list(ids: Seq<u128>) -> Seq<char>
    decreases ids.len(),
{
    if ids.len() == 0 {
        Seq::empty()
    } else if ids.len() == 1 {
        seq!['"'] + spec_uuid(ids[0]) + seq!['"']
    } else {
        spec_uuid_list(ids.drop_last()) + seq![','] + seq!['"'] + spec_uuid(ids.last())
            + seq!['"']
    }
}

/// A JSON string value, or `null` for an absent one.
pub open spec fn spec_opt_string(s: Option<String>) -> Seq<char> {
    match s {
        Option::Some(t) => seq!['"'] + spec_escaped(t@) + seq!['"'],
        Option::None => "null"@,
    }
}

/// The wire form of every outbound frame.
pub open spec fn spec_encode_server(msg: ServerMessage) -> Seq<char> {
    match msg {
        ServerMessage::AuthSuccess { user_id } => "{\"type\":\"authSuccess\",\"userId\":\""@
            + spec_uuid(user_id) + "\"}"@,
        ServerMessage::AuthFailed { reason } => "{\"type\":\"authFailed\",\"reason\":\""@
            + spec_escaped(reason@) + "\"}"@,
        ServerMessage::NewMessage { conversation_id, message } => {
            "{\"type\":\"newMessage\",\"conversationId\":\""@ + spec_uuid(conversation_id)
                + "\",\"message\":"@ + message@ + "}"@
        },
        ServerMessage::MessageEdited { conversation_id, message_id, new_content } => {
            "{\"type\":\"messageEdited\",\"conversationId\":\""@ + spec_uuid(conversation_id)
                + "\",\"messageId\":\""@ + spec_uuid(message_id) + "\",\"newContent\":\""@
                + spec_escaped(new_content@) + "\"}"@
        },
        ServerMessage::MessageDeleted { conversation_id, message_id } => {
            "{\"type\":\"messageDeleted\",\"conversationId\":\""@ + spec_uuid(conversation_id)
                + "\",\"messageId\":\""@ + spec_uuid(message_id) + "\"}"@
        },
        ServerMessage::MessagesRead { conversation_id, user_id, last_read_message_id } => {
            "{\"type\":\"messagesRead\",\"conversationId\":\""@ + spec_uuid(conversation_id)
                + "\",\"userId\":\""@ + spec_uuid(user_id) + "\",\"lastReadMessageId\":\""@
                + spec_uuid(last_read_message_id) + "\"}"@
        },
        ServerMessage::OnlineUsers { user_ids } => "{\"type\":\"onlineUsers\",\"userIds\":["@
            + spec_uuid_list(user_ids@) + "]}"@,
        ServerMessage::UserOnline { user_id } => "{\"type\":\"userOnline\",\"userId\":\""@
            + spec_uuid(user_id) + "\"}"@,
        ServerMessage::UserOffline { user_id, last_seen } => {
            "{\"type\":\"userOffline\",\"userId\":\""@ + spec_uuid(user_id) + "\",\"lastSeen\":"@
                + spec_opt_string(last_seen) + "}"@
        },
        ServerMessage::NewGroup { conversation } => "{\"type\":\"newGroup\",\"conversation\":"@
            + conversation@ + "}"@,
        ServerMessage::UserTyping { conversation_id, user_id } => {
            "{\"type\":\"userTyping\",\"conversationId\":\""@ + spec_uuid(conversation_id)
                + "\",\"userId\":\""@ + spec_uuid(user_id) + "\"}"@
        },
        ServerMessage::UserStoppedTyping { conversation_id, user_id } => {
            "{\"type\":\"userStoppedTyping\",\"conversationId\":\""@ + spec_uuid(conversation_id)
                + "\",\"userId\":\""@ + spec_uuid(user_id) + "\"}"@
        },
        ServerMessage::Pong => "{\"type\":\"pong\"}"@,
        ServerMessage::Error { message } => "{\"type\":\"error\",\"message\":\""@ + spec_escaped(
            message@,
        ) + "\"}"@,
    }
}

/// Relies on `String`'s `FromIterator` over `char`: collecting characters
/// yields the string of exactly those characters, in order.
#[verifier::external_body]
pub(crate) fn string_from_chars(chars: Vec<char>) -> (r: String)
    ensures
        r@ == chars@,
{
    chars.into_iter().collect()
}

/// Appends the characters of `s` unchanged.
fn push_str_chars(out: &mut Vec<char>, s: &str)
    ensures
        final(out)@ == old(out)@ + s@,
{
    let n: usize = s.unicode_len();
    proof {
        assert(out@ =~= old(out)@ + s@.subrange(0, 0));
    }
    let mut i: usize = 0;
    while i < n
        invariant
            i <= n,
            n == s@.len(),
            out@ == old(out)@ + s@.subrange(0, i as int),
        decreases n - i,
    {
        out.push(s.get_char(i));
        proof {
            assert(out@ =~= old(out)@ + s@.subrange(0, i + 1));
        }
        i = i + 1;
    }
    proof {
        assert(s@.subrange(0, n as int) =~= s@);
    }
}

fn hex_digit(n: u128) -> (r: char)
    ensures
        r == spec_hex_digit(n),
{
    if n == 0 {
        '0'
    } else if n == 1 {
        '1'
    } else if n == 2 {
        '2'
    } else if n == 3 {
        '3'
    } else if n == 4 {
        '4'
    } else if n == 5 {
        '5'
    } else if n == 6 {
        '6'
    } else if n == 7 {
        '7'
    } else if n == 8 {
        '8'
    } else if n == 9 {
        '9'
    } else if n == 10 {
        'a'
    } else if n == 11 {
        'b'
    } else if n == 12 {
        'c'
    } else if n == 13 {
        'd'
    } else if n == 14 {
        'e'
    } else {
        'f'
    }
}

/// Appends the hexadecimal digits `from..to` of `id`.
fn push_hex_range(out: &mut Vec<char>, id: u128, from: usize, to: usize)
    requires
        from <= to <= 32,
    ensures
        final(out)@ == old(out)@ + spec_hex_range(id, from as int, to as int),
{
    proof {
        assert(out@ =~= old(out)@ + spec_hex_range(id, from as int, from as int));
    }
    let mut k: usize = from;
    while k < to
        invariant
            from <= k <= to <= 32,
            out@ == old(out)@ + spec_hex_range(id, from as int, k as int),
        decreases to - k,
    {
        let shift: u128 = ((31 - k) * 4) as u128;
        let nibble: u128 = (id >> shift) & 0xf;
        proof {
            assert(nibble == spec_nibble(id, k as int));
        }
        out.push(hex_digit(nibble));
        proof {
            assert(out@ =~= old(out)@ + spec_hex_range(id, from as int, k + 1));
        }
        k = k + 1;
    }
}

/// Appends the canonical UUID form of `id`.
fn push_uuid(out: &mut Vec<char>, id: u128)
    ensures
        final(out)@ == old(out)@ + spec_uuid(id),
{
    push_hex_range(out, id, 0, 8);
    out.push('-');
    push_hex_range(out, id, 8, 12);
    out.push('-');
    push_hex_range(out, id, 12, 16);
    out.push('-');
    push_hex_range(out, id, 16, 20);
    out.push('-');
    push_hex_range(out, id, 20, 32);
    proof {
        assert(out@ =~= old(out)@ + spec_uuid(id));
    }
}

/// Appends the body of a JSON string: `s` with every character escaped.
fn push_escaped(out: &mut Vec<char>, s: &str)
    ensures
        final(out)@ == old(out)@ + spec_escaped(s@),
{
    let n: usize = s.unicode_len();
    proof {
        assert(s@.subrange(0, 0) =~= Seq::<char>::empty());
        assert(out@ =~= old(out)@ + spec_escaped(s@.subrange(0, 0)));
    }
    let mut i: usize = 0;
    while i < n
        invariant
            i <= n,
            n == s@.len(),
            out@ == old(out)@ + spec_escaped(s@.subrange(0, i as int)),
        decreases n - i,
    {
        let c = s.get_char(i);
        let ghost out_before = out@;
        if c == '"' {
            out.push('\\');
            out.push('"');
        } else if c == '\\' {
            out.push('\\');
            out.push('\\');
        } else if c == '\u{08}' {
            out.push('\\');
            out.push('b');
        } else if c == '\u{09}' {
            out.push('\\');
            out.push('t');
        } else if c == '\u{0a}' {
            out.push('\\');
            out.push('n');
        } else if c == '\u{0c}' {
            out.push('\\');
            out.push('f');
        } else if c == '\u{0d}' {
            out.push('\\');
            out.push('r');
        } else if (c as u32) < 32 {
            out.push('\\');
            out.push('u');
            out.push('0');
            out.push('0');
            out.push(hex_digit(((c as u32) / 16) as u128));
            out.push(hex_digit(((c as u32) % 16) as u128));
        } else {
            out.push(c);
        }
        proof {
            assert(out@ =~= out_before + spec_escape_char(c));
            assert(s@.subrange(0, i + 1).drop_last() =~= s@.subrange(0, i as int));
            assert(s@.subrange(0, i + 1).last() == c);
            assert(out@ =~= old(out)@ + spec_escaped(s@.subrange(0, i + 1)));
        }
        i = i + 1;
    }
    proof {
        assert(s@.subrange(0, n as int) =~= s@);
    }
}

/// Appends a JSON array body of UUID strings.
fn push_uuid_list(out: &mut Vec<char>, ids: &Vec<u128>)
    ensures
        final(out)@ == old(out)@ + spec_uuid_list(ids@),
{
    let n: usize = ids.len();
    proof {
        assert(ids@.subrange(0, 0) =~= Seq::<u128>::empty());
        assert(out@ =~= old(out)@ + spec_uuid_list(ids@.subrange(0, 0)));
    }
    let mut i: usize = 0;
    while i < n
        invariant
            i <= n,
            n == ids@.len(),
            out@ == old(out)@ + spec_uuid_list(ids@.subrange(0, i as int)),
        decreases n - i,
    {
        let ghost out_before = out@;
        if i > 0 {
            out.push(',');
        }
        out.push('"');
        push_uuid(out, ids[i]);
        out.push('"');
        proof {
            assert(ids@.subrange(0, i + 1).drop_last() =~= ids@.subrange(0, i as int));
            assert(ids@.subrange(0, i + 1).last() == ids@[i as int]);
            if i == 0 {
                assert(out@ =~= out_before + seq!['"'] + spec_uuid(ids@[i as int]) + seq!['"']);
            } else {
                assert(out@ =~= out_before + seq![','] + seq!['"'] + spec_uuid(ids@[i as int])
                    + seq!['"']);
            }
            assert(out@ =~= old(out)@ + spec_uuid_list(ids@.subrange(0, i + 1)));
        }
        i = i + 1;
    }
    proof {
        assert(ids@.subrange(0, n as int) =~= ids@);
    }
}

/// Appends a JSON string value, or `null` for an absent one.
fn push_opt_string(out: &mut Vec<char>, s: &Option<String>)
    ensures
        final(out)@ == old(out)@ + spec_opt_string(*s),
{
    match s {
        Option::Some(t) => {
            out.push('"');
            push_escaped(out, t.as_str());
            out.push('"');
            proof {
                assert(out@ =~= old(out)@ + spec_opt_string(*s));
            }
        },
        Option::None => {
            push_str_chars(out, "null");
        },
    }
}

/// Serializes an outbound frame for the wire, character for character as
/// `spec_encode_server` defines it.
pub fn encode_server_message(msg: &ServerMessage) -> (r: String)
    ensures
        r@ == spec_encode_server(*msg),
{
    let mut out: Vec<char> = Vec::new();
    match msg {
        ServerMessage::AuthSuccess { user_id } => {
            push_str_chars(&mut out, "{\"type\":\"authSuccess\",\"userId\":\"");
            push_uuid(&mut out, *user_id);
            push_str_chars(&mut out, "\"}");
            proof {
                assert(out@ =~= spec_encode_server(*msg));
            }
        },
        ServerMessage::AuthFailed { reason } => {
            push_str_chars(&mut out, "{\"type\":\"authFailed\",\"reason\":\"");
            push_escaped(&mut out, reason.as_str());
            push_str_chars(&mut out, "\"}");
            proof {
                assert(out@ =~= spec_encode_server(*msg));
            }
        },
        ServerMessage::NewMessage { conversation_id, message } => {
            push_str_chars(&mut out, "{\"type\":\"newMessage\",\"conversationId\":\"");
            push_uuid(&mut out, *conversation_id);
            push_str_chars(&mut out, "\",\"message\":");
            push_str_chars(&mut out, message.as_str());
            push_str_chars(&mut out, "}");
            proof {
                assert(out@ =~= spec_encode_server(*msg));
            }
        },
        ServerMessage::MessageEdited { conversation_id, message_id, new_content } => {
            push_str_chars(&mut out, "{\"type\":\"messageEdited\",\"conversationId\":\"");
            push_uuid(&mut out, *conversation_id);
            push_str_chars(&mut out, "\",\"messageId\":\"");
            push_uuid(&mut out, *message_id);
            push_str_chars(&mut out, "\",\"newContent\":\"");
            push_escaped(&mut out, new_content.as_str());
            push_str_chars(&mut out, "\"}");
            proof {
                assert(out@ =~= spec_encode_server(*msg));
            }
        },
        ServerMessage::MessageDeleted { conversation_id, message_id } => {
            push_str_chars(&mut out, "{\"type\":\"messageDeleted\",\"conversationId\":\"");
            push_uuid(&mut out, *conversation_id);
            push_str_chars(&mut out, "\",\"messageId\":\"");
            push_uuid(&mut out, *message_id);
            push_str_chars(&mut out, "\"}");
            proof {
                assert(out@ =~= spec_encode_server(*msg));
            }
        },
        ServerMessage::MessagesRead { conversation_id, user_id, last_read_message_id } => {
            push_str_chars(&mut out, "{\"type\":\"messagesRead\",\"conversationId\":\"");
            push_uuid(&mut out, *conversation_id);
            push_str_chars(&mut out, "\",\"userId\":\"");
            push_uuid(&mut out, *user_id);
            push_str_chars(&mut out, "\",\"lastReadMessageId\":\"");
            push_uuid(&mut out, *last_read_message_id);
            push_str_chars(&mut out, "\"}");
            proof {
                assert(out@ =~= spec_encode_server(*msg));
            }
        },
        ServerMessage::OnlineUsers { user_ids } => {
            push_str_chars(&mut out, "{\"type\":\"onlineUsers\",\"userIds\":[");
            push_uuid_list(&mut out, user_ids);
            push_str_chars(&mut out, "]}");
            proof {
                assert(out@ =~= spec_encode_server(*msg));
            }
        },
        ServerMessage::UserOnline { user_id } => {
            push_str_chars(&mut out, "{\"type\":\"userOnline\",\"userId\":\"");
            push_uuid(&mut out, *user_id);
            push_str_chars(&mut out, "\"}");
            proof {
                assert(out@ =~= spec_encode_server(*msg));
            }
        },
        ServerMessage::UserOffline { user_id, last_seen } => {
            push_str_chars(&mut out, "{\"type\":\"userOffline\",\"userId\":\"");
            push_uuid(&mut out, *user_id);
            push_str_chars(&mut out, "\",\"lastSeen\":");
            push_opt_string(&mut out, last_seen);
            push_str_chars(&mut out, "}");
            proof {
                assert(out@ =~= spec_encode_server(*msg));
            }
        },
        ServerMessage::NewGroup { conversation } => {
            push_str_chars(&mut out, "{\"type\":\"newGroup\",\"conversation\":");
            push_str_chars(&mut out, conversation.as_str());
            push_str_chars(&mut out, "}");
            proof {
                assert(out@ =~= spec_encode_server(*msg));
            }
        },
        ServerMessage::UserTyping { conversation_id, user_id } => {
            push_str_chars(&mut out, "{\"type\":\"userTyping\",\"conversationId\":\"");
            push_uuid(&mut out, *conversation_id);
            push_str_chars(&mut out, "\",\"userId\":\"");
            push_uuid(&mut out, *user_id);
            push_str_chars(&mut out, "\"}");
            proof {
                assert(out@ =~= spec_encode_server(*msg));
            }
        },
        ServerMessage::UserStoppedTyping { conversation_id, user_id } => {
            push_str_chars(&mut out, "{\"type\":\"userStoppedTyping\",\"conversationId\":\"");
            push_uuid(&mut out, *conversation_id);
            push_str_chars(&mut out, "\",\"userId\":\"");
            push_uuid(&mut out, *user_id);
            push_str_chars(&mut out, "\"}");
            proof {
                assert(out@ =~= spec_encode_server(*msg));
            }
        },
        ServerMessage::Pong => {
            push_str_chars(&mut out, "{\"type\":\"pong\"}");
            proof {
                assert(out@ =~= spec_encode_server(*msg));
            }
        },
        ServerMessage::Error { message } => {
            push_str_chars(&mut out, "{\"type\":\"error\",\"message\":\"");
            push_escaped(&mut out, message.as_str());
            push_str_chars(&mut out, "\"}");
            proof {
                assert(out@ =~= spec_encode_server(*msg));
            }
        },
    }
    string_from_chars(out)
}

/// The wire form of every client frame; what a canonical client sends.
pub open spec fn spec_encode_client(msg: ClientMessage) -> Seq<char> {
    match msg {
        ClientMessage::Auth { token } => "{\"type\":\"auth\",\"token\":\""@ + spec_escaped(
            token@,
        ) + "\"}"@,
        ClientMessage::SendMessage { conversation_id, content } => {
            "{\"type\":\"sendMessage\",\"conversationId\":\""@ + spec_uuid(conversation_id)
                + "\",\"content\":\""@ + spec_escaped(content@) + "\"}"@
        },
        ClientMessage::JoinConversation { conversation_id } => {
            "{\"type\":\"joinConversation\",\"conversationId\":\""@ + spec_uuid(conversation_id)
                + "\"}"@
        },
        ClientMessage::LeaveConversation { conversation_id } => {
            "{\"type\":\"leaveConversation\",\"conversationId\":\""@ + spec_uuid(conversation_id)
                + "\"}"@
        },
        ClientMessage::TypingStart { conversation_id } => {
            "{\"type\":\"typingStart\",\"conversationId\":\""@ + spec_uuid(conversation_id)
                + "\"}"@
        },
        ClientMessage::TypingStop { conversation_id } => {
            "{\"type\":\"typingStop\",\"conversationId\":\""@ + spec_uuid(conversation_id)
                + "\"}"@
        },
        ClientMessage::Ping => "{\"type\":\"ping\"}"@,
    }
}

/// Serializes a client frame for the wire, character for character as
/// `spec_encode_client` defines it.
pub fn encode_client_message(msg: &ClientMessage) -> (r: String)
    ensures
        r@ == spec_encode_client(*msg),
{
    let mut out: Vec<char> = Vec::new();
    match msg {
        ClientMessage::Auth { token } => {
            push_str_chars(&mut out, "{\"type\":\"auth\",\"token\":\"");
            push_escaped(&mut out, token.as_str());
            push_str_chars(&mut out, "\"}");
            proof {
                assert(out@ =~= spec_encode_client(*msg));
            }
        },
        ClientMessage::SendMessage { conversation_id, content } => {
            push_str_chars(&mut out, "{\"type\":\"sendMessage\",\"conversationId\":\"");
            push_uuid(&mut out, *conversation_id);
            push_str_chars(&mut out, "\",\"content\":\"");
            push_escaped(&mut out, content.as_str());
            push_str_chars(&mut out, "\"}");
            proof {
                assert(out@ =~= spec_encode_client(*msg));
            }
        },
        ClientMessage::JoinConversation { conversation_id } => {
            push_str_chars(&mut out, "{\"type\":\"joinConversation\",\"conversationId\":\"");
            push_uuid(&mut out, *conversation_id);
            push_str_chars(&mut out, "\"}");
            proof {
                assert(out@ =~= spec_encode_client(*msg));
            }
        },
        ClientMessage::LeaveConversation { conversation_id } => {
            push_str_chars(&mut out, "{\"type\":\"leaveConversation\",\"conversationId\":\"");
            push_uuid(&mut out, *conversation_id);
            push_str_chars(&mut out, "\"}");
            proof {
                assert(out@ =~= spec_encode_client(*msg));
            }
        },
        ClientMessage::TypingStart { conversation_id } => {
            push_str_chars(&mut out, "{\"type\":\"typingStart\",\"conversationId\":\"");
            push_uuid(&mut out, *conversation_id);
            push_str_chars(&mut out, "\"}");
            proof {
                assert(out@ =~= spec_encode_client(*msg));
            }
        },
        ClientMessage::TypingStop { conversation_id } => {
            push_str_chars(&mut out, "{\"type\":\"typingStop\",\"conversationId\":\"");
            push_uuid(&mut out, *conversation_id);
            push_str_chars(&mut out, "\"}");
            proof {
                assert(out@ =~= spec_encode_client(*msg));
            }
        },
        ClientMessage::Ping => {
            push_str_chars(&mut out, "{\"type\":\"ping\"}");
            proof {
                assert(out@ =~= spec_encode_client(*msg));
            }
        },
    }
    string_from_chars(out)
}

} // verus!
