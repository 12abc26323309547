//! Matrix identifiers.

use vstd::prelude::*;
use crate::text::{chars_of, find_char, find_char_from, string_of_range};

verus! {

/// Whether a text is a server name: a host name or address, and perhaps a port.
pub uninterp spec fn valid_server_name(s: Seq<char>) -> bool;

/// Whether a text names something on a server: a sigil, a local part without a
/// NUL, a colon, and the name of the server.
pub open spec fn valid_delimited(s: Seq<char>, sigil: char) -> bool {
    let c = find_char(s, ':', 0);
    &&& s.len() > 0
    &&& s[0] == sigil
    &&& c < s.len()
    &&& valid_server_name(s.skip(c + 1))
    &&& forall|i: int| 0 <= i < c ==> (#[trigger] s[i]) != '\0'
}

/// Whether a text is a user id.
pub open spec fn valid_user_id(s: Seq<char>) -> bool {
    valid_delimited(s, '@')
}

/// Whether a text is a room alias.
pub open spec fn valid_room_alias(s: Seq<char>) -> bool {
    valid_delimited(s, '#')
}

/// Whether a text is a room id.
pub open spec fn valid_room_id(s: Seq<char>) -> bool {
    s.len() > 0 && s[0] == '!' && !s.contains('\0')
}

/// Whether a text is an event id. Only those of old rooms name a server.
pub open spec fn valid_event_id(s: Seq<char>) -> bool {
    let c = find_char(s, ':', 0);
    s.len() > 0 && s[0] == '$' && (c < s.len() ==> valid_server_name(s.skip(c + 1)))
}

/// `matrix_sdk::ruma::ServerName::parse`: whether it accepts the text is a
/// function of the text.
#[verifier::external_body]
pub(crate) fn is_server_name(s: &str) -> (r: bool)
    ensures
        r == valid_server_name(s@),
{
    matrix_sdk::ruma::ServerName::parse(s).is_ok()
}

/// `matrix_sdk::ruma::UserId::parse`: it accepts a text with the sigil of users,
/// a local part without a NUL, and a server name behind the first colon.
#[verifier::external_body]
pub(crate) fn is_user_id(s: &str) -> (r: bool)
    ensures
        r == valid_user_id(s@),
{
    matrix_sdk::ruma::UserId::parse(s).is_ok()
}

/// `matrix_sdk::ruma::RoomAliasId::parse`: it accepts a text with the sigil of
/// aliases, a local part without a NUL, and a server name behind the first colon.
#[verifier::external_body]
pub(crate) fn is_room_alias(s: &str) -> (r: bool)
    ensures
        r == valid_room_alias(s@),
{
    matrix_sdk::ruma::RoomAliasId::parse(s).is_ok()
}

/// `matrix_sdk::ruma::RoomId::parse`: it accepts a text with the sigil of rooms
/// that holds no NUL.
#[verifier::external_body]
pub(crate) fn is_room_id(s: &str) -> (r: bool)
    ensures
        r == valid_room_id(s@),
{
    matrix_sdk::ruma::RoomId::parse(s).is_ok()
}

/// `matrix_sdk::ruma::EventId::parse`: it accepts a text with the sigil of events
/// that has no colon, or a server name behind the first one.
#[verifier::external_body]
pub(crate) fn is_event_id(s: &str) -> (r: bool)
    ensures
        r == valid_event_id(s@),
{
    matrix_sdk::ruma::EventId::parse(s).is_ok()
}

/// `matrix_sdk::ruma::RoomOrAliasId::parse`: it accepts what is a room id or a
/// room alias.
#[verifier::external_body]
pub(crate) fn is_room_or_alias(s: &str) -> (r: bool)
    ensures
        r == (valid_room_id(s@) || valid_room_alias(s@)),
{
    matrix_sdk::ruma::RoomOrAliasId::parse(s).is_ok()
}

/// The local part of a user id: what stands between the sigil and the first
/// colon. A text that is no user id is given back whole.
pub open spec fn user_localpart(s: Seq<char>) -> Seq<char> {
    let c = find_char(s, ':', 0);
    if s.len() > 0 && s[0] == '@' && c < s.len() {
        s.subrange(1, c)
    } else {
        s
    }
}

/// The local part of a user id.
pub fn localpart_of_user(id: &str) -> (r: String)
    ensures
        r@ == user_localpart(id@),
{
    let v = chars_of(id);
    let c: usize = find_char_from(&v, ':', 0);
    if v.len() > 0 && v[0] == '@' && c < v.len() {
        string_of_range(&v, 1, c)
    } else {
        id.to_owned()
    }
}

/// What stands behind the first colon of an identifier, if it has one.
pub open spec fn server_part(s: Seq<char>) -> Option<Seq<char>> {
    let c = find_char(s, ':', 0);
    if c < s.len() {
        Some(s.skip(c + 1))
    } else {
        None
    }
}

/// What stands behind the first colon of an identifier.
pub fn server_part_of(id: &str) -> (r: Option<String>)
    ensures
        crate::json::text_of(r) == server_part(id@),
{
    let v = chars_of(id);
    let c: usize = find_char_from(&v, ':', 0);
    if c < v.len() {
        assert(v@.subrange(c + 1, v@.len() as int) =~= v@.skip(c + 1));
        Some(string_of_range(&v, c + 1, v.len()))
    } else {
        None
    }
}

/// A user id has a local part and a server.
pub proof fn law_user_id_parts(s: Seq<char>)
    requires
        valid_user_id(s),
    ensures
        server_part(s) is Some,
        s == seq!['@'] + user_localpart(s) + seq![':'] + server_part(s)->0,
{
    crate::text::lemma_find_char(s, ':', 0);
    let c = find_char(s, ':', 0);
    assert(s =~= seq!['@'] + s.subrange(1, c) + seq![':'] + s.skip(c + 1));
}

pub(crate) proof fn lemma_localpart(id: Seq<char>, local: Seq<char>, server: Seq<char>)
    requires
        id == seq!['@'] + local + seq![':'] + server,
        forall|i: int| 0 <= i < local.len() ==> (#[trigger] local[i]) != ':',
    ensures
        user_localpart(id) == local,
        server_part(id) == Some(server),
{
    crate::text::lemma_find_char(id, ':', 0);
    let c = find_char(id, ':', 0);
    assert(id[local.len() as int + 1] == ':');
    assert forall|j: int| 0 <= j < local.len() + 1 implies (#[trigger] id[j]) != ':' by {
        if j > 0 {
            assert(id[j] == local[j - 1]);
        }
    }
    assert(c == local.len() + 1);
    assert(id.subrange(1, c) =~= local);
    assert(id.skip(c + 1) =~= server);
}

/// The local part of a user id stands between its sigil and the first colon, and the
/// server behind that colon.
pub proof fn law_ids_are_taken_apart(local: Seq<char>, server: Seq<char>)
    requires
        forall|i: int| 0 <= i < local.len() ==> (#[trigger] local[i]) != ':',
    ensures
        user_localpart(seq!['@'] + local + seq![':'] + server) == local,
        server_part(seq!['@'] + local + seq![':'] + server) == Some(server),
{
    lemma_localpart(seq!['@'] + local + seq![':'] + server, local, server);
}

} // verus!
