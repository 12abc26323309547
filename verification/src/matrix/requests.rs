//! What the commands of the user ask of the server, and what is reported back.

use vstd::prelude::*;
use crate::json::{json_str_at, json_string, text_of};
use crate::matrix::event::MatrixEvent;
use crate::matrix::ids::{
    is_event_id, is_room_alias, is_room_id, is_room_or_alias, is_server_name, is_user_id,
    lemma_localpart, localpart_of_user, server_part, server_part_of, user_localpart, valid_event_id, valid_room_alias,
    valid_room_id, valid_server_name, valid_user_id,
};
use crate::matrix::info::clone_option;
use crate::text::{chars_of, concat, contains, ends_with, push_str, same, str_contains, string_of, views};

verus! {

/// How many servers of a resolved alias are tried when joining.
pub const MAX_ALIAS_SERVERS: usize = 3;

/// How an invitation went.
#[derive(Debug)]
pub enum InviteOutcome {
    RoomNotFound,
    Sent,
    Failed { error: String },
}

/// The reason why an invitation is refused before anything is sent, if any.
pub open spec fn invite_refusal(room_id: Seq<char>, user_id: Seq<char>) -> Option<Seq<char>> {
    if !valid_room_id(room_id) {
        Some("Invalid room ID: "@ + room_id)
    } else if !valid_user_id(user_id) {
        Some("Invalid user ID: "@ + user_id)
    } else {
        None
    }
}

/// Checks the ids of an invitation. An event is reported when one is not valid.
pub fn start_invite(room_id: &str, user_id: &str) -> (r: Option<MatrixEvent>)
    ensures
        match invite_refusal(room_id@, user_id@) {
            Some(why) => r matches Some(MatrixEvent::InviteFailed { error }) && error@ == why,
            None => r is None,
        },
{
    if !is_room_id(room_id) {
        return Some(MatrixEvent::InviteFailed { error: concat("Invalid room ID: ", room_id) });
    }
    if !is_user_id(user_id) {
        return Some(MatrixEvent::InviteFailed { error: concat("Invalid user ID: ", user_id) });
    }
    None
}

/// What is reported about an invitation that was attempted.
pub fn finish_invite(user_id: &str, outcome: InviteOutcome) -> (r: MatrixEvent)
    ensures
        match outcome {
            InviteOutcome::RoomNotFound => r matches MatrixEvent::InviteFailed { error } && error@
                == "Room not found"@,
            InviteOutcome::Sent => r matches MatrixEvent::InviteSuccess { user_id: id } && id@
                == user_id@,
            InviteOutcome::Failed { error: why } => r == (MatrixEvent::InviteFailed {
                error: why,
            }),
        },
{
    match outcome {
        InviteOutcome::RoomNotFound => MatrixEvent::InviteFailed {
            error: "Room not found".to_owned(),
        },
        InviteOutcome::Sent => MatrixEvent::InviteSuccess { user_id: user_id.to_owned() },
        InviteOutcome::Failed { error } => MatrixEvent::InviteFailed { error },
    }
}

/// How leaving a room went.
#[derive(Debug)]
pub enum LeaveOutcome {
    RoomNotFound,
    Left,
    Failed { error: String },
}

/// Checks the room id before a room is left.
pub fn start_leave(room_id: &str) -> (r: Option<MatrixEvent>)
    ensures
        valid_room_id(room_id@) ==> r is None,
        !valid_room_id(room_id@) ==> (r matches Some(MatrixEvent::LeaveFailed { error }) && error@
            == "Invalid room ID: "@ + room_id@),
{
    if is_room_id(room_id) {
        None
    } else {
        Some(MatrixEvent::LeaveFailed { error: concat("Invalid room ID: ", room_id) })
    }
}

/// What is reported about leaving a room.
pub fn finish_leave(room_id: &str, outcome: LeaveOutcome) -> (r: MatrixEvent)
    ensures
        match outcome {
            LeaveOutcome::RoomNotFound => r matches MatrixEvent::LeaveFailed { error } && error@
                == "Room not found"@,
            LeaveOutcome::Left => r matches MatrixEvent::RoomLeft { room_id: id } && id@
                == room_id@,
            LeaveOutcome::Failed { error: why } => r == (MatrixEvent::LeaveFailed { error: why }),
        },
{
    match outcome {
        LeaveOutcome::RoomNotFound => MatrixEvent::LeaveFailed {
            error: "Room not found".to_owned(),
        },
        LeaveOutcome::Left => MatrixEvent::RoomLeft { room_id: room_id.to_owned() },
        LeaveOutcome::Failed { error } => MatrixEvent::LeaveFailed { error },
    }
}

/// What is reported about declining an invitation: only a success.
pub fn finish_decline(room_id: &str, left: bool) -> (r: Option<MatrixEvent>)
    ensures
        left ==> (r matches Some(MatrixEvent::RoomLeft { room_id: id }) && id@ == room_id@),
        !left ==> r is None,
{
    if left {
        Some(MatrixEvent::RoomLeft { room_id: room_id.to_owned() })
    } else {
        None
    }
}

/// How joining a room went: its id and, where it is known, its name; or the
/// error.
pub type JoinResult = Result<(String, Option<String>), String>;

/// What is reported about joining a room. A room without a name goes by what was
/// asked for.
pub fn finish_join(asked: &str, outcome: JoinResult) -> (r: MatrixEvent)
    ensures
        match outcome {
            Ok((id, name)) => r matches MatrixEvent::RoomJoined { room_id, room_name } && room_id
                == id && room_name@ == (match name {
                Some(n) => n@,
                None => asked@,
            }),
            Err(why) => r == (MatrixEvent::JoinFailed { error: why }),
        },
{
    match outcome {
        Ok((room_id, name)) => {
            let room_name = match name {
                Some(n) => n,
                None => asked.to_owned(),
            };
            MatrixEvent::RoomJoined { room_id, room_name }
        },
        Err(error) => MatrixEvent::JoinFailed { error },
    }
}

/// How to join a room.
#[derive(Debug)]
pub enum JoinPlan {
    /// Nothing can be asked of the server.
    Refused { event: MatrixEvent },
    /// The alias has to be resolved first.
    Resolve,
    /// Join by room id, over these servers.
    Join { servers: Vec<String> },
}

/// The list with one more server name, if it is one and not there yet.
pub open spec fn with_server(servers: Seq<Seq<char>>, s: Seq<char>) -> Seq<Seq<char>> {
    if valid_server_name(s) && !servers.contains(s) {
        servers.push(s)
    } else {
        servers
    }
}

/// The list with more server names.
pub open spec fn with_servers(servers: Seq<Seq<char>>, more: Seq<Seq<char>>) -> Seq<Seq<char>>
    decreases more.len(),
{
    if more.len() == 0 {
        servers
    } else {
        with_server(with_servers(servers, more.drop_last()), more.last())
    }
}

/// The servers over which a room id is joined: the one in the id, then the hints.
pub open spec fn room_servers(id: Seq<char>, hints: Seq<Seq<char>>) -> Seq<Seq<char>> {
    let own = match server_part(id) {
        Some(s) => with_server(Seq::empty(), s),
        None => Seq::empty(),
    };
    with_servers(own, hints)
}

fn push_server(servers: &mut Vec<String>, s: &str)
    ensures
        views(final(servers)@) == with_server(views(old(servers)@), s@),
{
    let ghost before = views(servers@);
    if !is_server_name(s) {
        return ;
    }
    let mut i: usize = 0;
    while i < servers.len()
        invariant
            i <= servers@.len(),
            servers@ == old(servers)@,
            before == views(servers@),
            forall|j: int| 0 <= j < i ==> (#[trigger] before[j]) != s@,
        decreases servers@.len() - i,
    {
        assert(before[i as int] == servers@[i as int]@);
        if same(&servers[i], s) {
            assert(before.contains(s@));
            return ;
        }
        i = i + 1;
    }
    assert(!before.contains(s@));
    servers.push(s.to_owned());
    assert(views(servers@) =~= before.push(s@));
}

/// Decides how to join a room or alias.
///
/// A room id is joined over the server in the id and the hints; an alias is
/// resolved first, because the answer names servers that are in the room now.
pub fn plan_join(asked: &str, hints: &Vec<String>) -> (r: JoinPlan)
    ensures
        match r {
            JoinPlan::Refused { event } => !valid_room_id(asked@) && !valid_room_alias(asked@) && (
            event matches MatrixEvent::JoinFailed { error } && error@
                == "Invalid room ID or alias: "@ + asked@),
            JoinPlan::Resolve => valid_room_alias(asked@),
            JoinPlan::Join { servers } => valid_room_id(asked@) && views(servers@) == room_servers(
                asked@,
                views(hints@),
            ),
        },
        valid_room_alias(asked@) ==> r is Resolve,
        valid_room_id(asked@) ==> r is Join,
{
    if !is_room_or_alias(asked) {
        return JoinPlan::Refused {
            event: MatrixEvent::JoinFailed { error: concat("Invalid room ID or alias: ", asked) },
        };
    }
    if is_room_alias(asked) {
        return JoinPlan::Resolve;
    }
    let mut servers: Vec<String> = Vec::new();
    assert(views(servers@) =~= Seq::<Seq<char>>::empty());
    if let Some(own) = server_part_of(asked) {
        push_server(&mut servers, &own);
    }
    let ghost own = views(servers@);
    let ghost more = views(hints@);
    let mut i: usize = 0;
    assert(more.take(0) =~= Seq::<Seq<char>>::empty());
    while i < hints.len()
        invariant
            i <= hints@.len(),
            more == views(hints@),
            views(servers@) == with_servers(own, more.take(i as int)),
        decreases hints@.len() - i,
    {
        proof {
            assert(more.take(i + 1).drop_last() =~= more.take(i as int));
            assert(more.take(i + 1).last() == hints@[i as int]@);
        }
        push_server(&mut servers, &hints[i]);
        i = i + 1;
    }
    assert(more.take(i as int) =~= more);
    JoinPlan::Join { servers }
}

/// The server names among texts.
pub open spec fn server_names(list: Seq<Seq<char>>) -> Seq<Seq<char>> {
    list.filter(|s: Seq<char>| valid_server_name(s))
}

/// The servers over which an alias is joined: the first few that resolving it
/// named, or the hints where it could not be resolved.
pub fn alias_servers(resolved: Option<Vec<String>>, hints: &Vec<String>) -> (r: Vec<String>)
    ensures
        match resolved {
            Some(list) => r@ == list@.take(
                (if list@.len() < MAX_ALIAS_SERVERS {
                    list@.len() as int
                } else {
                    MAX_ALIAS_SERVERS as int
                }),
            ),
            None => views(r@) == server_names(views(hints@)),
        },
{
    match resolved {
        Some(mut list) => {
            let ghost all = list@;
            if list.len() > MAX_ALIAS_SERVERS {
                list.truncate(MAX_ALIAS_SERVERS);
                assert(list@ =~= all.take(MAX_ALIAS_SERVERS as int));
            } else {
                assert(list@ =~= all.take(all.len() as int));
            }
            list
        },
        None => {
            broadcast use vstd::seq_lib::group_filter_ensures;

            let mut out: Vec<String> = Vec::new();
            let ghost all = views(hints@);
            let mut i: usize = 0;
            assert(views(out@) =~= server_names(all.take(0)));
            while i < hints.len()
                invariant
                    i <= hints@.len(),
                    all == views(hints@),
                    views(out@) == server_names(all.take(i as int)),
                decreases hints@.len() - i,
            {
                let ghost before = views(out@);
                proof {
                    assert(all.take(i + 1) =~= all.take(i as int).push(hints@[i as int]@));
                    assert(all.take(i + 1).drop_last() =~= all.take(i as int));
                    reveal(Seq::filter);
                }
                if is_server_name(&hints[i]) {
                    out.push(hints[i].clone());
                    assert(views(out@) =~= before.push(hints@[i as int]@));
                }
                i = i + 1;
            }
            assert(all.take(i as int) =~= all);
            out
        },
    }
}

/// A user of the server's directory.
#[derive(Debug)]
pub struct FoundUser {
    pub user_id: String,
    pub display_name: Option<String>,
}

/// The name under which a found user is listed, and the user id.
pub open spec fn found_entry(u: FoundUser) -> (Seq<char>, Seq<char>) {
    (
        match u.display_name {
            Some(n) => n@,
            None => user_localpart(u.user_id@),
        },
        u.user_id@,
    )
}

/// The results of a user search; none where the search failed.
pub fn search_results(found: Option<Vec<FoundUser>>) -> (r: MatrixEvent)
    ensures
        r matches MatrixEvent::UserSearchResults { results } && (match found {
            Some(list) => results@.map_values(|e: (String, String)| (e.0@, e.1@))
                == list@.map_values(|u: FoundUser| found_entry(u)),
            None => results@.len() == 0,
        }),
{
    let mut results: Vec<(String, String)> = Vec::new();
    if let Some(list) = found {
        let mut i: usize = 0;
        while i < list.len()
            invariant
                i <= list@.len(),
                results@.len() == i,
                forall|j: int|
                    0 <= j < i ==> ((#[trigger] results@[j]).0@, results@[j].1@) == found_entry(
                        list@[j],
                    ),
            decreases list@.len() - i,
        {
            let name: String = match &list[i].display_name {
                Some(n) => n.clone(),
                None => localpart_of_user(&list[i].user_id),
            };
            results.push((name, list[i].user_id.clone()));
            i = i + 1;
        }
        assert(results@.map_values(|e: (String, String)| (e.0@, e.1@)) =~= list@.map_values(
            |u: FoundUser| found_entry(u),
        ));
    }
    MatrixEvent::UserSearchResults { results }
}

/// A joined room, looked at for an existing conversation with a user.
#[derive(Debug)]
pub struct DirectRoom {
    pub room_id: String,
    pub is_direct: bool,
    /// Whether the user is a member.
    pub has_user: bool,
    pub name: Option<String>,
}

/// The first direct room with the user, from `i` on; the number of rooms if there
/// is none.
pub open spec fn direct_position(rooms: Seq<DirectRoom>, i: int) -> int
    decreases rooms.len() - i,
{
    if i >= rooms.len() {
        rooms.len() as int
    } else if rooms[i].is_direct && rooms[i].has_user {
        i
    } else {
        direct_position(rooms, i + 1)
    }
}

/// What to do about a conversation with a user.
#[derive(Debug)]
pub enum DirectStep {
    /// Nothing is left but to report.
    Report { event: MatrixEvent },
    /// The user is to be looked up and a room created.
    Create,
}

/// Decides how to open a conversation: over an existing direct room with the
/// user, if there is one.
pub fn plan_dm(user_id: &str, rooms: &Vec<DirectRoom>) -> (r: DirectStep)
    ensures
        ({
            let p = direct_position(rooms@, 0);
            if !valid_user_id(user_id@) {
                r matches DirectStep::Report { event } && (event matches MatrixEvent::DmFailed {
                    error,
                } && error@ == "Invalid user ID: "@ + user_id@)
            } else if p < rooms@.len() {
                r matches DirectStep::Report { event } && (event matches MatrixEvent::DmReady {
                    user_id: u,
                    room_id,
                    room_name,
                } && u@ == user_id@ && room_id == rooms@[p].room_id && room_name@ == (
                match rooms@[p].name {
                    Some(n) => n@,
                    None => user_id@,
                }))
            } else {
                r is Create
            }
        }),
{
    if !is_user_id(user_id) {
        return DirectStep::Report {
            event: MatrixEvent::DmFailed { error: concat("Invalid user ID: ", user_id) },
        };
    }
    let mut i: usize = 0;
    while i < rooms.len()
        invariant
            i <= rooms@.len(),
            valid_user_id(user_id@),
            direct_position(rooms@, 0) == direct_position(rooms@, i as int),
        decreases rooms@.len() - i,
    {
        if rooms[i].is_direct && rooms[i].has_user {
            let room_name: String = match &rooms[i].name {
                Some(n) => n.clone(),
                None => user_id.to_owned(),
            };
            return DirectStep::Report {
                event: MatrixEvent::DmReady {
                    user_id: user_id.to_owned(),
                    room_id: rooms[i].room_id.clone(),
                    room_name,
                },
            };
        }
        i = i + 1;
    }
    DirectStep::Create
}

/// What is reported when the user is not known to their server.
pub fn unknown_user(user_id: &str) -> (r: MatrixEvent)
    ensures
        r matches MatrixEvent::DmFailed { error } && error@ == "User "@ + user_id@
            + " not found \u{2014} check the ID and try again"@,
{
    let mut out = chars_of("User ");
    push_str(&mut out, user_id);
    push_str(&mut out, " not found \u{2014} check the ID and try again");
    MatrixEvent::DmFailed { error: string_of(&out) }
}

/// What is reported when a room for the conversation was created, or not.
pub fn finish_dm(user_id: &str, outcome: Result<String, String>) -> (r: MatrixEvent)
    ensures
        match outcome {
            Ok(id) => r matches MatrixEvent::DmReady { user_id: u, room_id, room_name } && u@
                == user_id@ && room_id == id && room_name@ == user_id@,
            Err(why) => r == (MatrixEvent::DmFailed { error: why }),
        },
{
    match outcome {
        Ok(room_id) => MatrixEvent::DmReady {
            user_id: user_id.to_owned(),
            room_id,
            room_name: user_id.to_owned(),
        },
        Err(error) => MatrixEvent::DmFailed { error },
    }
}

/// The event that a read receipt names: the latest that the sync delivered, or
/// else the last one in memory. None when there is nothing to mark.
pub fn receipt_target(room_id: &str, latest: Option<String>, cached: Option<String>) -> (r: Option<
    String,
>)
    ensures
        text_of(r) == (if !valid_room_id(room_id@) {
            None
        } else if latest is Some {
            text_of(latest)
        } else if cached is Some && valid_event_id(cached->0@) {
            text_of(cached)
        } else {
            None
        }),
{
    if !is_room_id(room_id) {
        return None;
    }
    if latest.is_some() {
        return latest;
    }
    match cached {
        Some(id) => if is_event_id(&id) {
            Some(id)
        } else {
            None
        },
        None => None,
    }
}

/// A text message that is about to be sent.
#[derive(Debug)]
pub struct OutgoingMessage {
    pub body: String,
    /// The HTML body, if there is one.
    pub html: Option<String>,
    pub is_emote: bool,
    /// The users that are mentioned.
    pub mentions: Vec<String>,
    /// The event that this replies to.
    pub reply_to: Option<String>,
}

/// The user ids among texts.
pub open spec fn user_ids(list: Seq<Seq<char>>) -> Seq<Seq<char>> {
    list.filter(|s: Seq<char>| valid_user_id(s))
}

/// Builds a text message. None when the room id is not valid; mentions and a
/// reply that are not valid are left out.
pub fn compose_message(
    room_id: &str,
    body: &str,
    formatted_body: Option<&str>,
    reply_to: Option<&str>,
    is_emote: bool,
    mentioned_user_ids: &Vec<String>,
) -> (r: Option<OutgoingMessage>)
    ensures
        r is Some <==> valid_room_id(room_id@),
        r matches Some(m) ==> {
            &&& m.body@ == body@
            &&& text_of(m.html) == (match formatted_body {
                Some(h) => Some(h@),
                None => None,
            })
            &&& m.is_emote == is_emote
            &&& views(m.mentions@) == user_ids(views(mentioned_user_ids@))
            &&& text_of(m.reply_to) == (match reply_to {
                Some(id) => if valid_event_id(id@) {
                    Some(id@)
                } else {
                    None
                },
                None => None,
            })
        },
{
    broadcast use vstd::seq_lib::group_filter_ensures;

    if !is_room_id(room_id) {
        return None;
    }
    let mut mentions: Vec<String> = Vec::new();
    let ghost all = views(mentioned_user_ids@);
    let mut i: usize = 0;
    assert(views(mentions@) =~= user_ids(all.take(0)));
    while i < mentioned_user_ids.len()
        invariant
            i <= mentioned_user_ids@.len(),
            all == views(mentioned_user_ids@),
            views(mentions@) == user_ids(all.take(i as int)),
        decreases mentioned_user_ids@.len() - i,
    {
        let ghost before = views(mentions@);
        proof {
            assert(all.take(i + 1) =~= all.take(i as int).push(mentioned_user_ids@[i as int]@));
            assert(all.take(i + 1).drop_last() =~= all.take(i as int));
            reveal(Seq::filter);
        }
        if is_user_id(&mentioned_user_ids[i]) {
            mentions.push(mentioned_user_ids[i].clone());
            assert(views(mentions@) =~= before.push(mentioned_user_ids@[i as int]@));
        }
        i = i + 1;
    }
    assert(all.take(i as int) =~= all);
    let reply: Option<String> = match reply_to {
        Some(id) => if is_event_id(id) {
            Some(id.to_owned())
        } else {
            None
        },
        None => None,
    };
    let html: Option<String> = match formatted_body {
        Some(h) => Some(h.to_owned()),
        None => None,
    };
    Some(OutgoingMessage { body: body.to_owned(), html, is_emote, mentions, reply_to: reply })
}

/// What is reported when the server has taken a message.
pub fn message_sent(room_id: &str, body: &str, event_id: String) -> (r: MatrixEvent)
    ensures
        r matches MatrixEvent::MessageSent { room_id: id, echo_body, event_id: e } && id@
            == room_id@ && echo_body@ == body@ && e == event_id,
{
    MatrixEvent::MessageSent { room_id: room_id.to_owned(), echo_body: body.to_owned(), event_id }
}

/// Whether the ids of a reaction, an edit or a redaction are valid.
pub fn addresses_event(room_id: &str, event_id: &str) -> (r: bool)
    ensures
        r == (valid_room_id(room_id@) && valid_event_id(event_id@)),
{
    is_room_id(room_id) && is_event_id(event_id)
}

/// Whether a reaction was refused because the user reacted so already, in which
/// case the reaction is taken back.
pub fn is_duplicate_reaction(error: &str) -> (r: bool)
    ensures
        r == (contains(error@, "M_DUPLICATE_ANNOTATION"@) || contains(error@, "same reaction"@)),
{
    str_contains(error, "M_DUPLICATE_ANNOTATION") || str_contains(error, "same reaction")
}

/// The event id of a raw reaction, if it puts the emoji on the message and its
/// own id is valid.
pub open spec fn reaction_on(raw: Seq<char>, event_id: Seq<char>, emoji: Seq<char>) -> Option<
    Seq<char>,
> {
    let own = json_string(raw, "/event_id"@);
    if json_string(raw, "/content/m.relates_to/event_id"@) == Some(event_id) && json_string(
        raw,
        "/content/m.relates_to/key"@,
    ) == Some(emoji) && own is Some && valid_event_id(own->0) {
        own
    } else {
        None
    }
}

/// The first raw event from `i` on that puts the emoji on the message.
pub open spec fn first_reaction(
    raws: Seq<String>,
    event_id: Seq<char>,
    emoji: Seq<char>,
    i: int,
) -> Option<Seq<char>>
    decreases raws.len() - i,
{
    if i >= raws.len() {
        None
    } else if reaction_on(raws[i]@, event_id, emoji) is Some {
        reaction_on(raws[i]@, event_id, emoji)
    } else {
        first_reaction(raws, event_id, emoji, i + 1)
    }
}

/// The user's own reaction that is to be taken back, among their recent reactions
/// as JSON.
pub fn find_reaction(raws: &Vec<String>, event_id: &str, emoji: &str) -> (r: Option<String>)
    ensures
        text_of(r) == first_reaction(raws@, event_id@, emoji@, 0),
{
    let mut i: usize = 0;
    while i < raws.len()
        invariant
            i <= raws@.len(),
            first_reaction(raws@, event_id@, emoji@, 0) == first_reaction(
                raws@,
                event_id@,
                emoji@,
                i as int,
            ),
        decreases raws@.len() - i,
    {
        let raw: &String = &raws[i];
        if let Some(target) = json_str_at(raw, "/content/m.relates_to/event_id") {
            if let Some(key) = json_str_at(raw, "/content/m.relates_to/key") {
                if same(&target, event_id) && same(&key, emoji) {
                    if let Some(own) = json_str_at(raw, "/event_id") {
                        if is_event_id(&own) {
                            return Some(own);
                        }
                    }
                }
            }
        }
        i = i + 1;
    }
    None
}

/// The HTML of an edit: an empty one counts as none.
pub fn edit_html(formatted_body: &Option<String>) -> (r: Option<String>)
    ensures
        r == (if formatted_body is Some && formatted_body->0@.len() > 0 {
            *formatted_body
        } else {
            None
        }),
{
    match formatted_body {
        Some(h) => if h.as_str().is_empty() {
            None
        } else {
            clone_option(formatted_body)
        },
        None => None,
    }
}

/// Joining by room id goes first over the server in the id, and over no server
/// twice.
pub proof fn law_join_servers_distinct(id: Seq<char>, hints: Seq<Seq<char>>)
    ensures
        forall|i: int, j: int|
            #![trigger room_servers(id, hints)[i], room_servers(id, hints)[j]]
            0 <= i < j < room_servers(id, hints).len() ==> room_servers(id, hints)[i]
                != room_servers(id, hints)[j],
        server_part(id) is Some && valid_server_name(server_part(id)->0) ==> room_servers(
            id,
            hints,
        ).len() > 0 && room_servers(id, hints)[0] == server_part(id)->0,
    decreases hints.len(),
{
    if hints.len() > 0 {
        law_join_servers_distinct(id, hints.drop_last());
        let before = room_servers(id, hints.drop_last());
        let s = hints.last();
        assert(room_servers(id, hints) == with_server(before, s));
        if !before.contains(s) {
            assert forall|i: int| 0 <= i < before.len() implies #[trigger] before[i] != s by {}
        }
    }
}

/// An invitation is refused by its room when that is no room id, else by its user
/// when that is no user id; it goes out only when both are.
pub proof fn law_invites_need_both_ids(room_id: Seq<char>, user_id: Seq<char>)
    ensures
        invite_refusal(room_id, user_id) is None <==> valid_room_id(room_id) && valid_user_id(
            user_id,
        ),
        !valid_room_id(room_id) ==> ends_with(invite_refusal(room_id, user_id)->0, room_id),
        valid_room_id(room_id) && !valid_user_id(user_id) ==> ends_with(
            invite_refusal(room_id, user_id)->0,
            user_id,
        ),
{
    if !valid_room_id(room_id) {
        let why = "Invalid room ID: "@ + room_id;
        assert(why.skip(why.len() - room_id.len()) == room_id);
    } else if !valid_user_id(user_id) {
        let why = "Invalid user ID: "@ + user_id;
        assert(why.skip(why.len() - user_id.len()) == user_id);
    }
}

proof fn lemma_with_servers(servers: Seq<Seq<char>>, more: Seq<Seq<char>>, s: Seq<char>)
    ensures
        with_servers(servers, more).contains(s) <==> servers.contains(s) || (valid_server_name(s)
            && more.contains(s)),
    decreases more.len(),
{
    if more.len() > 0 {
        let before = with_servers(servers, more.drop_last());
        let last = more.last();
        lemma_with_servers(servers, more.drop_last(), s);
        assert(more == more.drop_last().push(last));
        lemma_push_contains(more.drop_last(), last, s);
        lemma_push_contains(before, last, s);
    }
}

proof fn lemma_push_contains(list: Seq<Seq<char>>, last: Seq<char>, s: Seq<char>)
    ensures
        list.push(last).contains(s) <==> list.contains(s) || s == last,
{
    let all = list.push(last);
    if list.contains(s) {
        let k = choose|k: int| 0 <= k < list.len() && list[k] == s;
        assert(all[k] == s);
    }
    if s == last {
        assert(all[list.len() as int] == s);
    }
    if all.contains(s) {
        let k = choose|k: int| 0 <= k < all.len() && all[k] == s;
        if k < list.len() {
            assert(list[k] == s);
        }
    }
}

/// A room is joined over every server that is named, in its id or as a hint, and
/// over no other; what is no server name is passed over.
pub proof fn law_join_servers_are_named(id: Seq<char>, hints: Seq<Seq<char>>, s: Seq<char>)
    ensures
        room_servers(id, hints).contains(s) <==> valid_server_name(s) && (hints.contains(s)
            || server_part(id) == Some(s)),
{
    let own = match server_part(id) {
        Some(t) => with_server(Seq::empty(), t),
        None => Seq::empty(),
    };
    lemma_with_servers(own, hints, s);
    if server_part(id) is Some {
        lemma_push_contains(Seq::empty(), server_part(id)->0, s);
    }
}

proof fn lemma_filter_contains(
    list: Seq<Seq<char>>,
    keep: spec_fn(Seq<char>) -> bool,
    s: Seq<char>,
)
    ensures
        list.filter(keep).contains(s) <==> list.contains(s) && keep(s),
    decreases list.len(),
{
    reveal(Seq::filter);
    if list.len() > 0 {
        lemma_filter_contains(list.drop_last(), keep, s);
        lemma_push_contains(list.drop_last(), list.last(), s);
        lemma_push_contains(list.drop_last().filter(keep), list.last(), s);
        assert(list == list.drop_last().push(list.last()));
    }
}

/// Of the hints for an alias those are used that are server names, and of the
/// users that a message mentions those that are user ids.
pub proof fn law_only_names_are_kept(list: Seq<Seq<char>>, s: Seq<char>)
    ensures
        server_names(list).contains(s) <==> list.contains(s) && valid_server_name(s),
        user_ids(list).contains(s) <==> list.contains(s) && valid_user_id(s),
{
    lemma_filter_contains(list, |t: Seq<char>| valid_server_name(t), s);
    lemma_filter_contains(list, |t: Seq<char>| valid_user_id(t), s);
}

/// A found user is listed by their name; without one, by the first part of their
/// id.
pub proof fn law_found_users_are_named(u: FoundUser, local: Seq<char>, server: Seq<char>)
    requires
        u.user_id@ == seq!['@'] + local + seq![':'] + server,
        !local.contains(':'),
    ensures
        found_entry(u).1 == u.user_id@,
        u.display_name is Some ==> found_entry(u).0 == u.display_name->0@,
        u.display_name is None ==> found_entry(u).0 == local,
{
    lemma_localpart(u.user_id@, local, server);
}

/// A conversation is opened in the first direct room with the user; where one is
/// found, it is direct and the user is in it, and one is found where there is any.
pub proof fn law_conversations_are_reused(rooms: Seq<DirectRoom>, i: int)
    requires
        0 <= i <= rooms.len(),
    ensures
        i <= direct_position(rooms, i) <= rooms.len(),
        direct_position(rooms, i) < rooms.len() ==> rooms[direct_position(rooms, i)].is_direct
            && rooms[direct_position(rooms, i)].has_user,
        forall|j: int|
            i <= j < direct_position(rooms, i) ==> !((#[trigger] rooms[j]).is_direct
                && rooms[j].has_user),
    decreases rooms.len() - i,
{
    if i < rooms.len() && !(rooms[i].is_direct && rooms[i].has_user) {
        law_conversations_are_reused(rooms, i + 1);
    }
}

/// The reaction that is taken back is a reaction with this emoji to this message,
/// the first of them; where there is one, one is taken back.
pub proof fn law_own_reaction_is_taken_back(
    raws: Seq<String>,
    event_id: Seq<char>,
    emoji: Seq<char>,
    i: int,
)
    requires
        0 <= i < raws.len(),
        json_string(raws[i]@, "/content/m.relates_to/event_id"@) == Some(event_id),
        json_string(raws[i]@, "/content/m.relates_to/key"@) == Some(emoji),
        json_string(raws[i]@, "/event_id"@) is Some,
        valid_event_id(json_string(raws[i]@, "/event_id"@)->0),
        forall|j: int|
            0 <= j < i ==> json_string((#[trigger] raws[j])@, "/content/m.relates_to/key"@) != Some(
                emoji,
            ) || json_string(raws[j]@, "/content/m.relates_to/event_id"@) != Some(event_id),
    ensures
        first_reaction(raws, event_id, emoji, 0) == json_string(raws[i]@, "/event_id"@),
{
    lemma_first_reaction(raws, event_id, emoji, 0, i);
}

proof fn lemma_first_reaction(
    raws: Seq<String>,
    event_id: Seq<char>,
    emoji: Seq<char>,
    from: int,
    i: int,
)
    requires
        0 <= from <= i < raws.len(),
        reaction_on(raws[i]@, event_id, emoji) is Some,
        forall|j: int|
            from <= j < i ==> reaction_on((#[trigger] raws[j])@, event_id, emoji) is None,
    ensures
        first_reaction(raws, event_id, emoji, from) == reaction_on(raws[i]@, event_id, emoji),
    decreases i - from,
{
    if from < i {
        assert(reaction_on(raws[from]@, event_id, emoji) is None);
        lemma_first_reaction(raws, event_id, emoji, from + 1, i);
    }
}

/// No reaction is taken back that has another emoji or belongs to another message.
pub proof fn law_other_reactions_stay(raws: Seq<String>, event_id: Seq<char>, emoji: Seq<char>, i: int)
    requires
        0 <= i,
        forall|j: int|
            0 <= j < raws.len() ==> json_string(
                (#[trigger] raws[j])@,
                "/content/m.relates_to/key"@,
            ) != Some(emoji) || json_string(raws[j]@, "/content/m.relates_to/event_id"@) != Some(
                event_id,
            ),
    ensures
        first_reaction(raws, event_id, emoji, i) is None,
    decreases raws.len() - i,
{
    if i < raws.len() {
        assert(reaction_on(raws[i]@, event_id, emoji) is None);
        law_other_reactions_stay(raws, event_id, emoji, i + 1);
    }
}

/// A read receipt goes to the latest event that was delivered; where none was, to the
/// last one in memory, if that has a valid id; and to none in what is no room.
pub proof fn law_receipts_go_to_the_latest_event(
    room_id: &str,
    latest: Option<String>,
    cached: Option<String>,
    target: Option<String>,
)
    requires
        call_ensures(receipt_target, (room_id, latest, cached), target),
    ensures
        valid_room_id(room_id@) && latest is Some ==> target is Some && target->0@ == latest->0@,
        valid_room_id(room_id@) && latest is None && cached is Some && valid_event_id(cached->0@)
            ==> target is Some && target->0@ == cached->0@,
        latest is None && cached is None ==> target is None,
        !valid_room_id(room_id@) ==> target is None,
{
}

/// A message goes out with its text, its markup, the users that it mentions and the
/// message that it answers.
pub proof fn law_messages_go_out_whole(
    room_id: &str,
    body: &str,
    html: &str,
    reply_to: &str,
    is_emote: bool,
    mentions: &Vec<String>,
    sent: Option<OutgoingMessage>,
)
    requires
        call_ensures(
            compose_message,
            (room_id, body, Some(html), Some(reply_to), is_emote, mentions),
            sent,
        ),
    ensures
        sent is Some <==> valid_room_id(room_id@),
        sent is Some ==> {
            let m = sent->0;
            &&& m.body@ == body@
            &&& m.html is Some && m.html->0@ == html@
            &&& m.is_emote == is_emote
            &&& valid_event_id(reply_to@) ==> m.reply_to is Some && m.reply_to->0@ == reply_to@
            &&& !valid_event_id(reply_to@) ==> m.reply_to is None
            &&& forall|u: Seq<char>| #[trigger]
                views(m.mentions@).contains(u) <==> views(mentions@).contains(u) && valid_user_id(u)
        },
{
    if sent is Some {
        assert forall|u: Seq<char>| #[trigger]
            views((sent->0).mentions@).contains(u) <==> views(mentions@).contains(u) && valid_user_id(
                u,
            ) by {
            law_only_names_are_kept(views(mentions@), u);
        }
    }
}

/// A room that was joined goes by its name, or else by what was asked for; a failure
/// is told as it came.
pub proof fn law_joined_rooms_are_named(asked: &str, outcome: JoinResult, event: MatrixEvent)
    requires
        call_ensures(finish_join, (asked, outcome), event),
    ensures
        outcome is Ok ==> event is RoomJoined && event->RoomJoined_room_id == (outcome->Ok_0).0,
        outcome is Ok && (outcome->Ok_0).1 is Some ==> event->RoomJoined_room_name@ == (
        outcome->Ok_0).1->0@,
        outcome is Ok && (outcome->Ok_0).1 is None ==> event->RoomJoined_room_name@ == asked@,
        outcome is Err ==> event == (MatrixEvent::JoinFailed { error: outcome->Err_0 }),
{
}

/// An alias is joined over the first three servers that are known to be in its room.
pub proof fn law_aliases_are_joined_over_three_servers(
    resolved: Vec<String>,
    hints: &Vec<String>,
    servers: Vec<String>,
)
    requires
        call_ensures(alias_servers, (Some(resolved), hints), servers),
    ensures
        resolved@.len() <= 3 ==> servers@ == resolved@,
        resolved@.len() > 3 ==> servers@ == resolved@.take(3),
{
    if resolved@.len() <= 3 {
        assert(resolved@.take(resolved@.len() as int) == resolved@);
    }
}

} // verus!
