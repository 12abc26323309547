//! Room directories: what is asked of a server, and what of its answer is listed.

use vstd::prelude::*;
use crate::json::text_of;
use crate::matrix::event::MatrixEvent;
use crate::matrix::ids::{is_room_id, is_server_name, server_part, server_part_of, valid_room_id, valid_server_name};
use crate::matrix::info::{clone_option, own_option, SpaceDirectoryRoom};
use crate::text::{chars_of, find_char, find_char_from, has_text, lemma_find_char, push_str, same, string_of, views};

verus! {

/// How many rooms one request asks for.
pub const DIRECTORY_LIMIT: u32 = 50;

/// A request for a room directory.
#[derive(Debug)]
pub struct DirectoryQuery {
    /// The term to search for, if any.
    pub search: Option<String>,
    pub spaces_only: bool,
    /// The server whose directory is asked for; the user's own if there is none.
    pub server: Option<String>,
    pub limit: u32,
}

/// An optional text.
pub open spec fn given(s: Option<&str>) -> Option<Seq<char>> {
    match s {
        Some(t) => Some(t@),
        None => None,
    }
}

/// Builds a request for a room directory. Empty terms and texts that are no
/// server names are left out.
pub fn directory_query(search_term: Option<&str>, spaces_only: bool, server: Option<&str>) -> (r:
    DirectoryQuery)
    ensures
        text_of(r.search) == (match search_term {
            Some(t) => if t@.len() > 0 {
                Some(t@)
            } else {
                None
            },
            None => None,
        }),
        r.spaces_only == spaces_only,
        text_of(r.server) == (match server {
            Some(s) => if s@.len() > 0 && valid_server_name(s@) {
                Some(s@)
            } else {
                None
            },
            None => None,
        }),
        r.limit == DIRECTORY_LIMIT,
{
    let search: Option<String> = match search_term {
        Some(t) => if t.is_empty() {
            None
        } else {
            Some(t.to_owned())
        },
        None => None,
    };
    let from: Option<String> = match server {
        Some(s) => if !s.is_empty() && is_server_name(s) {
            Some(s.to_owned())
        } else {
            None
        },
        None => None,
    };
    DirectoryQuery { search, spaces_only, server: from, limit: DIRECTORY_LIMIT }
}

/// A room as a server lists it.
#[derive(Debug)]
pub struct ListedRoom {
    pub room_id: String,
    pub canonical_alias: Option<String>,
    pub name: Option<String>,
    pub topic: Option<String>,
    pub member_count: u64,
}

/// A listed room as text.
pub struct EntryView {
    pub room_id: Seq<char>,
    pub canonical_alias: Option<Seq<char>>,
    pub name: Seq<char>,
    pub topic: Seq<char>,
    pub member_count: u64,
    pub already_joined: bool,
    pub via_server: Option<Seq<char>>,
}

/// What a directory entry shows.
pub open spec fn entry_of(r: SpaceDirectoryRoom) -> EntryView {
    EntryView {
        room_id: r.room_id@,
        canonical_alias: text_of(r.canonical_alias),
        name: r.name@,
        topic: r.topic@,
        member_count: r.member_count,
        already_joined: r.already_joined,
        via_server: text_of(r.via_server),
    }
}

/// A room id with its server: some servers leave it out.
pub open spec fn repaired_id(id: Seq<char>, server: Option<Seq<char>>) -> Seq<char> {
    if find_char(id, ':', 0) >= id.len() && server is Some {
        id + ":"@ + server->0
    } else {
        id
    }
}

/// The server in the room id, or else the one in the alias.
pub open spec fn own_server(id: Seq<char>, alias: Option<Seq<char>>) -> Option<Seq<char>> {
    if server_part(id) is Some {
        server_part(id)
    } else if alias is Some {
        server_part(alias->0)
    } else {
        None
    }
}

/// The directory entry of a listed room. `fallback` is the server that stands in
/// where neither the id nor the alias names one.
pub open spec fn listed_entry(
    r: ListedRoom,
    server: Option<Seq<char>>,
    fallback: Option<Seq<char>>,
    joined: Seq<Seq<char>>,
) -> EntryView {
    let id = repaired_id(r.room_id@, server);
    let alias = text_of(r.canonical_alias);
    EntryView {
        room_id: id,
        canonical_alias: alias,
        name: if r.name is Some {
            r.name->0@
        } else if alias is Some {
            alias->0
        } else {
            r.room_id@
        },
        topic: if r.topic is Some {
            r.topic->0@
        } else {
            Seq::empty()
        },
        member_count: r.member_count,
        already_joined: joined.contains(id),
        via_server: if own_server(id, alias) is Some {
            own_server(id, alias)
        } else {
            fallback
        },
    }
}

fn list_entry(
    room: &ListedRoom,
    server: Option<&str>,
    fallback: Option<&str>,
    joined: &Vec<String>,
) -> (r: SpaceDirectoryRoom)
    ensures
        entry_of(r) == listed_entry(*room, given(server), given(fallback), views(joined@)),
{
    let v = chars_of(&room.room_id);
    let room_id: String = if find_char_from(&v, ':', 0) < v.len() {
        room.room_id.clone()
    } else {
        match server {
            Some(s) => {
                let mut out = v;
                push_str(&mut out, ":");
                push_str(&mut out, s);
                string_of(&out)
            },
            None => room.room_id.clone(),
        }
    };
    let mut via_server: Option<String> = server_part_of(&room_id);
    if via_server.is_none() {
        if let Some(a) = &room.canonical_alias {
            via_server = server_part_of(a);
        }
    }
    if via_server.is_none() {
        via_server = own_option(fallback);
    }
    let name: String = match &room.name {
        Some(n) => n.clone(),
        None => match &room.canonical_alias {
            Some(a) => a.clone(),
            None => room.room_id.clone(),
        },
    };
    let topic: String = match &room.topic {
        Some(t) => t.clone(),
        None => String::new(),
    };
    let already_joined: bool = has_text(joined, &room_id);
    SpaceDirectoryRoom {
        already_joined,
        room_id,
        name,
        canonical_alias: clone_option(&room.canonical_alias),
        topic,
        member_count: room.member_count,
        via_server,
    }
}

/// The entries of a public directory. A room without a server in its id or alias
/// is joined over the server that listed it.
pub fn public_rooms(listed: &Vec<ListedRoom>, server: Option<&str>, joined: &Vec<String>) -> (r:
    Vec<SpaceDirectoryRoom>)
    ensures
        r@.map_values(|e: SpaceDirectoryRoom| entry_of(e)) == listed@.map_values(
            |l: ListedRoom| listed_entry(l, given(server), given(server), views(joined@)),
        ),
{
    let mut out: Vec<SpaceDirectoryRoom> = Vec::new();
    let mut i: usize = 0;
    while i < listed.len()
        invariant
            i <= listed@.len(),
            out@.len() == i,
            forall|j: int|
                0 <= j < i ==> entry_of(#[trigger] out@[j]) == listed_entry(
                    listed@[j],
                    given(server),
                    given(server),
                    views(joined@),
                ),
        decreases listed@.len() - i,
    {
        out.push(list_entry(&listed[i], server, server, joined));
        i = i + 1;
    }
    assert(out@.map_values(|e: SpaceDirectoryRoom| entry_of(e)) =~= listed@.map_values(
        |l: ListedRoom| listed_entry(l, given(server), given(server), views(joined@)),
    ));
    out
}

/// What is reported about a public directory: rooms, or the spaces of a server.
pub fn public_rooms_event(
    spaces_only: bool,
    server: Option<&str>,
    rooms: Vec<SpaceDirectoryRoom>,
) -> (r: MatrixEvent)
    ensures
        spaces_only ==> (r matches MatrixEvent::PublicSpacesForServer { server: s, rooms: l } && s@
            == (match server {
            Some(t) => t@,
            None => ""@,
        }) && l == rooms),
        !spaces_only ==> (r matches MatrixEvent::PublicRoomDirectory { title, rooms: l } && title@
            == "Browse Public Rooms"@ && l == rooms),
{
    if spaces_only {
        let name: String = match server {
            Some(t) => t.to_owned(),
            None => "".to_owned(),
        };
        MatrixEvent::PublicSpacesForServer { server: name, rooms }
    } else {
        MatrixEvent::PublicRoomDirectory { title: "Browse Public Rooms".to_owned(), rooms }
    }
}

/// The entries of a space among the first `n` rooms of its hierarchy: all but the
/// space itself.
pub open spec fn space_entries(
    listed: Seq<ListedRoom>,
    space: Seq<char>,
    server: Option<Seq<char>>,
    joined: Seq<Seq<char>>,
    n: int,
) -> Seq<EntryView>
    decreases n,
{
    if n <= 0 {
        Seq::empty()
    } else {
        let rest = space_entries(listed, space, server, joined, n - 1);
        if listed[n - 1].room_id@ == space {
            rest
        } else {
            rest.push(listed_entry(listed[n - 1], server, None, joined))
        }
    }
}

/// The server of a room id, if what follows the colon is a server name.
pub open spec fn room_server(id: Seq<char>) -> Option<Seq<char>> {
    match server_part(id) {
        Some(s) => if valid_server_name(s) {
            Some(s)
        } else {
            None
        },
        None => None,
    }
}

/// The entries of a space. None when the id of the space is not valid.
pub fn space_rooms(listed: &Vec<ListedRoom>, space_id: &str, joined: &Vec<String>) -> (r: Option<
    Vec<SpaceDirectoryRoom>,
>)
    ensures
        r is Some <==> valid_room_id(space_id@),
        r matches Some(rooms) ==> rooms@.map_values(|e: SpaceDirectoryRoom| entry_of(e))
            == space_entries(
            listed@,
            space_id@,
            room_server(space_id@),
            views(joined@),
            listed@.len() as int,
        ),
{
    if !is_room_id(space_id) {
        return None;
    }
    let server: Option<String> = match server_part_of(space_id) {
        Some(s) => if is_server_name(&s) {
            Some(s)
        } else {
            None
        },
        None => None,
    };
    let hint: Option<&str> = match &server {
        Some(s) => Some(s.as_str()),
        None => None,
    };
    let mut out: Vec<SpaceDirectoryRoom> = Vec::new();
    let mut i: usize = 0;
    assert(out@.map_values(|e: SpaceDirectoryRoom| entry_of(e)) =~= Seq::<EntryView>::empty());
    while i < listed.len()
        invariant
            i <= listed@.len(),
            given(hint) == room_server(space_id@),
            out@.map_values(|e: SpaceDirectoryRoom| entry_of(e)) == space_entries(
                listed@,
                space_id@,
                room_server(space_id@),
                views(joined@),
                i as int,
            ),
        decreases listed@.len() - i,
    {
        let ghost before = out@.map_values(|e: SpaceDirectoryRoom| entry_of(e));
        if !same(&listed[i].room_id, space_id) {
            let entry = list_entry(&listed[i], hint, None, joined);
            out.push(entry);
            assert(out@.map_values(|e: SpaceDirectoryRoom| entry_of(e)) =~= before.push(
                entry_of(entry),
            ));
        }
        i = i + 1;
    }
    Some(out)
}

/// A room of a public directory can always be reached when the server that lists
/// it is known: its entry names a server.
pub proof fn law_listed_rooms_have_a_server(
    r: ListedRoom,
    server: Seq<char>,
    joined: Seq<Seq<char>>,
)
    ensures
        listed_entry(r, Some(server), Some(server), joined).via_server is Some,
        find_char(r.room_id@, ':', 0) < r.room_id@.len() ==> listed_entry(
            r,
            Some(server),
            Some(server),
            joined,
        ).room_id == r.room_id@,
{
}

/// A listed room goes by its name, or else by its alias, or else by its id; it
/// keeps its alias, its topic and the number of its members.
pub proof fn law_listed_rooms_are_described(
    r: ListedRoom,
    server: Option<Seq<char>>,
    fallback: Option<Seq<char>>,
    joined: Seq<Seq<char>>,
)
    ensures
        ({
            let e = listed_entry(r, server, fallback, joined);
            &&& r.name is Some ==> e.name == r.name->0@
            &&& r.name is None && r.canonical_alias is Some ==> e.name == r.canonical_alias->0@
            &&& r.name is None && r.canonical_alias is None ==> e.name == r.room_id@
            &&& e.canonical_alias == text_of(r.canonical_alias)
            &&& e.topic == (match r.topic {
                Some(t) => t@,
                None => ""@,
            })
            &&& e.member_count == r.member_count
            &&& e.already_joined <==> joined.contains(e.room_id)
        }),
{
    reveal_strlit("");
    assert(""@ == Seq::<char>::empty());
}

/// A room id that comes with its server stays as it is, and the room is joined
/// over that server. One that comes without gets the server that lists it.
pub proof fn law_listed_rooms_are_reached(
    r: ListedRoom,
    local: Seq<char>,
    host: Seq<char>,
    server: Seq<char>,
    fallback: Option<Seq<char>>,
    joined: Seq<Seq<char>>,
)
    requires
        !local.contains(':'),
    ensures
        r.room_id@ == local + seq![':'] + host ==> ({
            let e = listed_entry(r, Some(server), fallback, joined);
            e.room_id == r.room_id@ && e.via_server == Some(host)
        }),
        r.room_id@ == local ==> ({
            let e = listed_entry(r, Some(server), fallback, joined);
            e.room_id == local + seq![':'] + server && e.via_server == Some(server)
        }),
{
    reveal_strlit(":");
    assert(":"@ == seq![':']);
    let whole = local + seq![':'] + host;
    let repaired = local + seq![':'] + server;
    lemma_find_char(local, ':', 0);
    lemma_find_char(whole, ':', 0);
    lemma_find_char(repaired, ':', 0);
    assert(forall|i: int| 0 <= i < local.len() ==> whole[i] == local[i] && repaired[i] == local[i]);
    assert(whole[local.len() as int] == ':' && repaired[local.len() as int] == ':');
    assert(find_char(whole, ':', 0) == local.len()) by {
        let p = find_char(whole, ':', 0);
        if p < local.len() {
            assert(local[p] == ':');
            assert(local.contains(':'));
        }
    }
    assert(find_char(repaired, ':', 0) == local.len()) by {
        let p = find_char(repaired, ':', 0);
        if p < local.len() {
            assert(local[p] == ':');
            assert(local.contains(':'));
        }
    }
    assert(find_char(local, ':', 0) >= local.len()) by {
        let p = find_char(local, ':', 0);
        if p < local.len() {
            assert(local.contains(':'));
        }
    }
    assert(whole.skip(local.len() as int + 1) == host);
    assert(repaired.skip(local.len() as int + 1) == server);
}

/// A space lists every room of its hierarchy but itself, and nothing else.
pub proof fn law_space_lists_its_rooms(
    listed: Seq<ListedRoom>,
    space: Seq<char>,
    server: Option<Seq<char>>,
    joined: Seq<Seq<char>>,
    n: int,
    i: int,
)
    requires
        0 <= i < n <= listed.len(),
    ensures
        listed[i].room_id@ != space ==> space_entries(listed, space, server, joined, n).contains(
            listed_entry(listed[i], server, None, joined),
        ),
        (forall|k: int| 0 <= k < n ==> (#[trigger] listed[k]).room_id@ != space) ==> space_entries(
            listed,
            space,
            server,
            joined,
            n,
        ).len() == n,
        (forall|k: int| 0 <= k < n ==> (#[trigger] listed[k]).room_id@ == space) ==> space_entries(
            listed,
            space,
            server,
            joined,
            n,
        ).len() == 0,
    decreases n,
{
    let rest = space_entries(listed, space, server, joined, n - 1);
    let all = space_entries(listed, space, server, joined, n);
    if n - 1 > 0 {
        law_space_lists_its_rooms(listed, space, server, joined, n - 1, if i < n - 1 {
            i
        } else {
            0
        });
    }
    assert(listed[n - 1].room_id@ == listed[n - 1].room_id@);
    if listed[i].room_id@ != space {
        let e = listed_entry(listed[i], server, None, joined);
        if i < n - 1 {
            let k = choose|k: int| 0 <= k < rest.len() && rest[k] == e;
            assert(all[k] == e);
        } else {
            assert(all[rest.len() as int] == e);
        }
    }
}

/// A directory is asked for a term that was typed, on a server that is named
/// properly, and for fifty rooms.
pub proof fn law_directory_is_asked_for_the_term(
    term: &str,
    spaces_only: bool,
    server: &str,
    query: DirectoryQuery,
)
    requires
        call_ensures(directory_query, (Some(term), spaces_only, Some(server)), query),
    ensures
        term@.len() > 0 ==> query.search is Some && query.search->0@ == term@,
        term@.len() == 0 ==> query.search is None,
        query.spaces_only == spaces_only,
        server@.len() > 0 && valid_server_name(server@) ==> query.server is Some
            && query.server->0@ == server@,
        !valid_server_name(server@) ==> query.server is None,
        query.limit == 50,
{
}

} // verus!
