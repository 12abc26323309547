//! Lookup of users, rooms and servers by their Matrix identifiers.
//!
//! Widgets turn identifiers into readable names through one shared
//! [`Directory`]; whoever owns it guards it with a lock where several threads
//! read it.

use vstd::prelude::*;
use crate::order::descending_order;
use crate::json::text_of;
use crate::table::Table;
use crate::text::{chars_of, find_char_from, same, string_of_range, trimmed_start_char};

verus! {

/// Information kept about a Matrix user.
#[derive(Debug)]
pub struct UserInfo {
    /// Display name as last seen in any room shared with the user.
    /// Empty means "unknown: fall back to the user id".
    pub display_name: String,
    /// mxc:// URL of the user's avatar, or empty.
    pub avatar_mxc: String,
}

/// Information kept about a Matrix room.
#[derive(Debug)]
pub struct RoomInfo {
    /// Display name shown in the room list.
    pub name: String,
    /// Canonical alias (`#name:server`), or empty.
    pub canonical_alias: String,
    /// Whether this room is a space.
    pub is_space: bool,
}

/// A user's record as text.
pub struct UserView {
    pub display_name: Seq<char>,
    pub avatar_mxc: Seq<char>,
}

/// A room's record as text.
pub struct RoomView {
    pub name: Seq<char>,
    pub canonical_alias: Seq<char>,
    pub is_space: bool,
}

impl View for UserInfo {
    type V = UserView;

    open spec fn view(&self) -> UserView {
        UserView { display_name: self.display_name@, avatar_mxc: self.avatar_mxc@ }
    }
}

impl View for RoomInfo {
    type V = RoomView;

    open spec fn view(&self) -> RoomView {
        RoomView {
            name: self.name@,
            canonical_alias: self.canonical_alias@,
            is_space: self.is_space,
        }
    }
}

impl Clone for UserInfo {
    fn clone(&self) -> (r: Self)
        ensures
            r == *self,
    {
        UserInfo { display_name: self.display_name.clone(), avatar_mxc: self.avatar_mxc.clone() }
    }
}

impl Clone for RoomInfo {
    fn clone(&self) -> (r: Self)
        ensures
            r == *self,
    {
        RoomInfo {
            name: self.name.clone(),
            canonical_alias: self.canonical_alias.clone(),
            is_space: self.is_space,
        }
    }
}

impl Default for UserInfo {
    fn default() -> (r: Self)
        ensures
            r@ == blank_user(),
    {
        UserInfo { display_name: String::new(), avatar_mxc: String::new() }
    }
}

impl Default for RoomInfo {
    fn default() -> (r: Self)
        ensures
            r@ == blank_room(),
    {
        RoomInfo { name: String::new(), canonical_alias: String::new(), is_space: false }
    }
}

/// The record of a user of whom nothing is known.
pub open spec fn blank_user() -> UserView {
    UserView { display_name: Seq::empty(), avatar_mxc: Seq::empty() }
}

/// The record of a room of which nothing is known.
pub open spec fn blank_room() -> RoomView {
    RoomView { name: Seq::empty(), canonical_alias: Seq::empty(), is_space: false }
}

/// What is known about users, rooms and servers.
pub struct Directory {
    users: Table<UserInfo>,
    rooms: Table<RoomInfo>,
    /// Hostname to the tick at which the server was last observed.
    servers: Table<u64>,
    server_tick: u64,
}

/// The position of the first room from `from` on whose alias is `alias`, or
/// the length.
pub open spec fn alias_position(
    rooms: Seq<(Seq<char>, RoomInfo)>,
    alias: Seq<char>,
    from: int,
) -> int
    decreases rooms.len() - from,
{
    if from < 0 || from >= rooms.len() {
        rooms.len() as int
    } else if rooms[from].1.canonical_alias@ == alias {
        from
    } else {
        alias_position(rooms, alias, from + 1)
    }
}

proof fn lemma_alias_position(
    a: Seq<(Seq<char>, RoomInfo)>,
    b: Seq<(Seq<char>, RoomInfo)>,
    alias: Seq<char>,
    from: int,
)
    requires
        0 <= from <= b.len(),
        a.len() <= b.len(),
        forall|i: int|
            0 <= i < a.len() ==> ((#[trigger] b[i]).1.canonical_alias@ == alias <==> a[i].1.canonical_alias@
                == alias),
        forall|i: int| a.len() <= i < b.len() ==> (#[trigger] b[i]).1.canonical_alias@ != alias,
    ensures
        alias_position(b, alias, from) == (if from < a.len() && alias_position(a, alias, from)
            < a.len() {
            alias_position(a, alias, from)
        } else {
            b.len() as int
        }),
    decreases b.len() - from,
{
    if from < b.len() {
        assert(from < a.len() ==> (b[from].1.canonical_alias@ == alias <==> a[from].1.canonical_alias@
            == alias));
        assert(alias_position(a, alias, a.len() as int) == a.len());
        lemma_alias_position(a, b, alias, from + 1);
    }
}

proof fn lemma_alias_inside(a: Seq<(Seq<char>, RoomInfo)>, alias: Seq<char>, from: int)
    requires
        0 <= from <= a.len(),
    ensures
        from <= alias_position(a, alias, from) <= a.len(),
    decreases a.len() - from,
{
    if from < a.len() {
        lemma_alias_inside(a, alias, from + 1);
    }
}

/// Where a room is recorded, an alias that it neither had nor gets leads where it
/// led before.
proof fn lemma_owner_stays(
    a: Seq<(Seq<char>, RoomInfo)>,
    room_id: Seq<char>,
    entry: RoomInfo,
    alias: Seq<char>,
)
    requires
        alias.len() > 0,
        ({
            let p = crate::table::entry_position(a, room_id, 0);
            if p < a.len() {
                entry.canonical_alias@ == alias <==> a[p].1.canonical_alias@ == alias
            } else {
                entry.canonical_alias@ != alias
            }
        }),
    ensures
        ({
            let b = crate::table::entries_insert(a, room_id, entry);
            let p = alias_position(a, alias, 0);
            let q = alias_position(b, alias, 0);
            &&& 0 <= p <= a.len()
            &&& 0 <= q <= b.len()
            &&& (q < b.len() <==> p < a.len())
            &&& q < b.len() ==> q == p && b[q].0 == a[p].0
        }),
{
    let b = crate::table::entries_insert(a, room_id, entry);
    crate::table::lemma_entry_position(a, room_id, 0);
    lemma_alias_position(a, b, alias, 0);
    lemma_alias_inside(a, alias, 0);
    lemma_alias_inside(b, alias, 0);
}

impl Directory {
    /// The users by user id.
    pub closed spec fn users(&self) -> Map<Seq<char>, UserView> {
        self.users.map().map_values(|u: UserInfo| u@)
    }

    /// The rooms by room id.
    pub closed spec fn rooms(&self) -> Map<Seq<char>, RoomView> {
        self.rooms.map().map_values(|r: RoomInfo| r@)
    }

    /// The servers by hostname, each with the tick of its last observation.
    pub closed spec fn servers(&self) -> Map<Seq<char>, u64> {
        self.servers.map()
    }

    /// The tick of the latest server observation.
    pub closed spec fn tick(&self) -> u64 {
        self.server_tick
    }

    /// No server was observed after the latest tick, and no two at one tick.
    spec fn ticked(servers: Table<u64>, tick: u64) -> bool {
        &&& forall|k: Seq<char>| #[trigger] servers.map().contains_key(k) ==> servers.map()[k] <= tick
        &&& forall|k: Seq<char>, l: Seq<char>|
            #![trigger servers.map().contains_key(k), servers.map().contains_key(l)]
            servers.map().contains_key(k) && servers.map().contains_key(l) && k != l
                ==> servers.map()[k] != servers.map()[l]
    }

    #[verifier::type_invariant]
    spec fn inv(self) -> bool {
        Self::ticked(self.servers, self.server_tick)
    }

    /// The room that `alias` leads to: of the rooms with this canonical alias,
    /// the one that was recorded first.
    pub closed spec fn alias_owner(&self, alias: Seq<char>) -> Option<Seq<char>> {
        let rooms = self.rooms.entries();
        let p = alias_position(rooms, alias, 0);
        if alias.len() > 0 && 0 <= p < rooms.len() {
            Some(rooms[p].0)
        } else {
            None
        }
    }

    /// The display name of a room, if one is known.
    pub open spec fn name_of(&self, room_id: Seq<char>) -> Option<Seq<char>> {
        if self.rooms().contains_key(room_id) && self.rooms()[room_id].name.len() > 0 {
            Some(self.rooms()[room_id].name)
        } else {
            None
        }
    }

    pub fn new() -> (r: Self)
        ensures
            r.users() == Map::<Seq<char>, UserView>::empty(),
            r.rooms() == Map::<Seq<char>, RoomView>::empty(),
            r.servers() == Map::<Seq<char>, u64>::empty(),
            r.tick() == 0,
            forall|alias: Seq<char>| (#[trigger] r.alias_owner(alias)) is None,
    {
        let r = Directory {
            users: Table::new(),
            rooms: Table::new(),
            servers: Table::new(),
            server_tick: 0,
        };
        assert(r.users() =~= Map::<Seq<char>, UserView>::empty());
        assert(r.rooms() =~= Map::<Seq<char>, RoomView>::empty());
        r
    }
}

// ---- users --------------------------------------------------------------------

/// The record of a user, if there is one.
pub fn user(dir: &Directory, user_id: &str) -> (r: Option<UserInfo>)
    ensures
        match r {
            Some(u) => dir.users().contains_key(user_id@) && dir.users()[user_id@] == u@,
            None => !dir.users().contains_key(user_id@),
        },
{
    match dir.users.get(user_id) {
        Some(u) => Some(u.clone()),
        None => None,
    }
}

/// The part of a user id between the leading `@`s and the first `:` after
/// them.
pub open spec fn localpart(user_id: Seq<char>) -> Seq<char> {
    let bare = crate::text::trim_start_char(user_id, '@');
    bare.subrange(0, crate::text::find_char(bare, ':', 0))
}

/// The name under which a user is shown.
pub open spec fn shown_name(users: Map<Seq<char>, UserView>, user_id: Seq<char>) -> Seq<char> {
    if user_id.len() == 0 {
        Seq::empty()
    } else if users.contains_key(user_id) && users[user_id].display_name.len() > 0 {
        users[user_id].display_name
    } else {
        localpart(user_id)
    }
}

/// The display name of a user, with the localpart of the user id as fallback.
/// An empty user id has an empty name.
pub fn user_display_name(dir: &Directory, user_id: &str) -> (r: String)
    ensures
        r@ == shown_name(dir.users(), user_id@),
{
    if user_id.is_empty() {
        return String::new();
    }
    if let Some(info) = user(dir, user_id) {
        if !info.display_name.as_str().is_empty() {
            return info.display_name;
        }
    }
    localpart_of(user_id)
}

/// The localpart of a user id.
pub fn localpart_of(user_id: &str) -> (r: String)
    ensures
        r@ == localpart(user_id@),
{
    let v = chars_of(user_id);
    let bare = trimmed_start_char(&v, '@');
    let colon: usize = find_char_from(&bare, ':', 0);
    string_of_range(&bare, 0, colon)
}

/// Records a user's display name. An empty name is dropped, so that an
/// unresolved member does not shadow a name that is already known.
pub fn set_user_display_name(dir: &mut Directory, user_id: &str, name: &str)
    ensures
        final(dir).users() == (if user_id@.len() == 0 || name@.len() == 0 {
            old(dir).users()
        } else {
            old(dir).users().insert(
                user_id@,
                UserView {
                    display_name: name@,
                    ..(if old(dir).users().contains_key(user_id@) {
                        old(dir).users()[user_id@]
                    } else {
                        blank_user()
                    })
                },
            )
        }),
        final(dir).rooms() == old(dir).rooms(),
        final(dir).servers() == old(dir).servers(),
        final(dir).tick() == old(dir).tick(),
        forall|a: Seq<char>| final(dir).alias_owner(a) == old(dir).alias_owner(a),
{
    if user_id.is_empty() || name.is_empty() {
        return;
    }
    let mut entry = match user(dir, user_id) {
        Some(u) => u,
        None => UserInfo::default(),
    };
    entry.display_name = name.to_owned();
    proof {
        use_type_invariant(&*dir);
    }
    let mut users = Table::new();
    std::mem::swap(&mut dir.users, &mut users);
    users.insert(user_id.to_owned(), entry);
    dir.users = users;
    assert(dir.users() =~= old(dir).users().insert(user_id@, entry@));
}

/// Records the mxc:// URL of a user's avatar. An empty URL is dropped.
pub fn set_user_avatar_mxc(dir: &mut Directory, user_id: &str, mxc: &str)
    ensures
        final(dir).users() == (if user_id@.len() == 0 || mxc@.len() == 0 {
            old(dir).users()
        } else {
            old(dir).users().insert(
                user_id@,
                UserView {
                    avatar_mxc: mxc@,
                    ..(if old(dir).users().contains_key(user_id@) {
                        old(dir).users()[user_id@]
                    } else {
                        blank_user()
                    })
                },
            )
        }),
        final(dir).rooms() == old(dir).rooms(),
        final(dir).servers() == old(dir).servers(),
        final(dir).tick() == old(dir).tick(),
        forall|a: Seq<char>| final(dir).alias_owner(a) == old(dir).alias_owner(a),
{
    if user_id.is_empty() || mxc.is_empty() {
        return;
    }
    let mut entry = match user(dir, user_id) {
        Some(u) => u,
        None => UserInfo::default(),
    };
    entry.avatar_mxc = mxc.to_owned();
    proof {
        use_type_invariant(&*dir);
    }
    let mut users = Table::new();
    std::mem::swap(&mut dir.users, &mut users);
    users.insert(user_id.to_owned(), entry);
    dir.users = users;
    assert(dir.users() =~= old(dir).users().insert(user_id@, entry@));
}

// ---- rooms --------------------------------------------------------------------

/// The record of a room, if there is one.
pub fn room(dir: &Directory, room_id: &str) -> (r: Option<RoomInfo>)
    ensures
        match r {
            Some(i) => dir.rooms().contains_key(room_id@) && dir.rooms()[room_id@] == i@,
            None => !dir.rooms().contains_key(room_id@),
        },
{
    match dir.rooms.get(room_id) {
        Some(i) => Some(i.clone()),
        None => None,
    }
}

/// The display name of a room, if a non-empty one is known.
pub fn room_name(dir: &Directory, room_id: &str) -> (r: Option<String>)
    ensures
        match r {
            Some(n) => dir.name_of(room_id@) == Some(n@),
            None => dir.name_of(room_id@) is None,
        },
{
    match room(dir, room_id) {
        Some(info) => if info.name.as_str().is_empty() {
            None
        } else {
            Some(info.name)
        },
        None => None,
    }
}

/// Records the display name of a room; an empty id or name is dropped.
pub fn set_room_name(dir: &mut Directory, room_id: &str, name: &str)
    ensures
        final(dir).rooms() == (if room_id@.len() == 0 || name@.len() == 0 {
            old(dir).rooms()
        } else {
            old(dir).rooms().insert(
                room_id@,
                RoomView {
                    name: name@,
                    ..(if old(dir).rooms().contains_key(room_id@) {
                        old(dir).rooms()[room_id@]
                    } else {
                        blank_room()
                    })
                },
            )
        }),
        final(dir).users() == old(dir).users(),
        final(dir).servers() == old(dir).servers(),
        final(dir).tick() == old(dir).tick(),
        forall|a: Seq<char>| final(dir).alias_owner(a) == old(dir).alias_owner(a),
{
    if room_id.is_empty() || name.is_empty() {
        return;
    }
    let mut entry = match room(dir, room_id) {
        Some(i) => i,
        None => RoomInfo::default(),
    };
    entry.name = name.to_owned();
    proof {
        use_type_invariant(&*dir);
    }
    let mut rooms = Table::new();
    std::mem::swap(&mut dir.rooms, &mut rooms);
    let ghost before = rooms.entries();
    rooms.insert(room_id.to_owned(), entry);
    dir.rooms = rooms;
    assert(dir.rooms() =~= old(dir).rooms().insert(room_id@, entry@));
    proof {
        crate::table::lemma_entry_position(before, room_id@, 0);
        assert(old(dir).rooms.lookup(room_id@) is Some <==> old(dir).rooms().contains_key(room_id@));
        assert forall|a: Seq<char>| dir.alias_owner(a) == old(dir).alias_owner(a) by {
            if a.len() > 0 {
                lemma_owner_stays(before, room_id@, entry, a);
            }
        }
    }
}

/// Records the canonical alias of a room; an empty alias clears it.
pub fn set_room_alias(dir: &mut Directory, room_id: &str, alias: &str)
    ensures
        final(dir).rooms() == (if room_id@.len() == 0 {
            old(dir).rooms()
        } else {
            old(dir).rooms().insert(
                room_id@,
                RoomView {
                    canonical_alias: alias@,
                    ..(if old(dir).rooms().contains_key(room_id@) {
                        old(dir).rooms()[room_id@]
                    } else {
                        blank_room()
                    })
                },
            )
        }),
        final(dir).users() == old(dir).users(),
        final(dir).servers() == old(dir).servers(),
        final(dir).tick() == old(dir).tick(),
        forall|a: Seq<char>|
            a != alias@ && !(old(dir).rooms().contains_key(room_id@) && old(
                dir,
            ).rooms()[room_id@].canonical_alias == a) ==> #[trigger] final(dir).alias_owner(a)
                == old(dir).alias_owner(a),
{
    if room_id.is_empty() {
        return;
    }
    let mut entry = match room(dir, room_id) {
        Some(i) => i,
        None => RoomInfo::default(),
    };
    entry.canonical_alias = alias.to_owned();
    proof {
        use_type_invariant(&*dir);
    }
    let mut rooms = Table::new();
    std::mem::swap(&mut dir.rooms, &mut rooms);
    let ghost before = rooms.entries();
    rooms.insert(room_id.to_owned(), entry);
    dir.rooms = rooms;
    assert(dir.rooms() =~= old(dir).rooms().insert(room_id@, entry@));
    proof {
        crate::table::lemma_entry_position(before, room_id@, 0);
        assert(old(dir).rooms.lookup(room_id@) is Some <==> old(dir).rooms().contains_key(room_id@));
        assert forall|a: Seq<char>|
            a != alias@ && !(old(dir).rooms().contains_key(room_id@) && old(
                dir,
            ).rooms()[room_id@].canonical_alias == a) implies #[trigger] dir.alias_owner(a) == old(
            dir,
        ).alias_owner(a) by {
            if a.len() > 0 {
                lemma_owner_stays(before, room_id@, entry, a);
            }
        }
    }
}

/// Whether an alias leads to `found`: to a room with that canonical alias, and to
/// none only where there is no such room.
pub open spec fn leads_to(
    rooms: Map<Seq<char>, RoomView>,
    alias: Seq<char>,
    found: Option<Seq<char>>,
) -> bool {
    match found {
        Some(id) => alias.len() > 0 && rooms.contains_key(id) && rooms[id].canonical_alias == alias,
        None => alias.len() == 0 || forall|id: Seq<char>| #[trigger]
            rooms.contains_key(id) ==> rooms[id].canonical_alias != alias,
    }
}

/// Reverse lookup from alias to room id. The result is a room with that
/// canonical alias, and there is a result whenever there is such a room.
pub fn room_id_for_alias(dir: &Directory, alias: &str) -> (r: Option<String>)
    ensures
        text_of(r) == dir.alias_owner(alias@),
        leads_to(dir.rooms(), alias@, text_of(r)),
{
    if alias.is_empty() {
        return None;
    }
    let n: usize = dir.rooms.len();
    let ghost rooms = dir.rooms.entries();
    let mut i: usize = 0;
    while i < n
        invariant
            i <= n,
            rooms == dir.rooms.entries(),
            n == rooms.len(),
            crate::table::distinct_keys(rooms),
            alias@.len() > 0,
            alias_position(rooms, alias@, 0) == alias_position(rooms, alias@, i as int),
            forall|j: int| 0 <= j < i ==> (#[trigger] rooms[j]).1.canonical_alias@ != alias@,
        decreases n - i,
    {
        if same(dir.rooms.value_at(i).canonical_alias.as_str(), alias) {
            proof {
                crate::table::lemma_entry_position_at(rooms, i as int);
                assert(dir.rooms.map().contains_key(rooms[i as int].0));
            }
            return Some(dir.rooms.key_at(i).clone());
        }
        i = i + 1;
    }
    proof {
        assert forall|id: Seq<char>| #[trigger] dir.rooms().contains_key(id) implies dir.rooms()[id].canonical_alias
            != alias@ by {
            crate::table::lemma_entry_position(rooms, id, 0);
            assert(dir.rooms.map().contains_key(id));
            let p = crate::table::entry_position(rooms, id, 0);
            assert(rooms[p].1.canonical_alias@ != alias@);
        }
    }
    None
}

// ---- servers ------------------------------------------------------------------

/// What stands after the first `:` of a Matrix id, if that is not empty.
pub open spec fn server_part(mxid: Seq<char>) -> Option<Seq<char>> {
    let colon = crate::text::find_char(mxid, ':', 0);
    if colon + 1 < mxid.len() {
        Some(mxid.subrange(colon + 1, mxid.len() as int))
    } else {
        None
    }
}

/// The server part of a user id, room id or alias. None when there is no
/// colon or nothing after it.
pub fn server_from_matrix_id(mxid: &str) -> (r: Option<String>)
    ensures
        match r {
            Some(s) => server_part(mxid@) == Some(s@) && s@.len() > 0,
            None => server_part(mxid@) is None,
        },
{
    let v = chars_of(mxid);
    let colon: usize = find_char_from(&v, ':', 0);
    if v.len() - colon > 1 {
        Some(string_of_range(&v, colon + 1, v.len()))
    } else {
        None
    }
}

/// Records that a server was seen, as the most recent one.
pub fn observe_server(dir: &mut Directory, name: &str)
    requires
        name@.len() > 0 ==> old(dir).tick() < u64::MAX,
    ensures
        seen_by(old(dir).servers(), old(dir).tick()),
        seen_by(final(dir).servers(), final(dir).tick()),
        final(dir).tick() == old(dir).tick() + (if name@.len() == 0 {
            0int
        } else {
            1
        }),
        final(dir).servers() == (if name@.len() == 0 {
            old(dir).servers()
        } else {
            old(dir).servers().insert(name@, (old(dir).tick() + 1) as u64)
        }),
        final(dir).users() == old(dir).users(),
        final(dir).rooms() == old(dir).rooms(),
        forall|a: Seq<char>| final(dir).alias_owner(a) == old(dir).alias_owner(a),
{
    proof {
        use_type_invariant(&*dir);
    }
    if name.is_empty() {
        return;
    }
    let tick: u64 = dir.server_tick + 1;
    let mut servers = Table::new();
    std::mem::swap(&mut dir.servers, &mut servers);
    dir.server_tick = tick;
    servers.insert(name.to_owned(), tick);
    dir.servers = servers;
}

/// Records the server part of a Matrix id, if there is one.
pub fn observe_server_from_mxid(dir: &mut Directory, mxid: &str)
    requires
        server_part(mxid@) is Some ==> old(dir).tick() < u64::MAX,
    ensures
        final(dir).tick() == old(dir).tick() + (if server_part(mxid@) is None {
            0int
        } else {
            1
        }),
        final(dir).servers() == (match server_part(mxid@) {
            Some(s) => old(dir).servers().insert(s, (old(dir).tick() + 1) as u64),
            None => old(dir).servers(),
        }),
        final(dir).users() == old(dir).users(),
        final(dir).rooms() == old(dir).rooms(),
        forall|a: Seq<char>| final(dir).alias_owner(a) == old(dir).alias_owner(a),
{
    if let Some(server) = server_from_matrix_id(mxid) {
        observe_server(dir, server.as_str());
    }
}

/// `names` lists exactly the known servers, the most recently observed first.
pub open spec fn ranked(names: Seq<Seq<char>>, servers: Map<Seq<char>, u64>) -> bool {
    &&& forall|i: int| 0 <= i < names.len() ==> servers.contains_key(#[trigger] names[i])
    &&& forall|k: Seq<char>| #[trigger] servers.contains_key(k) ==> names.contains(k)
    &&& forall|i: int, j: int|
        #![trigger names[i], names[j]]
        0 <= i < j < names.len() ==> servers[names[i]] > servers[names[j]]
}

/// Whether no server was observed after the tick.
pub open spec fn seen_by(servers: Map<Seq<char>, u64>, tick: u64) -> bool {
    forall|k: Seq<char>| #[trigger] servers.contains_key(k) ==> servers[k] <= tick
}

/// All known servers, the most recently observed first.
pub fn servers_by_recency(dir: &Directory) -> (r: Vec<String>)
    ensures
        ranked(r@.map_values(|s: String| s@), dir.servers()),
        seen_by(dir.servers(), dir.tick()),
{
    proof {
        use_type_invariant(dir);
    }
    let n: usize = dir.servers.len();
    let ghost entries = dir.servers.entries();
    let mut ticks: Vec<u64> = Vec::new();
    let mut i: usize = 0;
    while i < n
        invariant
            i <= n,
            entries == dir.servers.entries(),
            n == entries.len(),
            ticks@.len() == i,
            forall|j: int| 0 <= j < i ==> #[trigger] ticks@[j] == entries[j].1,
        decreases n - i,
    {
        ticks.push(*dir.servers.value_at(i));
        i = i + 1;
    }
    let perm = descending_order(&ticks);
    let mut out: Vec<String> = Vec::new();
    let mut k: usize = 0;
    while k < n
        invariant
            k <= n,
            entries == dir.servers.entries(),
            n == entries.len(),
            perm@.len() == n,
            crate::order::is_permutation(perm@, n as nat),
            out@.len() == k,
            forall|j: int| 0 <= j < k ==> (#[trigger] out@[j])@ == entries[perm@[j] as int].0,
        decreases n - k,
    {
        out.push(dir.servers.key_at(perm[k]).clone());
        k = k + 1;
    }
    proof {
        let names = out@.map_values(|s: String| s@);
        let servers = dir.servers();
        assert forall|i: int| 0 <= i < names.len() implies servers.contains_key(#[trigger] names[i])
            && servers[names[i]] == entries[perm@[i] as int].1 by {
            crate::table::lemma_entry_position_at(entries, perm@[i] as int);
            assert(out@[i]@ == entries[perm@[i] as int].0);
        }
        assert forall|k: Seq<char>| #[trigger] servers.contains_key(k) implies names.contains(k) by {
            crate::table::lemma_entry_position(entries, k, 0);
            let p = crate::table::entry_position(entries, k, 0);
            crate::order::lemma_permutation_covers(perm@, n as nat, p);
            let q = choose|q: int| 0 <= q < perm@.len() && perm@[q] == p as usize;
            assert(out@[q]@ == entries[perm@[q] as int].0);
            assert(names[q] == k);
        }
        assert forall|i: int, j: int|
            #![trigger names[i], names[j]]
            0 <= i < j < names.len() implies servers[names[i]] > servers[names[j]] by {
            assert(servers.contains_key(names[i]));
            assert(servers.contains_key(names[j]));
            let a = perm@[i] as int;
            let b = perm@[j] as int;
            assert(perm@[i] != perm@[j]);
            assert(entries[a].0 != entries[b].0) by {
                if a < b {
                    assert(entries[a].0 != entries[b].0);
                } else {
                    assert(entries[b].0 != entries[a].0);
                }
            }
            assert(ticks@[a] == entries[a].1);
            assert(ticks@[b] == entries[b].1);
        }
    }
    out
}

// ---- laws ---------------------------------------------------------------------

/// A name that was recorded is the name that is shown.
pub proof fn law_recorded_name_is_shown(
    users: Map<Seq<char>, UserView>,
    user_id: Seq<char>,
    info: UserView,
)
    requires
        user_id.len() > 0,
        info.display_name.len() > 0,
    ensures
        shown_name(users.insert(user_id, info), user_id) == info.display_name,
{
}

/// The alias recorded for a room leads back to it, as long as no other room has the
/// same alias.
pub proof fn law_alias_leads_back(
    rooms: Map<Seq<char>, RoomView>,
    room_id: Seq<char>,
    info: RoomView,
    found: Option<Seq<char>>,
)
    requires
        info.canonical_alias.len() > 0,
        forall|id: Seq<char>| #[trigger]
            rooms.contains_key(id) && id != room_id ==> rooms[id].canonical_alias
                != info.canonical_alias,
        leads_to(rooms.insert(room_id, info), info.canonical_alias, found),
    ensures
        found == Some(room_id),
{
    let after = rooms.insert(room_id, info);
    assert(after.contains_key(room_id));
    if let Some(id) = found {
        if id != room_id {
            assert(rooms.contains_key(id));
        }
    }
}

/// The ranking is determined by the observations.
pub proof fn law_ranking_unique(
    a: Seq<Seq<char>>,
    b: Seq<Seq<char>>,
    servers: Map<Seq<char>, u64>,
)
    requires
        ranked(a, servers),
        ranked(b, servers),
    ensures
        a == b,
{
    assert forall|i: int| 0 <= i < a.len() && i < b.len() implies a[i] == b[i] by {
        lemma_rank_agree(a, b, servers, i);
    }
    if a.len() > b.len() {
        let n = b.len() as int;
        assert(b.contains(a[n]));
        let j = choose|j: int| 0 <= j < b.len() && b[j] == a[n];
        assert(a[j] == b[j]);
        assert(servers[a[j]] > servers[a[n]]);
    }
    if b.len() > a.len() {
        let n = a.len() as int;
        assert(a.contains(b[n]));
        let j = choose|j: int| 0 <= j < a.len() && a[j] == b[n];
        assert(a[j] == b[j]);
        assert(servers[b[j]] > servers[b[n]]);
    }
    assert(a =~= b);
}

proof fn lemma_rank_agree(
    a: Seq<Seq<char>>,
    b: Seq<Seq<char>>,
    servers: Map<Seq<char>, u64>,
    n: int,
)
    requires
        ranked(a, servers),
        ranked(b, servers),
        0 <= n < a.len(),
        n < b.len(),
    ensures
        a[n] == b[n],
    decreases n,
{
    assert forall|i: int| 0 <= i < n implies a[i] == b[i] by {
        lemma_rank_agree(a, b, servers, i);
    }
    assert(b.contains(a[n]));
    assert(a.contains(b[n]));
    let i = choose|i: int| 0 <= i < b.len() && b[i] == a[n];
    let j = choose|j: int| 0 <= j < a.len() && a[j] == b[n];
    if i < n {
        assert(a[i] == b[i]);
        assert(servers[a[i]] > servers[a[n]]);
    }
    if j < n {
        assert(a[j] == b[j]);
        assert(servers[b[j]] > servers[b[n]]);
    }
    if i > n && j > n {
        assert(servers[b[n]] > servers[b[i]]);
        assert(servers[a[n]] > servers[a[j]]);
    }
}

/// The names but for one, in their order.
pub open spec fn without(names: Seq<Seq<char>>, name: Seq<char>) -> Seq<Seq<char>>
    decreases names.len(),
{
    if names.len() == 0 {
        names
    } else if names.last() == name {
        without(names.drop_last(), name)
    } else {
        without(names.drop_last(), name).push(names.last())
    }
}

proof fn lemma_without(names: Seq<Seq<char>>, name: Seq<char>, servers: Map<Seq<char>, u64>)
    requires
        forall|i: int, j: int|
            #![trigger names[i], names[j]]
            0 <= i < j < names.len() ==> servers[names[i]] > servers[names[j]],
    ensures
        ({
            let w = without(names, name);
            &&& forall|i: int|
                0 <= i < w.len() ==> (#[trigger] w[i]) != name && names.contains(w[i])
            &&& forall|k: Seq<char>| k != name && #[trigger] names.contains(k) ==> w.contains(k)
            &&& forall|i: int, j: int|
                #![trigger w[i], w[j]]
                0 <= i < j < w.len() ==> servers[w[i]] > servers[w[j]]
        }),
    decreases names.len(),
{
    if names.len() > 0 {
        let rest = names.drop_last();
        assert forall|i: int, j: int|
            #![trigger rest[i], rest[j]]
            0 <= i < j < rest.len() implies servers[rest[i]] > servers[rest[j]] by {
            assert(names[i] == rest[i] && names[j] == rest[j]);
        }
        lemma_without(rest, name, servers);
        let before = without(rest, name);
        let w = without(names, name);
        let n = names.len() - 1;
        assert forall|i: int| 0 <= i < w.len() implies (#[trigger] w[i]) != name && names.contains(
            w[i],
        ) by {
            if i < before.len() {
                assert(w[i] == before[i]);
                let k = choose|k: int| 0 <= k < rest.len() && rest[k] == before[i];
                assert(names[k] == w[i]);
            } else {
                assert(names[n] == w[i]);
            }
        }
        assert forall|k: Seq<char>| k != name && #[trigger] names.contains(k) implies w.contains(
            k,
        ) by {
            let i = choose|i: int| 0 <= i < names.len() && names[i] == k;
            if i < n {
                assert(rest[i] == k);
                assert(rest.contains(k));
                let q = choose|q: int| 0 <= q < before.len() && before[q] == k;
                assert(w[q] == k);
            } else {
                assert(w[w.len() - 1] == k);
            }
        }
        assert forall|i: int, j: int|
            #![trigger w[i], w[j]]
            0 <= i < j < w.len() implies servers[w[i]] > servers[w[j]] by {
            assert(w[i] == before[i]);
            if j < before.len() {
                assert(w[j] == before[j]);
            } else {
                let k = choose|k: int| 0 <= k < rest.len() && rest[k] == before[i];
                assert(names[k] == w[i]);
                assert(names[n] == w[j]);
            }
        }
    }
}

/// Observing a server moves it to the front of the ranking, and leaves the others
/// in their order.
pub proof fn law_observed_moves_to_front(
    before: Seq<Seq<char>>,
    after: Seq<Seq<char>>,
    servers: Map<Seq<char>, u64>,
    name: Seq<char>,
    tick: u64,
)
    requires
        seen_by(servers, tick),
        tick < u64::MAX,
        ranked(before, servers),
        ranked(after, servers.insert(name, (tick + 1) as u64)),
    ensures
        after == seq![name] + without(before, name),
{
    let now = servers.insert(name, (tick + 1) as u64);
    let w = without(before, name);
    let want = seq![name] + w;
    lemma_without(before, name, servers);
    assert forall|i: int| 0 <= i < want.len() implies now.contains_key(#[trigger] want[i]) by {
        if i > 0 {
            assert(want[i] == w[i - 1]);
            let k = choose|k: int| 0 <= k < before.len() && before[k] == w[i - 1];
            assert(servers.contains_key(before[k]));
        }
    }
    assert forall|k: Seq<char>| #[trigger] now.contains_key(k) implies want.contains(k) by {
        if k == name {
            assert(want[0] == k);
        } else {
            assert(servers.contains_key(k));
            assert(before.contains(k));
            let q = choose|q: int| 0 <= q < w.len() && w[q] == k;
            assert(want[q + 1] == k);
        }
    }
    assert forall|i: int, j: int|
        #![trigger want[i], want[j]]
        0 <= i < j < want.len() implies now[want[i]] > now[want[j]] by {
        assert(want[j] == w[j - 1]);
        let k = choose|k: int| 0 <= k < before.len() && before[k] == w[j - 1];
        assert(servers.contains_key(before[k]));
        if i > 0 {
            assert(want[i] == w[i - 1]);
        }
    }
    assert(ranked(want, now));
    law_ranking_unique(after, want, now);
}

/// A user without a known name is shown by what stands between the sigil and the
/// colon of their id, and their server is what stands behind the colon.
pub proof fn law_unknown_users_are_shown_by_id(
    users: Map<Seq<char>, UserView>,
    local: Seq<char>,
    server: Seq<char>,
)
    requires
        local.len() > 0,
        local[0] != '@',
        !local.contains(':'),
        server.len() > 0,
    ensures
        ({
            let id = seq!['@'] + local + seq![':'] + server;
            &&& localpart(id) == local
            &&& server_part(id) == Some(server)
            &&& !users.contains_key(id) ==> shown_name(users, id) == local
            &&& users.contains_key(id) && users[id].display_name.len() == 0 ==> shown_name(users, id)
                == local
            &&& users.contains_key(id) && users[id].display_name.len() > 0 ==> shown_name(users, id)
                == users[id].display_name
        }),
{
    let id = seq!['@'] + local + seq![':'] + server;
    let bare = local + seq![':'] + server;
    assert(id.drop_first() == bare);
    assert(bare[0] == local[0]);
    reveal_with_fuel(crate::text::trim_start_char, 2);
    assert(bare.take(local.len() as int) == local);
    lemma_colon_at(bare, local);
    assert(bare.subrange(0, local.len() as int) == local);
    let head = seq!['@'] + local;
    assert(id == head + seq![':'] + server);
    assert forall|i: int| 0 <= i < head.len() implies (#[trigger] head[i]) != ':' by {
        if i > 0 {
            assert(head[i] == local[i - 1]);
            assert(local.contains(local[i - 1]));
        }
    }
    assert(id.take(head.len() as int) == head);
    lemma_colon_at(id, head);
    assert(id.subrange(head.len() as int + 1, id.len() as int) == server);
}

proof fn lemma_colon_at(s: Seq<char>, head: Seq<char>)
    requires
        s.len() > head.len(),
        s.take(head.len() as int) == head,
        s[head.len() as int] == ':',
        !head.contains(':'),
    ensures
        crate::text::find_char(s, ':', 0) == head.len(),
{
    crate::text::lemma_find_char(s, ':', 0);
    let f = crate::text::find_char(s, ':', 0);
    if f < head.len() {
        assert(s.take(head.len() as int)[f] == s[f]);
        assert(head[f] == ':');
    }
}

/// An id without a colon, or with nothing behind it, names no server.
pub proof fn law_short_ids_name_no_server(s: Seq<char>)
    requires
        !s.contains(':'),
    ensures
        server_part(s) is None,
        server_part(s + seq![':']) is None,
{
    crate::text::lemma_find_char(s, ':', 0);
    let f = crate::text::find_char(s, ':', 0);
    if f < s.len() {
        assert(s.contains(s[f]));
    }
    let t = s + seq![':'];
    assert(t.take(s.len() as int) == s);
    lemma_colon_at(t, s);
}

} // verus!
