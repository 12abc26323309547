//! The room list: what is known of the joined rooms, and in which order they
//! stand.

use vstd::prelude::*;
use crate::json::{json_number, json_str_at, json_string, json_u64_at, text_of};
use crate::matrix::ids::{localpart_of_user, user_localpart};
use crate::matrix::info::{RoomInfo, RoomKind, RoomView};
use crate::order::{descending, descending_order, is_permutation, lemma_permutation_covers, permute};
use crate::table::Table;
use crate::text::{has_text, same, views};

verus! {

/// How often the room list is built anew.
pub const REFRESH_SECS: u64 = 180;

/// The version of the stored times. It changes whenever other events count as
/// activity.
pub const TIMESTAMP_CACHE_VERSION: u32 = 2;

/// Whether an event type is activity that somebody in the room meant: messages,
/// and changes of topic, name or pinned messages.
pub open spec fn is_activity_type(kind: Seq<char>) -> bool {
    kind == "m.room.message"@ || kind == "m.room.encrypted"@ || kind == "m.room.topic"@ || kind
        == "m.room.name"@ || kind == "m.room.pinned_events"@
}

/// Whether a raw event is activity.
pub open spec fn raw_activity(raw: Seq<char>) -> bool {
    match json_string(raw, "/type"@) {
        Some(kind) => is_activity_type(kind),
        None => false,
    }
}

/// Whether an event, as JSON, is activity worth sorting rooms by.
pub fn is_room_activity(raw: &str) -> (r: bool)
    ensures
        r == raw_activity(raw@),
{
    match json_str_at(raw, "/type") {
        Some(kind) => same(&kind, "m.room.message") || same(&kind, "m.room.encrypted") || same(
            &kind,
            "m.room.topic",
        ) || same(&kind, "m.room.name") || same(&kind, "m.room.pinned_events"),
        None => false,
    }
}

/// The time of a raw event in seconds, if it has one.
pub open spec fn raw_seconds(raw: Seq<char>) -> Option<u64> {
    match json_number(raw, "/origin_server_ts"@) {
        Some(ms) => Some((ms / 1000) as u64),
        None => None,
    }
}

/// The time of an event, as JSON, in seconds.
pub fn event_seconds(raw: &str) -> (r: Option<u64>)
    ensures
        r == raw_seconds(raw@),
{
    match json_u64_at(raw, "/origin_server_ts") {
        Some(ms) => Some(ms / 1000),
        None => None,
    }
}

/// One of the members that a room without a name is named after.
#[derive(Debug)]
pub struct Hero {
    pub user_id: String,
    pub display_name: Option<String>,
}

/// What is known of a joined room.
#[derive(Debug)]
pub struct JoinedRoom {
    pub room_id: String,
    pub is_space: bool,
    pub is_dm: bool,
    /// The name that was last computed, if any.
    pub cached_name: Option<String>,
    /// The name that was set, if any.
    pub name: Option<String>,
    pub heroes: Vec<Hero>,
    pub topic: Option<String>,
    pub is_encrypted: bool,
    pub is_tombstoned: bool,
    pub is_favourite: bool,
    pub avatar_url: Option<String>,
    pub unread_count: u64,
    pub highlight_count: u64,
    /// The time of the last activity, where the server keeps it.
    pub recency: Option<u64>,
    /// The latest event as JSON, if there is one.
    pub latest_event: Option<String>,
    /// The rooms of a space.
    pub children: Vec<String>,
    /// The ids of the spaces that the room itself says it belongs to.
    pub parents: Vec<String>,
}

/// The first hero with a name, from `i` on.
pub open spec fn hero_name(heroes: Seq<Hero>, i: int) -> Option<Seq<char>>
    decreases heroes.len() - i,
{
    if i >= heroes.len() {
        None
    } else if heroes[i].display_name is Some {
        text_of(heroes[i].display_name)
    } else {
        hero_name(heroes, i + 1)
    }
}

/// The name of a room or space: the computed one, the one that was set, or the
/// room id.
pub open spec fn plain_name(j: JoinedRoom) -> Seq<char> {
    if j.cached_name is Some {
        j.cached_name->0@
    } else if j.name is Some {
        j.name->0@
    } else {
        j.room_id@
    }
}

/// The name under which a room is listed. A direct room goes by who is in it.
pub open spec fn listed_name(j: JoinedRoom) -> Seq<char> {
    if !j.is_dm {
        plain_name(j)
    } else if hero_name(j.heroes@, 0) is Some {
        hero_name(j.heroes@, 0)->0
    } else if j.heroes@.len() > 0 {
        user_localpart(j.heroes@[0].user_id@)
    } else if j.cached_name is Some {
        j.cached_name->0@
    } else {
        j.room_id@
    }
}

/// The time of the last activity in a room, 0 where it is not known.
pub open spec fn activity_time(j: JoinedRoom) -> u64 {
    if j.recency is Some {
        j.recency->0
    } else if j.latest_event is Some && raw_activity(j.latest_event->0@) && raw_seconds(
        j.latest_event->0@,
    ) is Some {
        raw_seconds(j.latest_event->0@)->0
    } else {
        0
    }
}

/// The last space among the first `n` rooms that lists the room.
pub open spec fn listing_space(joined: Seq<JoinedRoom>, room: Seq<char>, n: int) -> Option<JoinedRoom>
    decreases n,
{
    if n <= 0 {
        None
    } else if joined[n - 1].is_space && views(joined[n - 1].children@).contains(room) {
        Some(joined[n - 1])
    } else {
        listing_space(joined, room, n - 1)
    }
}

/// The name of the space with this id, the last one among the first `n` rooms.
pub open spec fn space_name(joined: Seq<JoinedRoom>, id: Seq<char>, n: int) -> Option<Seq<char>>
    decreases n,
{
    if n <= 0 {
        None
    } else if joined[n - 1].is_space && joined[n - 1].room_id@ == id {
        Some(plain_name(joined[n - 1]))
    } else {
        space_name(joined, id, n - 1)
    }
}

/// The name of the first joined space among the spaces, from the `i`-th on, that a
/// room itself names.
pub open spec fn named_space(
    joined: Seq<JoinedRoom>,
    parents: Seq<Seq<char>>,
    i: int,
) -> Option<Seq<char>>
    decreases parents.len() - i,
{
    if i >= parents.len() {
        None
    } else if space_name(joined, parents[i], joined.len() as int) is Some {
        space_name(joined, parents[i], joined.len() as int)
    } else {
        named_space(joined, parents, i + 1)
    }
}

/// The name of the space of a room: one that lists it, or else one that the room
/// names.
pub open spec fn space_of(joined: Seq<JoinedRoom>, j: JoinedRoom) -> Option<Seq<char>> {
    match listing_space(joined, j.room_id@, joined.len() as int) {
        Some(s) => Some(plain_name(s)),
        None => named_space(joined, views(j.parents@), 0),
    }
}

/// The id of the space of a room: the first one that the room names, or else one
/// that lists it. Empty for a room outside every space.
pub open spec fn space_id_of(joined: Seq<JoinedRoom>, j: JoinedRoom) -> Seq<char> {
    if j.parents@.len() > 0 {
        j.parents@[0]@
    } else {
        match listing_space(joined, j.room_id@, joined.len() as int) {
            Some(s) => s.room_id@,
            None => Seq::empty(),
        }
    }
}

/// A time that is not known, looked up among stored ones.
pub open spec fn known_time(time: u64, room: Seq<char>, stored: Map<Seq<char>, u64>) -> u64 {
    if time == 0 && stored.contains_key(room) {
        stored[room]
    } else {
        time
    }
}

/// The list entry of a joined room.
pub open spec fn list_entry(
    joined: Seq<JoinedRoom>,
    j: JoinedRoom,
    pinned: Seq<Seq<char>>,
    stored: Map<Seq<char>, u64>,
) -> RoomView {
    RoomView {
        room_id: j.room_id@,
        name: listed_name(j),
        last_activity_ts: if j.is_space {
            activity_time(j)
        } else {
            known_time(activity_time(j), j.room_id@, stored)
        },
        kind: if j.is_space {
            RoomKind::Space
        } else if j.is_dm {
            RoomKind::DirectMessage
        } else {
            RoomKind::Room
        },
        is_encrypted: j.is_encrypted,
        parent_space: space_of(joined, j),
        parent_space_id: space_id_of(joined, j),
        is_pinned: pinned.contains(j.room_id@),
        unread_count: j.unread_count,
        highlight_count: j.highlight_count,
        is_admin: false,
        is_tombstoned: j.is_tombstoned,
        is_favourite: j.is_favourite,
        avatar_url: match j.avatar_url {
            Some(u) => u@,
            None => Seq::empty(),
        },
        topic: match j.topic {
            Some(t) => t@,
            None => Seq::empty(),
        },
    }
}

/// The groups in which the rooms of the list stand, in this order.
#[derive(Debug, Clone, Copy, PartialEq, Eq, Structural)]
pub enum Bucket {
    /// Rooms with something unread.
    Unread,
    /// Conversations.
    Direct,
    /// Rooms outside every space.
    Ungrouped,
    /// Rooms of a space.
    Child,
    /// The spaces themselves.
    Space,
}

/// The group of a room.
pub open spec fn bucket_of(r: RoomView) -> Bucket {
    if r.kind == RoomKind::Space {
        Bucket::Space
    } else if r.unread_count > 0 || r.highlight_count > 0 {
        Bucket::Unread
    } else if r.kind == RoomKind::DirectMessage {
        Bucket::Direct
    } else if r.parent_space is Some {
        Bucket::Child
    } else {
        Bucket::Ungrouped
    }
}

/// The rooms of a group.
pub open spec fn in_bucket(rooms: Seq<RoomView>, b: Bucket) -> Seq<RoomView>
    decreases rooms.len(),
{
    if rooms.len() == 0 {
        Seq::empty()
    } else if bucket_of(rooms.last()) == b {
        in_bucket(rooms.drop_last(), b).push(rooms.last())
    } else {
        in_bucket(rooms.drop_last(), b)
    }
}

/// Whether the rooms are the same, the most recently active first.
pub open spec fn newest_first(rooms: Seq<RoomView>, sorted: Seq<RoomView>) -> bool {
    exists|perm: Seq<usize>| #[trigger]
        is_permutation(perm, rooms.len()) && descending(
            perm,
            rooms.map_values(|r: RoomView| r.last_activity_ts),
        ) && sorted == permute(rooms, perm)
}

/// Whether `list` holds the rooms in the order of the room list.
pub open spec fn is_room_list(rooms: Seq<RoomView>, list: Seq<RoomView>) -> bool {
    exists|unread: Seq<RoomView>, direct: Seq<RoomView>, ungrouped: Seq<RoomView>| {
        &&& #[trigger] newest_first(in_bucket(rooms, Bucket::Unread), unread)
        &&& #[trigger] newest_first(in_bucket(rooms, Bucket::Direct), direct)
        &&& #[trigger] newest_first(in_bucket(rooms, Bucket::Ungrouped), ungrouped)
        &&& list == unread + direct + ungrouped + in_bucket(rooms, Bucket::Child) + in_bucket(
            rooms,
            Bucket::Space,
        )
    }
}

/// Rooms as text.
pub open spec fn rooms_of(v: Seq<RoomInfo>) -> Seq<RoomView> {
    v.map_values(|r: RoomInfo| r@)
}

fn first_hero_name(heroes: &Vec<Hero>) -> (r: Option<String>)
    ensures
        text_of(r) == hero_name(heroes@, 0),
{
    let mut i: usize = 0;
    while i < heroes.len()
        invariant
            i <= heroes@.len(),
            hero_name(heroes@, 0) == hero_name(heroes@, i as int),
        decreases heroes@.len() - i,
    {
        if let Some(n) = &heroes[i].display_name {
            return Some(n.clone());
        }
        i = i + 1;
    }
    None
}

fn plain_name_of(j: &JoinedRoom) -> (r: String)
    ensures
        r@ == plain_name(*j),
{
    match &j.cached_name {
        Some(n) => n.clone(),
        None => match &j.name {
            Some(n) => n.clone(),
            None => j.room_id.clone(),
        },
    }
}

fn listed_name_of(j: &JoinedRoom) -> (r: String)
    ensures
        r@ == listed_name(*j),
{
    if !j.is_dm {
        return plain_name_of(j);
    }
    if let Some(n) = first_hero_name(&j.heroes) {
        return n;
    }
    if j.heroes.len() > 0 {
        return localpart_of_user(&j.heroes[0].user_id);
    }
    match &j.cached_name {
        Some(n) => n.clone(),
        None => j.room_id.clone(),
    }
}

fn activity_of(j: &JoinedRoom) -> (r: u64)
    ensures
        r == activity_time(*j),
{
    if let Some(t) = j.recency {
        return t;
    }
    if let Some(raw) = &j.latest_event {
        if is_room_activity(raw) {
            if let Some(t) = event_seconds(raw) {
                return t;
            }
        }
    }
    0
}

fn find_listing_space(joined: &Vec<JoinedRoom>, room: &str) -> (r: Option<usize>)
    ensures
        match r {
            Some(i) => i < joined@.len() && listing_space(joined@, room@, joined@.len() as int)
                == Some(joined@[i as int]),
            None => listing_space(joined@, room@, joined@.len() as int) is None,
        },
{
    let mut n: usize = joined.len();
    while n > 0
        invariant
            n <= joined@.len(),
            listing_space(joined@, room@, joined@.len() as int) == listing_space(
                joined@,
                room@,
                n as int,
            ),
        decreases n,
    {
        if joined[n - 1].is_space && has_text(&joined[n - 1].children, room) {
            return Some(n - 1);
        }
        n = n - 1;
    }
    None
}

fn find_space_name(joined: &Vec<JoinedRoom>, id: &str) -> (r: Option<String>)
    ensures
        text_of(r) == space_name(joined@, id@, joined@.len() as int),
{
    let mut n: usize = joined.len();
    while n > 0
        invariant
            n <= joined@.len(),
            space_name(joined@, id@, joined@.len() as int) == space_name(joined@, id@, n as int),
        decreases n,
    {
        if joined[n - 1].is_space && same(&joined[n - 1].room_id, id) {
            return Some(plain_name_of(&joined[n - 1]));
        }
        n = n - 1;
    }
    None
}

fn parent_of(joined: &Vec<JoinedRoom>, j: &JoinedRoom) -> (r: (Option<String>, String))
    ensures
        text_of(r.0) == space_of(joined@, *j),
        r.1@ == space_id_of(joined@, *j),
{
    let listing: Option<usize> = find_listing_space(joined, &j.room_id);
    let id: String = if j.parents.len() > 0 {
        j.parents[0].clone()
    } else {
        match listing {
            Some(s) => joined[s].room_id.clone(),
            None => String::new(),
        }
    };
    if let Some(s) = listing {
        return (Some(plain_name_of(&joined[s])), id);
    }
    let ghost parents = views(j.parents@);
    let mut i: usize = 0;
    while i < j.parents.len()
        invariant
            i <= j.parents@.len(),
            parents == views(j.parents@),
            named_space(joined@, parents, 0) == named_space(joined@, parents, i as int),
            listing_space(joined@, j.room_id@, joined@.len() as int) is None,
            id@ == space_id_of(joined@, *j),
        decreases j.parents@.len() - i,
    {
        assert(parents[i as int] == j.parents@[i as int]@);
        if let Some(name) = find_space_name(joined, &j.parents[i]) {
            return (Some(name), id);
        }
        i = i + 1;
    }
    (None, id)
}

fn entry_for(
    joined: &Vec<JoinedRoom>,
    j: &JoinedRoom,
    pinned: &Vec<String>,
    stored: &Table<u64>,
) -> (r: RoomInfo)
    ensures
        r@ == list_entry(joined@, *j, views(pinned@), stored.map()),
{
    let mut time: u64 = activity_of(j);
    if !j.is_space && time == 0 {
        if let Some(t) = stored.get(&j.room_id) {
            time = *t;
        }
    }
    let kind: RoomKind = if j.is_space {
        RoomKind::Space
    } else if j.is_dm {
        RoomKind::DirectMessage
    } else {
        RoomKind::Room
    };
    let avatar_url: String = match &j.avatar_url {
        Some(u) => u.clone(),
        None => String::new(),
    };
    let topic: String = match &j.topic {
        Some(t) => t.clone(),
        None => String::new(),
    };
    let (parent_space, parent_space_id) = parent_of(joined, j);
    RoomInfo {
        room_id: j.room_id.clone(),
        name: listed_name_of(j),
        last_activity_ts: time,
        kind,
        is_encrypted: j.is_encrypted,
        parent_space,
        parent_space_id,
        is_pinned: has_text(pinned, &j.room_id),
        unread_count: j.unread_count,
        highlight_count: j.highlight_count,
        is_admin: false,
        is_tombstoned: j.is_tombstoned,
        is_favourite: j.is_favourite,
        avatar_url,
        topic,
    }
}

fn bucket_for(r: &RoomInfo) -> (b: Bucket)
    ensures
        b == bucket_of(r@),
{
    if let RoomKind::Space = r.kind {
        Bucket::Space
    } else if r.unread_count > 0 || r.highlight_count > 0 {
        Bucket::Unread
    } else if let RoomKind::DirectMessage = r.kind {
        Bucket::Direct
    } else if r.parent_space.is_some() {
        Bucket::Child
    } else {
        Bucket::Ungrouped
    }
}

fn take_bucket(rooms: &Vec<RoomInfo>, b: Bucket) -> (r: Vec<RoomInfo>)
    ensures
        rooms_of(r@) == in_bucket(rooms_of(rooms@), b),
{
    let ghost all = rooms_of(rooms@);
    let mut out: Vec<RoomInfo> = Vec::new();
    let mut i: usize = 0;
    assert(all.take(0) =~= Seq::<RoomView>::empty());
    assert(rooms_of(out@) =~= Seq::<RoomView>::empty());
    while i < rooms.len()
        invariant
            i <= rooms@.len(),
            all == rooms_of(rooms@),
            rooms_of(out@) == in_bucket(all.take(i as int), b),
        decreases rooms@.len() - i,
    {
        let ghost before = rooms_of(out@);
        proof {
            assert(all.take(i + 1).drop_last() =~= all.take(i as int));
            assert(all.take(i + 1).last() == rooms@[i as int]@);
        }
        if bucket_for(&rooms[i]) == b {
            out.push(rooms[i].clone());
            assert(rooms_of(out@) =~= before.push(rooms@[i as int]@));
        }
        i = i + 1;
    }
    assert(all.take(i as int) =~= all);
    out
}

/// The rooms, the most recently active first; the sort is stable.
fn sort_rooms(rooms: &Vec<RoomInfo>) -> (r: Vec<RoomInfo>)
    ensures
        newest_first(rooms_of(rooms@), rooms_of(r@)),
{
    let ghost all = rooms_of(rooms@);
    let mut times: Vec<u64> = Vec::new();
    let mut i: usize = 0;
    while i < rooms.len()
        invariant
            i <= rooms@.len(),
            times@.len() == i,
            all == rooms_of(rooms@),
            forall|j: int| 0 <= j < i ==> (#[trigger] times@[j]) == all[j].last_activity_ts,
        decreases rooms@.len() - i,
    {
        times.push(rooms[i].last_activity_ts);
        i = i + 1;
    }
    let perm = descending_order(&times);
    assert(times@ =~= all.map_values(|r: RoomView| r.last_activity_ts));
    let mut out: Vec<RoomInfo> = Vec::new();
    let mut p: usize = 0;
    while p < perm.len()
        invariant
            p <= perm@.len(),
            out@.len() == p,
            is_permutation(perm@, rooms@.len()),
            all == rooms_of(rooms@),
            forall|j: int| 0 <= j < p ==> (#[trigger] out@[j])@ == all[perm@[j] as int],
        decreases perm@.len() - p,
    {
        let w: usize = perm[p];
        out.push(rooms[w].clone());
        p = p + 1;
    }
    proof {
        assert(rooms_of(out@) =~= permute(all, perm@));
        assert(is_permutation(perm@, all.len()));
    }
    out
}

/// Builds the room list from what is known of the joined rooms.
///
/// Rooms with something unread come first, then conversations, then rooms
/// outside every space, each with the most recently active first; then the rooms
/// of spaces and the spaces. No room is left out: the user interface decides how
/// many it shows.
pub fn collect_room_info(joined: &Vec<JoinedRoom>, pinned: &Vec<String>, stored: &Table<u64>) -> (r:
    Vec<RoomInfo>)
    ensures
        is_room_list(
            joined@.map_values(
                |j: JoinedRoom| list_entry(joined@, j, views(pinned@), stored.map()),
            ),
            rooms_of(r@),
        ),
{
    let ghost entries = joined@.map_values(
        |j: JoinedRoom| list_entry(joined@, j, views(pinned@), stored.map()),
    );
    let mut all: Vec<RoomInfo> = Vec::new();
    let mut i: usize = 0;
    while i < joined.len()
        invariant
            i <= joined@.len(),
            all@.len() == i,
            forall|k: int|
                0 <= k < i ==> (#[trigger] all@[k])@ == list_entry(
                    joined@,
                    joined@[k],
                    views(pinned@),
                    stored.map(),
                ),
        decreases joined@.len() - i,
    {
        all.push(entry_for(joined, &joined[i], pinned, stored));
        i = i + 1;
    }
    assert(rooms_of(all@) =~= entries);
    let unread = sort_rooms(&take_bucket(&all, Bucket::Unread));
    let mut direct = sort_rooms(&take_bucket(&all, Bucket::Direct));
    let mut ungrouped = sort_rooms(&take_bucket(&all, Bucket::Ungrouped));
    let mut children = take_bucket(&all, Bucket::Child);
    let mut spaces = take_bucket(&all, Bucket::Space);
    let ghost u = rooms_of(unread@);
    let ghost d = rooms_of(direct@);
    let ghost g = rooms_of(ungrouped@);
    let ghost c = rooms_of(children@);
    let ghost s = rooms_of(spaces@);
    let mut out = unread;
    out.append(&mut direct);
    out.append(&mut ungrouped);
    out.append(&mut children);
    out.append(&mut spaces);
    proof {
        assert(rooms_of(out@) =~= u + d + g + c + s);
        assert(newest_first(in_bucket(entries, Bucket::Unread), u));
        assert(newest_first(in_bucket(entries, Bucket::Direct), d));
        assert(newest_first(in_bucket(entries, Bucket::Ungrouped), g));
    }
    out
}

/// How many rooms the groups hold together.
proof fn lemma_buckets_len(rooms: Seq<RoomView>)
    ensures
        in_bucket(rooms, Bucket::Unread).len() + in_bucket(rooms, Bucket::Direct).len()
            + in_bucket(rooms, Bucket::Ungrouped).len() + in_bucket(rooms, Bucket::Child).len()
            + in_bucket(rooms, Bucket::Space).len() == rooms.len(),
    decreases rooms.len(),
{
    if rooms.len() > 0 {
        lemma_buckets_len(rooms.drop_last());
    }
}

proof fn lemma_bucket_holds(rooms: Seq<RoomView>, r: RoomView, b: Bucket)
    requires
        rooms.contains(r),
        bucket_of(r) == b,
    ensures
        in_bucket(rooms, b).contains(r),
    decreases rooms.len(),
{
    let i = choose|i: int| 0 <= i < rooms.len() && rooms[i] == r;
    let before = in_bucket(rooms.drop_last(), b);
    if i == rooms.len() - 1 {
        assert(in_bucket(rooms, b)[before.len() as int] == r);
    } else {
        assert(rooms.drop_last()[i] == r);
        lemma_bucket_holds(rooms.drop_last(), r, b);
        let k = choose|k: int| 0 <= k < before.len() && before[k] == r;
        assert(in_bucket(rooms, b)[k] == r);
    }
}

proof fn lemma_sorted_holds(rooms: Seq<RoomView>, sorted: Seq<RoomView>)
    requires
        newest_first(rooms, sorted),
    ensures
        sorted.len() == rooms.len(),
        forall|r: RoomView| rooms.contains(r) ==> #[trigger] sorted.contains(r),
        forall|i: int, j: int|
            0 <= i < j < sorted.len() ==> (#[trigger] sorted[i]).last_activity_ts >= (
            #[trigger] sorted[j]).last_activity_ts,
{
    let times = rooms.map_values(|r: RoomView| r.last_activity_ts);
    let perm = choose|perm: Seq<usize>| #[trigger]
        is_permutation(perm, rooms.len()) && descending(perm, times) && sorted == permute(
            rooms,
            perm,
        );
    assert forall|r: RoomView| rooms.contains(r) implies #[trigger] sorted.contains(r) by {
        let i = choose|i: int| 0 <= i < rooms.len() && rooms[i] == r;
        lemma_permutation_covers(perm, rooms.len(), i);
        let k = choose|k: int| 0 <= k < perm.len() && (#[trigger] perm[k]) as int == i;
        assert(sorted[k] == r);
    }
    assert forall|i: int, j: int| 0 <= i < j < sorted.len() implies (
    #[trigger] sorted[i]).last_activity_ts >= (#[trigger] sorted[j]).last_activity_ts by {
        let a = perm[i];
        let b = perm[j];
        assert(times[a as int] == sorted[i].last_activity_ts);
        assert(times[b as int] == sorted[j].last_activity_ts);
    }
}

/// The room list leaves no room out and adds none.
pub proof fn law_room_list_is_complete(rooms: Seq<RoomView>, list: Seq<RoomView>)
    requires
        is_room_list(rooms, list),
    ensures
        list.len() == rooms.len(),
        forall|r: RoomView| rooms.contains(r) ==> #[trigger] list.contains(r),
{
    let (u, d, g) = choose|u: Seq<RoomView>, d: Seq<RoomView>, g: Seq<RoomView>| {
        &&& #[trigger] newest_first(in_bucket(rooms, Bucket::Unread), u)
        &&& #[trigger] newest_first(in_bucket(rooms, Bucket::Direct), d)
        &&& #[trigger] newest_first(in_bucket(rooms, Bucket::Ungrouped), g)
        &&& list == u + d + g + in_bucket(rooms, Bucket::Child) + in_bucket(rooms, Bucket::Space)
    };
    let c = in_bucket(rooms, Bucket::Child);
    let s = in_bucket(rooms, Bucket::Space);
    lemma_sorted_holds(in_bucket(rooms, Bucket::Unread), u);
    lemma_sorted_holds(in_bucket(rooms, Bucket::Direct), d);
    lemma_sorted_holds(in_bucket(rooms, Bucket::Ungrouped), g);
    lemma_buckets_len(rooms);
    assert forall|r: RoomView| rooms.contains(r) implies #[trigger] list.contains(r) by {
        let b = bucket_of(r);
        lemma_bucket_holds(rooms, r, b);
        let (part, at): (Seq<RoomView>, int) = match b {
            Bucket::Unread => (u, 0int),
            Bucket::Direct => (d, u.len() as int),
            Bucket::Ungrouped => (g, (u.len() + d.len()) as int),
            Bucket::Child => (c, (u.len() + d.len() + g.len()) as int),
            Bucket::Space => (s, (u.len() + d.len() + g.len() + c.len()) as int),
        };
        assert(part.contains(r));
        let k = choose|k: int| 0 <= k < part.len() && part[k] == r;
        assert(list[at + k] == r);
    }
}

proof fn lemma_listing_space(joined: Seq<JoinedRoom>, room: Seq<char>, n: int)
    requires
        0 <= n <= joined.len(),
    ensures
        listing_space(joined, room, n) matches Some(s) ==> joined.contains(s),
    decreases n,
{
    if n > 0 {
        lemma_listing_space(joined, room, n - 1);
    }
}

/// A room that is shown in a space says which one: an entry with the name of a
/// space has an id of one, and for a room that names no space itself it is the
/// other way round too.
pub proof fn law_space_name_comes_with_id(joined: Seq<JoinedRoom>, j: JoinedRoom)
    requires
        forall|i: int| 0 <= i < joined.len() ==> (#[trigger] joined[i]).room_id@.len() > 0,
        forall|i: int| 0 <= i < j.parents@.len() ==> (#[trigger] j.parents@[i])@.len() > 0,
    ensures
        space_of(joined, j) is Some ==> space_id_of(joined, j).len() > 0,
        j.parents@.len() == 0 ==> (space_id_of(joined, j).len() > 0 ==> space_of(joined, j) is Some),
{
    lemma_listing_space(joined, j.room_id@, joined.len() as int);
    if j.parents@.len() > 0 {
        assert(j.parents@[0]@.len() > 0);
    }
    if let Some(s) = listing_space(joined, j.room_id@, joined.len() as int) {
        let i = choose|i: int| 0 <= i < joined.len() && joined[i] == s;
        assert(joined[i].room_id@.len() > 0);
    }
}

proof fn lemma_in_bucket(rooms: Seq<RoomView>, b: Bucket)
    ensures
        forall|i: int|
            0 <= i < in_bucket(rooms, b).len() ==> bucket_of(#[trigger] in_bucket(rooms, b)[i]) == b,
    decreases rooms.len(),
{
    if rooms.len() > 0 {
        lemma_in_bucket(rooms.drop_last(), b);
    }
}

proof fn lemma_sorted_from(rooms: Seq<RoomView>, sorted: Seq<RoomView>, b: Bucket)
    requires
        newest_first(rooms, sorted),
        forall|i: int| 0 <= i < rooms.len() ==> bucket_of(#[trigger] rooms[i]) == b,
    ensures
        forall|i: int| 0 <= i < sorted.len() ==> bucket_of(#[trigger] sorted[i]) == b,
{
    let times = rooms.map_values(|r: RoomView| r.last_activity_ts);
    let perm = choose|perm: Seq<usize>| #[trigger]
        is_permutation(perm, rooms.len()) && descending(perm, times) && sorted == permute(
            rooms,
            perm,
        );
    assert forall|i: int| 0 <= i < sorted.len() implies bucket_of(#[trigger] sorted[i]) == b by {
        assert(0 <= perm[i] < rooms.len());
        assert(sorted[i] == rooms[perm[i] as int]);
    }
}

spec fn bucket_rank(b: Bucket) -> int {
    match b {
        Bucket::Unread => 0,
        Bucket::Direct => 1,
        Bucket::Ungrouped => 2,
        Bucket::Child => 3,
        Bucket::Space => 4,
    }
}

proof fn lemma_list_order(rooms: Seq<RoomView>, list: Seq<RoomView>, i: int, j: int)
    requires
        is_room_list(rooms, list),
        0 <= i < j < list.len(),
    ensures
        bucket_rank(bucket_of(list[i])) <= bucket_rank(bucket_of(list[j])),
        bucket_of(list[i]) == bucket_of(list[j]) && bucket_rank(bucket_of(list[i])) < 3
            ==> list[i].last_activity_ts >= list[j].last_activity_ts,
{
    let (u, d, g) = choose|u: Seq<RoomView>, d: Seq<RoomView>, g: Seq<RoomView>| {
        &&& #[trigger] newest_first(in_bucket(rooms, Bucket::Unread), u)
        &&& #[trigger] newest_first(in_bucket(rooms, Bucket::Direct), d)
        &&& #[trigger] newest_first(in_bucket(rooms, Bucket::Ungrouped), g)
        &&& list == u + d + g + in_bucket(rooms, Bucket::Child) + in_bucket(rooms, Bucket::Space)
    };
    let c = in_bucket(rooms, Bucket::Child);
    let s = in_bucket(rooms, Bucket::Space);
    lemma_in_bucket(rooms, Bucket::Unread);
    lemma_in_bucket(rooms, Bucket::Direct);
    lemma_in_bucket(rooms, Bucket::Ungrouped);
    lemma_in_bucket(rooms, Bucket::Child);
    lemma_in_bucket(rooms, Bucket::Space);
    lemma_sorted_from(in_bucket(rooms, Bucket::Unread), u, Bucket::Unread);
    lemma_sorted_from(in_bucket(rooms, Bucket::Direct), d, Bucket::Direct);
    lemma_sorted_from(in_bucket(rooms, Bucket::Ungrouped), g, Bucket::Ungrouped);
    lemma_sorted_holds(in_bucket(rooms, Bucket::Unread), u);
    lemma_sorted_holds(in_bucket(rooms, Bucket::Direct), d);
    lemma_sorted_holds(in_bucket(rooms, Bucket::Ungrouped), g);
    lemma_part(u, d, g, c, s, list, i);
    lemma_part(u, d, g, c, s, list, j);
}

/// Which part of the list an entry stands in.
proof fn lemma_part(
    u: Seq<RoomView>,
    d: Seq<RoomView>,
    g: Seq<RoomView>,
    c: Seq<RoomView>,
    s: Seq<RoomView>,
    list: Seq<RoomView>,
    i: int,
)
    requires
        list == u + d + g + c + s,
        0 <= i < list.len(),
    ensures
        ({
            let a = u.len() as int;
            let b = a + d.len();
            let e = b + g.len();
            let f = e + c.len();
            &&& i < a ==> list[i] == u[i]
            &&& a <= i < b ==> list[i] == d[i - a]
            &&& b <= i < e ==> list[i] == g[i - b]
            &&& e <= i < f ==> list[i] == c[i - e]
            &&& f <= i ==> list[i] == s[i - f]
        }),
{
}

/// Rooms with something unread stand before all others, and spaces behind all others.
/// In between, conversations come before rooms, and rooms outside every space before
/// those of a space.
pub proof fn law_unread_rooms_come_first(rooms: Seq<RoomView>, list: Seq<RoomView>, i: int, j: int)
    requires
        is_room_list(rooms, list),
        0 <= i < j < list.len(),
    ensures
        list[i].kind == RoomKind::Space ==> list[j].kind == RoomKind::Space,
        list[j].kind != RoomKind::Space && (list[j].unread_count > 0 || list[j].highlight_count > 0)
            ==> list[i].unread_count > 0 || list[i].highlight_count > 0,
        list[j].kind == RoomKind::DirectMessage && list[i].kind != RoomKind::DirectMessage
            ==> list[i].unread_count > 0 || list[i].highlight_count > 0,
        list[j].kind == RoomKind::Room && list[j].parent_space is None && list[i].kind
            == RoomKind::Room && list[i].parent_space is Some ==> list[i].unread_count > 0
            || list[i].highlight_count > 0,
{
    lemma_list_order(rooms, list, i, j);
}

/// Of two rooms of one kind the more recently active stands first: among those with
/// something unread, among read conversations, and among read rooms outside every
/// space.
pub proof fn law_active_rooms_come_first(rooms: Seq<RoomView>, list: Seq<RoomView>, i: int, j: int)
    requires
        is_room_list(rooms, list),
        0 <= i < j < list.len(),
        list[i].kind != RoomKind::Space,
        list[j].kind != RoomKind::Space,
        ({
            let a = list[i].unread_count > 0 || list[i].highlight_count > 0;
            let b = list[j].unread_count > 0 || list[j].highlight_count > 0;
            ||| a && b
            ||| !a && !b && list[i].kind == RoomKind::DirectMessage && list[j].kind
                == RoomKind::DirectMessage
            ||| !a && !b && list[i].kind == RoomKind::Room && list[j].kind == RoomKind::Room
                && list[i].parent_space is None && list[j].parent_space is None
        }),
    ensures
        list[i].last_activity_ts >= list[j].last_activity_ts,
{
    lemma_list_order(rooms, list, i, j);
}

/// The list says of each room what is known of it.
pub proof fn law_entries_tell_of_their_rooms(
    joined: Seq<JoinedRoom>,
    j: JoinedRoom,
    pinned: Seq<Seq<char>>,
    stored: Map<Seq<char>, u64>,
)
    ensures
        ({
            let e = list_entry(joined, j, pinned, stored);
            &&& e.room_id == j.room_id@
            &&& e.unread_count == j.unread_count
            &&& e.highlight_count == j.highlight_count
            &&& e.is_encrypted == j.is_encrypted
            &&& e.is_tombstoned == j.is_tombstoned
            &&& e.is_favourite == j.is_favourite
            &&& e.is_pinned <==> pinned.contains(j.room_id@)
            &&& e.kind == RoomKind::Space <==> j.is_space
            &&& e.kind == RoomKind::DirectMessage <==> j.is_dm && !j.is_space
            &&& j.topic matches Some(t) ==> e.topic == t@
            &&& j.topic is None ==> e.topic.len() == 0
            &&& j.avatar_url matches Some(u) ==> e.avatar_url == u@
            &&& j.avatar_url is None ==> e.avatar_url.len() == 0
            &&& !j.is_dm && j.cached_name is Some ==> e.name == j.cached_name->0@
            &&& !j.is_dm && j.cached_name is None && j.name is Some ==> e.name == j.name->0@
            &&& j.cached_name is None && j.name is None && j.heroes@.len() == 0 ==> e.name == j.room_id@
            &&& j.recency is Some && (j.recency->0 > 0 || j.is_space) ==> e.last_activity_ts
                == j.recency->0
            &&& j.recency is None && j.latest_event is None && !j.is_space && stored.contains_key(
                j.room_id@,
            ) ==> e.last_activity_ts == stored[j.room_id@]
            &&& j.recency is None && j.latest_event is None && !stored.contains_key(j.room_id@)
                ==> e.last_activity_ts == 0
        }),
{
}

/// A conversation goes by the name of whom it is with: the first of them that has a
/// name.
pub proof fn law_conversations_are_named_by_people(j: JoinedRoom, k: int)
    requires
        j.is_dm,
        0 <= k < j.heroes@.len(),
        j.heroes@[k].display_name is Some,
        forall|i: int| 0 <= i < k ==> (#[trigger] j.heroes@[i]).display_name is None,
    ensures
        listed_name(j) == j.heroes@[k].display_name->0@,
{
    lemma_hero_name(j.heroes@, 0, k);
}

proof fn lemma_hero_name(heroes: Seq<Hero>, i: int, k: int)
    requires
        0 <= i <= k < heroes.len(),
        heroes[k].display_name is Some,
        forall|h: int| i <= h < k ==> (#[trigger] heroes[h]).display_name is None,
    ensures
        hero_name(heroes, i) == Some(heroes[k].display_name->0@),
    decreases k - i,
{
    if i < k {
        lemma_hero_name(heroes, i + 1, k);
    }
}

/// A room that a space lists, and no other space does, is shown in that space.
pub proof fn law_listed_rooms_are_in_their_space(joined: Seq<JoinedRoom>, j: JoinedRoom, s: int)
    requires
        0 <= s < joined.len(),
        joined[s].is_space,
        views(joined[s].children@).contains(j.room_id@),
        joined[s].cached_name is Some,
        forall|i: int|
            0 <= i < joined.len() && i != s && (#[trigger] joined[i]).is_space ==> !views(
                joined[i].children@,
            ).contains(j.room_id@),
    ensures
        space_of(joined, j) == Some(joined[s].cached_name->0@),
        j.parents@.len() == 0 ==> space_id_of(joined, j) == joined[s].room_id@,
{
    lemma_listing_space_is(joined, j.room_id@, joined.len() as int, s);
}

proof fn lemma_listing_space_is(joined: Seq<JoinedRoom>, room: Seq<char>, n: int, s: int)
    requires
        0 <= s < n <= joined.len(),
        joined[s].is_space,
        views(joined[s].children@).contains(room),
        forall|i: int|
            0 <= i < joined.len() && i != s && (#[trigger] joined[i]).is_space ==> !views(
                joined[i].children@,
            ).contains(room),
    ensures
        listing_space(joined, room, n) == Some(joined[s]),
    decreases n,
{
    if s < n - 1 {
        lemma_listing_space_is(joined, room, n - 1, s);
    }
}

/// A room that no space lists and that names none stands outside every space.
pub proof fn law_other_rooms_are_in_no_space(joined: Seq<JoinedRoom>, j: JoinedRoom)
    requires
        j.parents@.len() == 0,
        forall|i: int|
            0 <= i < joined.len() && (#[trigger] joined[i]).is_space ==> !views(
                joined[i].children@,
            ).contains(j.room_id@),
    ensures
        space_of(joined, j) is None,
        space_id_of(joined, j).len() == 0,
{
    lemma_no_listing_space(joined, j.room_id@, joined.len() as int);
}

proof fn lemma_no_listing_space(joined: Seq<JoinedRoom>, room: Seq<char>, n: int)
    requires
        0 <= n <= joined.len(),
        forall|i: int|
            0 <= i < joined.len() && (#[trigger] joined[i]).is_space ==> !views(
                joined[i].children@,
            ).contains(room),
    ensures
        listing_space(joined, room, n) is None,
    decreases n,
{
    if n > 0 {
        lemma_no_listing_space(joined, room, n - 1);
    }
}

/// Messages and changes of topic, name or pinned messages are activity; nobody's
/// coming and going is, nor reactions.
pub proof fn law_what_counts_as_activity(raw: Seq<char>)
    ensures
        json_string(raw, "/type"@) == Some("m.room.message"@) ==> raw_activity(raw),
        json_string(raw, "/type"@) == Some("m.room.encrypted"@) ==> raw_activity(raw),
        json_string(raw, "/type"@) == Some("m.room.topic"@) ==> raw_activity(raw),
        json_string(raw, "/type"@) == Some("m.room.name"@) ==> raw_activity(raw),
        json_string(raw, "/type"@) == Some("m.room.pinned_events"@) ==> raw_activity(raw),
        json_string(raw, "/type"@) == Some("m.room.member"@) ==> !raw_activity(raw),
        json_string(raw, "/type"@) == Some("m.reaction"@) ==> !raw_activity(raw),
        json_string(raw, "/type"@) is None ==> !raw_activity(raw),
{
    reveal_strlit("m.room.message");
    reveal_strlit("m.room.encrypted");
    reveal_strlit("m.room.topic");
    reveal_strlit("m.room.name");
    reveal_strlit("m.room.pinned_events");
    reveal_strlit("m.room.member");
    reveal_strlit("m.reaction");
    assert("m.room.member"@.len() == 13 && "m.reaction"@.len() == 10);
    assert("m.room.message"@.len() == 14 && "m.room.encrypted"@.len() == 16 && "m.room.topic"@.len()
        == 12 && "m.room.name"@.len() == 11 && "m.room.pinned_events"@.len() == 20);
}

proof fn lemma_no_listing(joined: Seq<JoinedRoom>, room: Seq<char>, n: int)
    requires
        0 <= n <= joined.len(),
        forall|i: int|
            0 <= i < joined.len() && (#[trigger] joined[i]).is_space ==> !views(
                joined[i].children@,
            ).contains(room),
    ensures
        listing_space(joined, room, n) is None,
    decreases n,
{
    if n > 0 {
        assert(joined[n - 1].is_space ==> !views(joined[n - 1].children@).contains(room));
        lemma_no_listing(joined, room, n - 1);
    }
}

proof fn lemma_space_name(joined: Seq<JoinedRoom>, id: Seq<char>, n: int, s: int)
    requires
        0 <= n <= joined.len(),
        s < joined.len(),
        0 <= s ==> joined[s].is_space && joined[s].room_id@ == id,
        forall|i: int|
            0 <= i < joined.len() && i != s && (#[trigger] joined[i]).is_space ==> joined[i].room_id@
                != id,
    ensures
        0 <= s < n ==> space_name(joined, id, n) == Some(plain_name(joined[s])),
        !(0 <= s < n) ==> space_name(joined, id, n) is None,
    decreases n,
{
    if n > 0 {
        if n - 1 != s {
            assert(joined[n - 1].is_space ==> joined[n - 1].room_id@ != id);
        }
        lemma_space_name(joined, id, n - 1, s);
    }
}

proof fn lemma_named_space(joined: Seq<JoinedRoom>, parents: Seq<Seq<char>>, i: int, p: int, s: int)
    requires
        0 <= i <= p < parents.len(),
        0 <= s < joined.len(),
        joined[s].is_space,
        joined[s].room_id@ == parents[p],
        forall|k: int|
            0 <= k < joined.len() && k != s && (#[trigger] joined[k]).is_space ==> joined[k].room_id@
                != parents[p],
        forall|q: int, k: int|
            #![trigger parents[q], joined[k]]
            0 <= q < p && 0 <= k < joined.len() && joined[k].is_space ==> joined[k].room_id@
                != parents[q],
    ensures
        named_space(joined, parents, i) == Some(plain_name(joined[s])),
    decreases p - i,
{
    let n = joined.len() as int;
    if i < p {
        assert forall|k: int| 0 <= k < joined.len() && (#[trigger] joined[k]).is_space implies joined[k].room_id@
            != parents[i] by {
            assert(parents[i] == parents[i]);
        }
        lemma_space_name(joined, parents[i], n, -1);
        lemma_named_space(joined, parents, i + 1, p, s);
    } else {
        lemma_space_name(joined, parents[p], n, s);
    }
}

/// A room that no space lists belongs to the first joined space that it names
/// itself; spaces that the user has not joined are passed over.
pub proof fn law_rooms_name_their_space(joined: Seq<JoinedRoom>, j: JoinedRoom, p: int, s: int)
    requires
        0 <= p < j.parents@.len(),
        0 <= s < joined.len(),
        joined[s].is_space,
        joined[s].room_id@ == j.parents@[p]@,
        joined[s].cached_name is Some,
        forall|i: int|
            0 <= i < joined.len() && (#[trigger] joined[i]).is_space ==> !views(
                joined[i].children@,
            ).contains(j.room_id@),
        forall|k: int|
            0 <= k < joined.len() && k != s && (#[trigger] joined[k]).is_space ==> joined[k].room_id@
                != j.parents@[p]@,
        forall|q: int, k: int|
            #![trigger j.parents@[q], joined[k]]
            0 <= q < p && 0 <= k < joined.len() && joined[k].is_space ==> joined[k].room_id@
                != j.parents@[q]@,
    ensures
        space_of(joined, j) == Some(joined[s].cached_name->0@),
        p == 0 ==> space_id_of(joined, j) == joined[s].room_id@,
{
    let parents = views(j.parents@);
    lemma_no_listing(joined, j.room_id@, joined.len() as int);
    assert(parents[p] == j.parents@[p]@);
    assert forall|q: int, k: int|
        #![trigger parents[q], joined[k]]
        0 <= q < p && 0 <= k < joined.len() && joined[k].is_space implies joined[k].room_id@
        != parents[q] by {
        assert(parents[q] == j.parents@[q]@);
    }
    lemma_named_space(joined, parents, 0, p, s);
}

} // verus!
