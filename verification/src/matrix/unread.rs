//! Unread counts: what the badges and the divider show.

use vstd::prelude::*;
use crate::matrix::info::{MessageInfo, RoomInfo};
use crate::table::Table;
use crate::text::same;

verus! {

/// The first message with the id, from `i` on; the number of messages if there
/// is none.
pub open spec fn marker_position(messages: Seq<MessageInfo>, id: Seq<char>, i: int) -> int
    decreases messages.len() - i,
{
    if i >= messages.len() {
        messages.len() as int
    } else if messages[i].event_id@ == id {
        i
    } else {
        marker_position(messages, id, i + 1)
    }
}

/// The larger of two counts.
pub open spec fn larger(a: u64, b: u64) -> u64 {
    if a >= b {
        a
    } else {
        b
    }
}

/// How many messages are new on entering a room: those after the read marker,
/// or the larger of the two counts where the marker is not among the messages.
pub open spec fn enter_unread(
    messages: Seq<MessageInfo>,
    fully_read: Option<Seq<char>>,
    sdk_unread: u32,
    known_unread: u32,
) -> int {
    let fallback = larger(sdk_unread as u64, known_unread as u64) as int;
    match fully_read {
        None => fallback,
        Some(id) => {
            let p = marker_position(messages, id, 0);
            if p < messages.len() {
                messages.len() - (p + 1)
            } else {
                fallback
            }
        },
    }
}

/// The number of unread messages on entering a room.
///
/// The server's count is 0 until the first sync has been processed, so the
/// messages after the read marker are counted instead. Only where the marker is
/// missing do the server's count and the badge decide.
pub fn compute_enter_unread(
    messages: &Vec<MessageInfo>,
    fully_read: Option<&str>,
    sdk_unread: u32,
    known_unread: u32,
) -> (r: u32)
    requires
        messages@.len() <= u32::MAX,
    ensures
        r == enter_unread(
            messages@,
            (match fully_read {
                Some(s) => Some(s@),
                None => None,
            }),
            sdk_unread,
            known_unread,
        ),
{
    if let Some(id) = fully_read {
        let mut i: usize = 0;
        while i < messages.len()
            invariant
                i <= messages@.len(),
                messages@.len() <= u32::MAX,
                fully_read == Some(id),
                marker_position(messages@, id@, 0) == marker_position(messages@, id@, i as int),
            decreases messages@.len() - i,
        {
            if same(&messages[i].event_id, id) {
                return (messages.len() - (i + 1)) as u32;
            }
            i = i + 1;
        }
    }
    resolve_unread(sdk_unread, known_unread)
}

/// The unread count when a cached room is shown: the server's count, but no less
/// than what the badge showed.
pub fn resolve_unread(sdk_unread: u32, known_unread: u32) -> (r: u32)
    ensures
        r == larger(sdk_unread as u64, known_unread as u64),
{
    if sdk_unread >= known_unread {
        sdk_unread
    } else {
        known_unread
    }
}

/// The row before which the divider between read and unread messages stands.
pub fn divider_position(messages: usize, unread: u32) -> (r: usize)
    ensures
        r == (if messages >= unread {
            messages - unread
        } else {
            0
        }),
{
    messages.saturating_sub(unread as usize)
}

/// Whether a refresh that brought no new message need not be shown: with unread
/// messages or a read marker it has to be, so that the divider gets placed.
pub fn should_skip_render(unread_count: u32, fully_read: Option<&str>) -> (r: bool)
    ensures
        r == (unread_count == 0 && fully_read is None),
{
    unread_count == 0 && fully_read.is_none()
}

/// Whether a refresh that brought no new message need not be shown at all: also
/// members that were fetched just now, and not taken from memory, have to be.
pub fn should_skip_refresh(
    unread_count: u32,
    fully_read: Option<&str>,
    members_were_cached: bool,
    members: &Vec<(String, String)>,
) -> (r: bool)
    ensures
        r == (unread_count == 0 && fully_read is None && (members_were_cached || members@.len()
            == 0)),
{
    should_skip_render(unread_count, fully_read) && (members_were_cached || members.is_empty())
}

/// A room whose counts are no lower than the stored ones.
pub open spec fn merged_counts(room: RoomInfo, stored: Option<(u64, u64)>) -> RoomInfo {
    match stored {
        None => room,
        Some(c) => RoomInfo {
            unread_count: larger(room.unread_count, c.0),
            highlight_count: larger(room.highlight_count, c.1),
            ..room
        },
    }
}

/// Raises the counts of every room to the stored ones, by room id. A room that
/// was not stored keeps its counts.
pub fn merge_disk_unread_counts(rooms: &mut Vec<RoomInfo>, disk: &Table<(u64, u64)>)
    ensures
        final(rooms)@ == old(rooms)@.map_values(
            |r: RoomInfo| merged_counts(r, disk.lookup(r.room_id@)),
        ),
{
    let ghost before = rooms@;
    let mut i: usize = 0;
    while i < rooms.len()
        invariant
            i <= rooms@.len(),
            rooms@.len() == before.len(),
            forall|j: int|
                0 <= j < i ==> (#[trigger] rooms@[j]) == merged_counts(
                    before[j],
                    disk.lookup(before[j].room_id@),
                ),
            forall|j: int| i <= j < rooms@.len() ==> (#[trigger] rooms@[j]) == before[j],
        decreases rooms@.len() - i,
    {
        let stored: Option<(u64, u64)> = match disk.get(&rooms[i].room_id) {
            Some(c) => Some(*c),
            None => None,
        };
        if let Some((unread, highlight)) = stored {
            let mut room = rooms[i].clone();
            if unread > room.unread_count {
                room.unread_count = unread;
            }
            if highlight > room.highlight_count {
                room.highlight_count = highlight;
            }
            rooms.set(i, room);
        }
        i = i + 1;
    }
    assert(rooms@ =~= before.map_values(
        |r: RoomInfo| merged_counts(r, disk.lookup(r.room_id@)),
    ));
}

/// Whether a room has the id and something unread.
pub open spec fn is_badged(room: RoomInfo, id: Seq<char>) -> bool {
    room.room_id@ == id && (room.unread_count > 0 || room.highlight_count > 0)
}

/// The first room with the id and something unread, from `i` on; the number of
/// rooms if there is none.
pub open spec fn badged_position(rooms: Seq<RoomInfo>, id: Seq<char>, i: int) -> int
    decreases rooms.len() - i,
{
    if i >= rooms.len() {
        rooms.len() as int
    } else if is_badged(rooms[i], id) {
        i
    } else {
        badged_position(rooms, id, i + 1)
    }
}

/// A room without unread messages.
pub open spec fn without_unread(room: RoomInfo) -> RoomInfo {
    RoomInfo { unread_count: 0, highlight_count: 0, ..room }
}

/// Clears the stored counts of one room. The result says whether the list
/// changed and has to be written back.
pub fn zero_room_unread_in_disk_cache(rooms: &mut Vec<RoomInfo>, room_id: &str) -> (changed: bool)
    ensures
        ({
            let p = badged_position(old(rooms)@, room_id@, 0);
            &&& changed == (p < old(rooms)@.len())
            &&& final(rooms)@ == (if changed {
                old(rooms)@.update(p, without_unread(old(rooms)@[p]))
            } else {
                old(rooms)@
            })
        }),
{
    let ghost before = rooms@;
    let mut i: usize = 0;
    while i < rooms.len()
        invariant
            i <= rooms@.len(),
            rooms@ == before,
            before == old(rooms)@,
            badged_position(before, room_id@, 0) == badged_position(before, room_id@, i as int),
        decreases rooms@.len() - i,
    {
        if same(&rooms[i].room_id, room_id) && (rooms[i].unread_count > 0
            || rooms[i].highlight_count > 0) {
            let mut room = rooms[i].clone();
            room.unread_count = 0;
            room.highlight_count = 0;
            rooms.set(i, room);
            return true;
        }
        i = i + 1;
    }
    false
}

/// Merging never lowers a badge.
pub proof fn law_merge_never_lowers(room: RoomInfo, stored: Option<(u64, u64)>)
    ensures
        merged_counts(room, stored).unread_count >= room.unread_count,
        merged_counts(room, stored).highlight_count >= room.highlight_count,
        merged_counts(room, stored).room_id == room.room_id,
{
}

/// A badge that was stored survives: after a merge, storing the counts and
/// merging them into a room that the server reports as read gives the badge
/// back.
pub proof fn law_badges_survive(room: RoomInfo, stored: (u64, u64), fresh: RoomInfo)
    requires
        fresh.unread_count == 0,
        fresh.highlight_count == 0,
    ensures
        ({
            let kept = merged_counts(room, Some(stored));
            let again = merged_counts(fresh, Some((kept.unread_count, kept.highlight_count)));
            again.unread_count == kept.unread_count && again.highlight_count
                == kept.highlight_count
        }),
{
}

/// A room whose stored counts were cleared and that the server reports as read
/// gets no badge from a merge.
pub proof fn law_no_badge_after_reading(room: RoomInfo, cleared: RoomInfo)
    requires
        room.unread_count == 0,
        room.highlight_count == 0,
    ensures
        ({
            let stored = without_unread(cleared);
            let m = merged_counts(room, Some((stored.unread_count, stored.highlight_count)));
            m.unread_count == 0 && m.highlight_count == 0
        }),
{
}

/// With the read marker among the messages, the divider stands right behind it.
pub proof fn law_divider_follows_marker(
    messages: Seq<MessageInfo>,
    id: Seq<char>,
    sdk_unread: u32,
    known_unread: u32,
)
    requires
        marker_position(messages, id, 0) < messages.len(),
    ensures
        0 <= marker_position(messages, id, 0),
        messages.len() - enter_unread(messages, Some(id), sdk_unread, known_unread)
            == marker_position(messages, id, 0) + 1,
        messages[marker_position(messages, id, 0)].event_id@ == id,
{
    lemma_marker(messages, id, 0);
}

proof fn lemma_marker(messages: Seq<MessageInfo>, id: Seq<char>, i: int)
    requires
        0 <= i <= messages.len(),
    ensures
        i <= marker_position(messages, id, i) <= messages.len(),
        marker_position(messages, id, i) < messages.len() ==> messages[marker_position(
            messages,
            id,
            i,
        )].event_id@ == id,
    decreases messages.len() - i,
{
    if i < messages.len() && messages[i].event_id@ != id {
        lemma_marker(messages, id, i + 1);
    }
}

/// A merge gives the larger of the two counts, for unread messages and for highlights,
/// and changes nothing else.
pub proof fn law_merge_takes_the_larger(room: RoomInfo, stored: (u64, u64))
    ensures
        ({
            let m = merged_counts(room, Some(stored));
            &&& m.unread_count >= stored.0
            &&& m.highlight_count >= stored.1
            &&& m.unread_count == room.unread_count || m.unread_count == stored.0
            &&& m.highlight_count == room.highlight_count || m.highlight_count == stored.1
            &&& m.name == room.name
            &&& m.last_activity_ts == room.last_activity_ts
        }),
        merged_counts(room, None) == room,
{
}

/// The read marker is found wherever it stands: what comes behind it is new, and
/// nothing else. Where it is not among the messages, the larger of the two counts is
/// taken.
pub proof fn law_new_messages_follow_the_marker(
    messages: Seq<MessageInfo>,
    id: Seq<char>,
    sdk_unread: u32,
    known_unread: u32,
    p: int,
)
    requires
        0 <= p <= messages.len(),
        p < messages.len() ==> messages[p].event_id@ == id,
        forall|i: int| 0 <= i < p ==> (#[trigger] messages[i]).event_id@ != id,
    ensures
        p < messages.len() ==> enter_unread(messages, Some(id), sdk_unread, known_unread)
            == messages.len() - p - 1,
        p == messages.len() ==> ({
            let n = enter_unread(messages, Some(id), sdk_unread, known_unread);
            n >= sdk_unread && n >= known_unread && (n == sdk_unread || n == known_unread)
        }),
        ({
            let n = enter_unread(messages, None, sdk_unread, known_unread);
            n >= sdk_unread && n >= known_unread && (n == sdk_unread || n == known_unread)
        }),
{
    lemma_marker_is(messages, id, 0, p);
}

proof fn lemma_marker_is(messages: Seq<MessageInfo>, id: Seq<char>, i: int, p: int)
    requires
        0 <= i <= p <= messages.len(),
        p < messages.len() ==> messages[p].event_id@ == id,
        forall|j: int| i <= j < p ==> (#[trigger] messages[j]).event_id@ != id,
    ensures
        marker_position(messages, id, i) == p,
    decreases p - i,
{
    if i < p {
        lemma_marker_is(messages, id, i + 1, p);
    }
}

/// The room whose badge is cleared is the first one with the id that has one; where
/// there is none, nothing is.
pub proof fn law_badge_is_found(rooms: Seq<RoomInfo>, id: Seq<char>)
    ensures
        ({
            let p = badged_position(rooms, id, 0);
            &&& 0 <= p <= rooms.len()
            &&& p < rooms.len() ==> rooms[p].room_id@ == id && (rooms[p].unread_count > 0
                || rooms[p].highlight_count > 0)
            &&& forall|i: int|
                0 <= i < p && (#[trigger] rooms[i]).room_id@ == id ==> rooms[i].unread_count == 0
                    && rooms[i].highlight_count == 0
            &&& p < rooms.len() ==> without_unread(rooms[p]).unread_count == 0 && without_unread(
                rooms[p],
            ).highlight_count == 0 && without_unread(rooms[p]).room_id == rooms[p].room_id
                && without_unread(rooms[p]).name == rooms[p].name
        }),
{
    lemma_badged(rooms, id, 0);
}

proof fn lemma_badged(rooms: Seq<RoomInfo>, id: Seq<char>, i: int)
    requires
        0 <= i <= rooms.len(),
    ensures
        i <= badged_position(rooms, id, i) <= rooms.len(),
        badged_position(rooms, id, i) < rooms.len() ==> is_badged(
            rooms[badged_position(rooms, id, i)],
            id,
        ),
        forall|j: int| i <= j < badged_position(rooms, id, i) ==> !is_badged(#[trigger] rooms[j], id),
    decreases rooms.len() - i,
{
    if i < rooms.len() && !is_badged(rooms[i], id) {
        lemma_badged(rooms, id, i + 1);
    }
}

} // verus!
