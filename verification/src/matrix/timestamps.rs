//! The times of the last activity in each room, which outlive a session.

use vstd::prelude::*;
use crate::json::json_number;
use crate::matrix::info::{RoomInfo, RoomKind};
use crate::matrix::rooms::{
    event_seconds, is_room_activity, raw_activity, raw_seconds, REFRESH_SECS, TIMESTAMP_CACHE_VERSION,
};
use crate::table::{distinct_keys, entries_get, entries_insert, law_insert_get, lemma_entry_absent, Table};
use crate::text::{has_text, lowercase, starts_with, str_starts_with, views};

verus! {

/// The times that were stored, if they were stored by this version. The flag says
/// whether the stored file is to be deleted.
pub fn loaded_timestamps(version: u32, times: Table<u64>) -> (r: (Table<u64>, bool))
    ensures
        version == TIMESTAMP_CACHE_VERSION ==> r.0 == times && !r.1,
        version != TIMESTAMP_CACHE_VERSION ==> r.0.entries().len() == 0 && r.1,
{
    if version == TIMESTAMP_CACHE_VERSION {
        (times, false)
    } else {
        (Table::new(), true)
    }
}

/// The times with those of the first `n` stored rooms, where a time is missing.
pub open spec fn seeded(times: Map<Seq<char>, u64>, rooms: Seq<RoomInfo>, n: int) -> Map<
    Seq<char>,
    u64,
>
    decreases n,
{
    if n <= 0 {
        times
    } else {
        let m = seeded(times, rooms, n - 1);
        let r = rooms[n - 1];
        if r.last_activity_ts > 0 && !m.contains_key(r.room_id@) {
            m.insert(r.room_id@, r.last_activity_ts)
        } else {
            m
        }
    }
}

/// Fills in missing times from the stored room list.
pub fn seed_timestamps(times: &mut Table<u64>, rooms: &Vec<RoomInfo>)
    ensures
        final(times).map() == seeded(old(times).map(), rooms@, rooms@.len() as int),
{
    let mut i: usize = 0;
    while i < rooms.len()
        invariant
            i <= rooms@.len(),
            times.map() == seeded(old(times).map(), rooms@, i as int),
        decreases rooms@.len() - i,
    {
        if rooms[i].last_activity_ts > 0 && !times.contains_key(&rooms[i].room_id) {
            times.insert(rooms[i].room_id.clone(), rooms[i].last_activity_ts);
        }
        i = i + 1;
    }
}

/// The time that is kept for a room; 0 if there is none.
pub open spec fn kept(times: Map<Seq<char>, u64>, room: Seq<char>) -> u64 {
    if times.contains_key(room) {
        times[room]
    } else {
        0
    }
}

/// The kept times after a room was looked at: the later time is kept.
pub open spec fn kept_after(times: Map<Seq<char>, u64>, room: RoomInfo) -> Map<Seq<char>, u64> {
    if room.last_activity_ts > kept(times, room.room_id@) {
        times.insert(room.room_id@, room.last_activity_ts)
    } else {
        times
    }
}

/// The kept times after the first `n` rooms were looked at.
pub open spec fn kept_after_all(times: Map<Seq<char>, u64>, rooms: Seq<RoomInfo>, n: int) -> Map<
    Seq<char>,
    u64,
>
    decreases n,
{
    if n <= 0 {
        times
    } else {
        kept_after(kept_after_all(times, rooms, n - 1), rooms[n - 1])
    }
}

/// A room with the later of its own time and the kept one.
pub open spec fn with_later_time(times: Map<Seq<char>, u64>, room: RoomInfo) -> RoomInfo {
    let t = kept(times, room.room_id@);
    RoomInfo {
        last_activity_ts: if room.last_activity_ts > t {
            room.last_activity_ts
        } else {
            t
        },
        ..room
    }
}

/// Keeps the later time on both sides: an old event that happens to be the latest
/// known of a room does not hide a newer time from an earlier session.
pub fn reconcile_timestamps(rooms: &mut Vec<RoomInfo>, times: &mut Table<u64>)
    ensures
        final(times).map() == kept_after_all(
            old(times).map(),
            old(rooms)@,
            old(rooms)@.len() as int,
        ),
        final(rooms)@.len() == old(rooms)@.len(),
        forall|i: int|
            0 <= i < final(rooms)@.len() ==> (#[trigger] final(rooms)@[i]) == with_later_time(
                kept_after_all(old(times).map(), old(rooms)@, i),
                old(rooms)@[i],
            ),
{
    let ghost before = rooms@;
    let ghost start = times.map();
    let mut i: usize = 0;
    while i < rooms.len()
        invariant
            i <= rooms@.len(),
            rooms@.len() == before.len(),
            before == old(rooms)@,
            start == old(times).map(),
            times.map() == kept_after_all(start, before, i as int),
            forall|j: int|
                0 <= j < i ==> (#[trigger] rooms@[j]) == with_later_time(
                    kept_after_all(start, before, j),
                    before[j],
                ),
            forall|j: int| i <= j < rooms@.len() ==> (#[trigger] rooms@[j]) == before[j],
        decreases rooms@.len() - i,
    {
        assert(rooms@[i as int] == before[i as int]);
        let cached: u64 = match times.get(&rooms[i].room_id) {
            Some(t) => *t,
            None => 0,
        };
        assert(cached == kept(times.map(), before[i as int].room_id@));
        if rooms[i].last_activity_ts > cached {
            times.insert(rooms[i].room_id.clone(), rooms[i].last_activity_ts);
        } else if cached > 0 {
            let mut room = rooms[i].clone();
            room.last_activity_ts = cached;
            rooms.set(i, room);
        }
        i = i + 1;
    }
}

/// The times with those of the first `n` rooms, where they are known.
pub open spec fn remembered_times(times: Map<Seq<char>, u64>, rooms: Seq<RoomInfo>, n: int) -> Map<
    Seq<char>,
    u64,
>
    decreases n,
{
    if n <= 0 {
        times
    } else {
        let m = remembered_times(times, rooms, n - 1);
        if rooms[n - 1].last_activity_ts > 0 {
            m.insert(rooms[n - 1].room_id@, rooms[n - 1].last_activity_ts)
        } else {
            m
        }
    }
}

/// Keeps the times of all rooms whose time is known.
pub fn remember_timestamps(times: &mut Table<u64>, rooms: &Vec<RoomInfo>)
    ensures
        final(times).map() == remembered_times(old(times).map(), rooms@, rooms@.len() as int),
{
    let mut i: usize = 0;
    while i < rooms.len()
        invariant
            i <= rooms@.len(),
            times.map() == remembered_times(old(times).map(), rooms@, i as int),
        decreases rooms@.len() - i,
    {
        if rooms[i].last_activity_ts > 0 {
            times.insert(rooms[i].room_id.clone(), rooms[i].last_activity_ts);
        }
        i = i + 1;
    }
}

/// The times that are stored: those of the joined rooms, or all where it is not
/// said which rooms are joined.
pub fn stored_timestamps(times: &Table<u64>, joined: Option<&Vec<String>>) -> (r: Table<u64>)
    ensures
        forall|k: Seq<char>| #[trigger]
            r.lookup(k) == (if joined is None || views(joined->0@).contains(k) {
                times.lookup(k)
            } else {
                None
            }),
{
    let ghost all = times.entries();
    let n: usize = times.len();
    let mut out: Table<u64> = Table::new();
    let mut i: usize = 0;
    proof {
        assert(all.take(0) =~= Seq::empty());
    }
    while i < n
        invariant
            i <= n,
            n == all.len(),
            all == times.entries(),
            distinct_keys(all),
            distinct_keys(out.entries()),
            forall|k: Seq<char>| #[trigger]
                out.lookup(k) == (if joined is None || views(joined->0@).contains(k) {
                    entries_get(all.take(i as int), k)
                } else {
                    None
                }),
        decreases n - i,
    {
        let key = times.key_at(i).clone();
        let value: u64 = *times.value_at(i);
        let ghost prev = out;
        let ghost prefix = all.take(i as int);
        proof {
            assert(all.take(i + 1) =~= prefix.push(all[i as int]));
            assert forall|j: int| 0 <= j < prefix.len() implies (#[trigger] prefix[j]).0 != key@ by {
                assert(all[j].0 != all[i as int].0);
            }
            lemma_entry_absent(prefix, key@);
            assert(distinct_keys(prefix)) by {
                assert forall|a: int, b: int| 0 <= a < b < prefix.len() implies (
                #[trigger] prefix[a]).0 != (#[trigger] prefix[b]).0 by {
                    assert(all[a].0 != all[b].0);
                }
            }
            assert(all.take(i + 1) =~= entries_insert(prefix, key@, value));
        }
        let keep: bool = match joined {
            Some(ids) => has_text(ids, &key),
            None => true,
        };
        if keep {
            out.insert(key, value);
        }
        proof {
            assert forall|k: Seq<char>| #[trigger]
                out.lookup(k) == (if joined is None || views(joined->0@).contains(k) {
                    entries_get(all.take(i + 1), k)
                } else {
                    None
                }) by {
                assert(prev.lookup(k) == (if joined is None || views(joined->0@).contains(k) {
                    entries_get(prefix, k)
                } else {
                    None
                }));
                law_insert_get(prefix, key@, value, k);
                law_insert_get(prev.entries(), key@, value, k);
            }
        }
        i = i + 1;
    }
    assert(all.take(i as int) =~= all);
    out
}

/// The last activity among the first `n` raw events; -1 if there is none.
pub open spec fn last_activity(raws: Seq<String>, n: int) -> int
    decreases n,
{
    if n <= 0 {
        -1
    } else if raw_activity(raws[n - 1]@) {
        n - 1
    } else {
        last_activity(raws, n - 1)
    }
}

/// The kept times after events of a room arrived.
pub open spec fn after_events(times: Map<Seq<char>, u64>, room: Seq<char>, raws: Seq<String>) -> Map<
    Seq<char>,
    u64,
> {
    let p = last_activity(raws, raws.len() as int);
    if p < 0 || raw_seconds(raws[p]@) is None {
        times
    } else {
        let t = raw_seconds(raws[p]@)->0;
        times.insert(
            room,
            (if t > kept(times, room) {
                t
            } else {
                kept(times, room)
            }),
        )
    }
}

/// Notes the activity among the events of a room that a sync brought. The time
/// of a room never goes back.
pub fn note_activity(times: &mut Table<u64>, room_id: &str, raws: &Vec<String>)
    ensures
        final(times).map() == after_events(old(times).map(), room_id@, raws@),
{
    let ghost start = times.map();
    let mut n: usize = raws.len();
    while n > 0
        invariant
            n <= raws@.len(),
            times.map() == start,
            start == old(times).map(),
            last_activity(raws@, raws@.len() as int) == last_activity(raws@, n as int),
        decreases n,
    {
        if is_room_activity(&raws[n - 1]) {
            if let Some(t) = event_seconds(&raws[n - 1]) {
                let entry: u64 = match times.get(room_id) {
                    Some(e) => *e,
                    None => 0,
                };
                assert(entry == kept(start, room_id@));
                times.insert(
                    room_id.to_owned(),
                    if t > entry {
                        t
                    } else {
                        entry
                    },
                );
            }
            return ;
        }
        n = n - 1;
    }
}

/// Whether the time of a room has to be asked for.
pub open spec fn lacks_time(r: RoomInfo) -> bool {
    r.last_activity_ts == 0 && r.kind != RoomKind::Space && !starts_with(
        lowercase(r.name@),
        "empty room"@,
    )
}

/// The rooms among the first `n` whose time has to be asked for.
pub open spec fn lacking(rooms: Seq<RoomInfo>, n: int) -> Seq<usize>
    decreases n,
{
    if n <= 0 {
        Seq::empty()
    } else if lacks_time(rooms[n - 1]) {
        lacking(rooms, n - 1).push((n - 1) as usize)
    } else {
        lacking(rooms, n - 1)
    }
}

/// The rooms whose time has to be asked for. Spaces and rooms that everybody left
/// are passed over.
pub fn rooms_to_backfill(rooms: &Vec<RoomInfo>) -> (r: Vec<usize>)
    ensures
        r@ == lacking(rooms@, rooms@.len() as int),
        forall|i: int| 0 <= i < r@.len() ==> (#[trigger] r@[i]) < rooms@.len(),
{
    let mut out: Vec<usize> = Vec::new();
    let mut i: usize = 0;
    while i < rooms.len()
        invariant
            i <= rooms@.len(),
            out@ == lacking(rooms@, i as int),
            forall|j: int| 0 <= j < out@.len() ==> (#[trigger] out@[j]) < i,
        decreases rooms@.len() - i,
    {
        let is_space: bool = if let RoomKind::Space = rooms[i].kind {
            true
        } else {
            false
        };
        let lower = rooms[i].name.as_str().to_lowercase();
        if rooms[i].last_activity_ts == 0 && !is_space && !str_starts_with(&lower, "empty room") {
            out.push(i);
        }
        i = i + 1;
    }
    out
}

/// The time that an answer brings: that of its first event, 0 where there is none.
pub open spec fn answer_time(raws: Seq<String>) -> u64 {
    if raws.len() > 0 && raw_seconds(raws[0]@) is Some {
        raw_seconds(raws[0]@)->0
    } else {
        0
    }
}

/// The time that an answer, newest event first, brings.
pub fn backfill_time(raws: &Vec<String>) -> (r: u64)
    ensures
        r == answer_time(raws@),
{
    if raws.len() > 0 {
        if let Some(t) = event_seconds(&raws[0]) {
            return t;
        }
    }
    0
}

/// The rooms after the first `n` answers were entered.
pub open spec fn filled(rooms: Seq<RoomInfo>, answers: Seq<(usize, u64)>, n: int) -> Seq<RoomInfo>
    decreases n,
{
    if n <= 0 {
        rooms
    } else {
        let before = filled(rooms, answers, n - 1);
        let (at, t) = answers[n - 1];
        if t > 0 {
            before.update(at as int, RoomInfo { last_activity_ts: t, ..before[at as int] })
        } else {
            before
        }
    }
}

/// Enters the times that were asked for.
pub fn apply_backfill(rooms: &mut Vec<RoomInfo>, answers: &Vec<(usize, u64)>)
    requires
        forall|i: int| 0 <= i < answers@.len() ==> (#[trigger] answers@[i]).0 < old(rooms)@.len(),
    ensures
        final(rooms)@ == filled(old(rooms)@, answers@, answers@.len() as int),
        final(rooms)@.len() == old(rooms)@.len(),
{
    let mut i: usize = 0;
    while i < answers.len()
        invariant
            i <= answers@.len(),
            rooms@.len() == old(rooms)@.len(),
            rooms@ == filled(old(rooms)@, answers@, i as int),
            forall|j: int|
                0 <= j < answers@.len() ==> (#[trigger] answers@[j]).0 < old(rooms)@.len(),
        decreases answers@.len() - i,
    {
        let (at, t) = answers[i];
        assert(answers@[i as int].0 < old(rooms)@.len());
        if t > 0 {
            let mut room = rooms[at].clone();
            room.last_activity_ts = t;
            rooms.set(at, room);
        }
        i = i + 1;
    }
}

/// Whether the time of any room is known, so that the list is worth showing again.
pub fn has_times(rooms: &Vec<RoomInfo>) -> (r: bool)
    ensures
        r == exists|i: int| 0 <= i < rooms@.len() && (#[trigger] rooms@[i]).last_activity_ts > 0,
{
    let mut i: usize = 0;
    while i < rooms.len()
        invariant
            i <= rooms@.len(),
            forall|j: int| 0 <= j < i ==> (#[trigger] rooms@[j]).last_activity_ts == 0,
        decreases rooms@.len() - i,
    {
        if rooms[i].last_activity_ts > 0 {
            return true;
        }
        i = i + 1;
    }
    false
}

/// The counts of the first `n` rooms by room id.
pub open spec fn counts_of(rooms: Seq<RoomInfo>, n: int) -> Map<Seq<char>, (u64, u64)>
    decreases n,
{
    if n <= 0 {
        Map::empty()
    } else {
        counts_of(rooms, n - 1).insert(
            rooms[n - 1].room_id@,
            (rooms[n - 1].unread_count, rooms[n - 1].highlight_count),
        )
    }
}

/// The stored unread and highlight counts by room id.
pub fn stored_counts(rooms: &Vec<RoomInfo>) -> (r: Table<(u64, u64)>)
    ensures
        r.map() == counts_of(rooms@, rooms@.len() as int),
{
    let mut out: Table<(u64, u64)> = Table::new();
    let mut i: usize = 0;
    assert(out.map() =~= Map::empty());
    while i < rooms.len()
        invariant
            i <= rooms@.len(),
            out.map() == counts_of(rooms@, i as int),
        decreases rooms@.len() - i,
    {
        out.insert(
            rooms[i].room_id.clone(),
            (rooms[i].unread_count, rooms[i].highlight_count),
        );
        i = i + 1;
    }
    out
}

/// Whether the room list is built anew after a sync: after the first one, and
/// every few minutes.
pub fn should_update_rooms(is_first: bool, now_secs: u64, last_secs: u64) -> (r: bool)
    requires
        last_secs <= now_secs,
    ensures
        r == (is_first || now_secs - last_secs >= REFRESH_SECS),
{
    is_first || now_secs - last_secs >= REFRESH_SECS
}

/// Reconciling never loses a newer time: what is kept for a room does not go
/// back, and the room shows it.
pub proof fn law_times_never_go_back(times: Map<Seq<char>, u64>, room: RoomInfo, other: Seq<char>)
    ensures
        kept(kept_after(times, room), other) >= kept(times, other),
        with_later_time(times, room).last_activity_ts >= room.last_activity_ts,
        with_later_time(times, room).last_activity_ts == kept(
            kept_after(times, room),
            room.room_id@,
        ),
{
}

/// Events that arrive never take the time of a room back.
pub proof fn law_activity_never_goes_back(
    times: Map<Seq<char>, u64>,
    room: Seq<char>,
    raws: Seq<String>,
    other: Seq<char>,
)
    ensures
        kept(after_events(times, room, raws), other) >= kept(times, other),
{
}

/// Reconciling keeps the latest time of all: none of the rooms that were looked at, and
/// nothing that was kept before, is later than what is kept then; and what is kept is
/// one of these times.
pub proof fn law_latest_time_is_kept(
    times: Map<Seq<char>, u64>,
    rooms: Seq<RoomInfo>,
    n: int,
    room: Seq<char>,
)
    requires
        0 <= n <= rooms.len(),
    ensures
        ({
            let after = kept(kept_after_all(times, rooms, n), room);
            &&& after >= kept(times, room)
            &&& forall|i: int|
                0 <= i < n && (#[trigger] rooms[i]).room_id@ == room ==> after
                    >= rooms[i].last_activity_ts
            &&& after == kept(times, room) || exists|i: int|
                0 <= i < n && (#[trigger] rooms[i]).room_id@ == room && rooms[i].last_activity_ts
                    == after
        }),
    decreases n,
{
    if n > 0 {
        law_latest_time_is_kept(times, rooms, n - 1, room);
        let r = rooms[n - 1];
        let before = kept_after_all(times, rooms, n - 1);
        let after = kept(kept_after_all(times, rooms, n), room);
        if r.room_id@ == room && r.last_activity_ts > kept(before, room) {
            assert(rooms[n - 1].last_activity_ts == after);
        } else {
            assert(after == kept(before, room));
        }
    }
}

/// A stored time fills in for one that is missing, and for no other.
pub proof fn law_seeds_fill_gaps(times: Map<Seq<char>, u64>, rooms: Seq<RoomInfo>, n: int, i: int)
    requires
        0 <= i < n <= rooms.len(),
    ensures
        ({
            let after = seeded(times, rooms, n);
            let id = rooms[i].room_id@;
            &&& times.contains_key(id) ==> after.contains_key(id) && after[id] == times[id]
            &&& rooms[i].last_activity_ts > 0 ==> after.contains_key(id)
            &&& !times.contains_key(id) && rooms[i].last_activity_ts > 0 && (forall|j: int|
                0 <= j < n && j != i ==> (#[trigger] rooms[j]).room_id@ != id) ==> after[id]
                == rooms[i].last_activity_ts
        }),
    decreases n,
{
    let id = rooms[i].room_id@;
    let before = seeded(times, rooms, n - 1);
    lemma_seeded(times, rooms, n - 1, id);
    if i < n - 1 {
        law_seeds_fill_gaps(times, rooms, n - 1, i);
        if forall|j: int| 0 <= j < n && j != i ==> (#[trigger] rooms[j]).room_id@ != id {
            assert(rooms[n - 1].room_id@ != id);
        }
    }
}

proof fn lemma_seeded(times: Map<Seq<char>, u64>, rooms: Seq<RoomInfo>, n: int, id: Seq<char>)
    requires
        0 <= n <= rooms.len(),
    ensures
        times.contains_key(id) ==> seeded(times, rooms, n).contains_key(id) && seeded(
            times,
            rooms,
            n,
        )[id] == times[id],
        !times.contains_key(id) && (forall|j: int|
            0 <= j < n ==> (#[trigger] rooms[j]).room_id@ != id) ==> !seeded(
            times,
            rooms,
            n,
        ).contains_key(id),
    decreases n,
{
    if n > 0 {
        lemma_seeded(times, rooms, n - 1, id);
    }
}

/// The times that are known are remembered: the last one of each room.
pub proof fn law_known_times_are_remembered(
    times: Map<Seq<char>, u64>,
    rooms: Seq<RoomInfo>,
    n: int,
    i: int,
)
    requires
        0 <= i < n <= rooms.len(),
        rooms[i].last_activity_ts > 0,
        forall|j: int| i < j < n ==> (#[trigger] rooms[j]).room_id@ != rooms[i].room_id@,
    ensures
        remembered_times(times, rooms, n).contains_key(rooms[i].room_id@),
        remembered_times(times, rooms, n)[rooms[i].room_id@] == rooms[i].last_activity_ts,
    decreases n,
{
    if i < n - 1 {
        law_known_times_are_remembered(times, rooms, n - 1, i);
        assert(rooms[n - 1].room_id@ != rooms[i].room_id@);
    }
}

/// Of the events that arrived, the last one that is activity counts.
pub proof fn law_last_activity_counts(
    times: Map<Seq<char>, u64>,
    room: Seq<char>,
    raws: Seq<String>,
    p: int,
)
    requires
        0 <= p < raws.len(),
        raw_activity(raws[p]@),
        raw_seconds(raws[p]@) is Some,
        forall|j: int| p < j < raws.len() ==> !raw_activity((#[trigger] raws[j])@),
    ensures
        ({
            let after = after_events(times, room, raws);
            &&& after.contains_key(room)
            &&& after[room] >= raw_seconds(raws[p]@)->0
            &&& after[room] == raw_seconds(raws[p]@)->0 || after[room] == kept(times, room)
        }),
{
    lemma_last_activity(raws, raws.len() as int, p);
}

proof fn lemma_last_activity(raws: Seq<String>, n: int, p: int)
    requires
        0 <= p < n <= raws.len(),
        raw_activity(raws[p]@),
        forall|j: int| p < j < n ==> !raw_activity((#[trigger] raws[j])@),
    ensures
        last_activity(raws, n) == p,
    decreases n,
{
    if p < n - 1 {
        lemma_last_activity(raws, n - 1, p);
    }
}

/// Every room without a time is asked for, but for spaces and rooms that everybody
/// left, and no other room is.
pub proof fn law_only_missing_times_are_asked_for(rooms: Seq<RoomInfo>, n: int, i: int)
    requires
        0 <= i < n <= rooms.len(),
        rooms.len() <= usize::MAX,
    ensures
        lacking(rooms, n).contains(i as usize) <==> rooms[i].last_activity_ts == 0 && rooms[i].kind
            != RoomKind::Space && !starts_with(lowercase(rooms[i].name@), "empty room"@),
    decreases n,
{
    let rest = lacking(rooms, n - 1);
    let all = lacking(rooms, n);
    lemma_lacking(rooms, n - 1);
    if i < n - 1 {
        law_only_missing_times_are_asked_for(rooms, n - 1, i);
        if rest.contains(i as usize) {
            let k = choose|k: int| 0 <= k < rest.len() && rest[k] == i as usize;
            assert(all[k] == i as usize);
        }
        if all.contains(i as usize) {
            let k = choose|k: int| 0 <= k < all.len() && all[k] == i as usize;
            if k < rest.len() {
                assert(rest[k] == i as usize);
            }
        }
    } else {
        if lacks_time(rooms[i]) {
            assert(all[rest.len() as int] == i as usize);
        } else if all.contains(i as usize) {
            let k = choose|k: int| 0 <= k < all.len() && all[k] == i as usize;
            assert(rest[k] < n - 1);
        }
    }
}

proof fn lemma_lacking(rooms: Seq<RoomInfo>, n: int)
    requires
        0 <= n <= rooms.len() <= usize::MAX,
    ensures
        forall|k: int| 0 <= k < lacking(rooms, n).len() ==> (#[trigger] lacking(rooms, n)[k]) < n,
    decreases n,
{
    if n > 0 {
        lemma_lacking(rooms, n - 1);
        let rest = lacking(rooms, n - 1);
        let all = lacking(rooms, n);
        assert forall|k: int| 0 <= k < all.len() implies (#[trigger] all[k]) < n by {
            if k < rest.len() {
                assert(all[k] == rest[k]);
            }
        }
    }
}

/// An answer gives its room its time, and touches no other room; one without a time
/// touches none.
pub proof fn law_answers_fill_their_room(rooms: Seq<RoomInfo>, at: usize, t: u64, other: int)
    requires
        at < rooms.len(),
        0 <= other < rooms.len(),
    ensures
        ({
            let after = filled(rooms, seq![(at, t)], 1);
            &&& after.len() == rooms.len()
            &&& t > 0 ==> after[at as int].last_activity_ts == t && after[at as int].room_id
                == rooms[at as int].room_id
            &&& other != at ==> after[other] == rooms[other]
            &&& t == 0 ==> after == rooms
        }),
{
    reveal_with_fuel(filled, 2);
}

/// The counts of a room are those that it has in the stored list.
pub proof fn law_counts_go_by_room(rooms: Seq<RoomInfo>, n: int, i: int)
    requires
        0 <= i < n <= rooms.len(),
        forall|j: int| i < j < n ==> (#[trigger] rooms[j]).room_id@ != rooms[i].room_id@,
    ensures
        counts_of(rooms, n).contains_key(rooms[i].room_id@),
        counts_of(rooms, n)[rooms[i].room_id@] == (rooms[i].unread_count, rooms[i].highlight_count),
    decreases n,
{
    if i < n - 1 {
        law_counts_go_by_room(rooms, n - 1, i);
        assert(rooms[n - 1].room_id@ != rooms[i].room_id@);
    }
}

/// The time of an answer, which comes newest first, is that of its first event.
pub proof fn law_answer_is_timed_by_its_first_event(raws: Seq<String>)
    ensures
        raws.len() > 0 && raw_seconds(raws[0]@) is Some ==> Some(answer_time(raws)) == raw_seconds(
            raws[0]@,
        ),
        raws.len() == 0 ==> answer_time(raws) == 0,
{
}

/// An answer whose first event has no time brings none, whatever comes behind it.
pub proof fn law_answer_without_time_brings_none(raws: Seq<String>)
    requires
        raws.len() > 0,
        json_number(raws[0]@, "/origin_server_ts"@) is None,
    ensures
        answer_time(raws) == 0,
{
}

/// The room list is built after the first sync, and again once three minutes have
/// passed.
pub proof fn law_room_list_is_built_every_three_minutes(
    is_first: bool,
    now_secs: u64,
    last_secs: u64,
    due: bool,
)
    requires
        last_secs <= now_secs,
        call_ensures(should_update_rooms, (is_first, now_secs, last_secs), due),
    ensures
        is_first ==> due,
        now_secs >= last_secs + 180 ==> due,
        !is_first && now_secs < last_secs + 180 ==> !due,
{
}

} // verus!
