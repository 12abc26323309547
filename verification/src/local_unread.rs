//! Unread counts that are kept locally.
//!
//! The server only counts messages that match push rules. This store counts
//! every message that arrives in a room which the user is not viewing, so that
//! channels without keyword rules show how much is new as well.

use vstd::prelude::*;
use vstd::hash_set::StringHashSet;
use crate::table::Table;

verus! {

/// What a change of a room's counts leads to: the badge shows the counts, and
/// with `persist` they are written to disk.
#[derive(Debug)]
pub struct UnreadChange {
    pub room_id: String,
    pub unread: u32,
    pub highlights: u32,
    pub persist: bool,
}

/// The counts of a room whose id is not in `counts` are zero.
pub open spec fn counts_of(counts: Map<Seq<char>, (u32, u32)>, room: Seq<char>) -> (u32, u32) {
    if counts.contains_key(room) {
        counts[room]
    } else {
        (0, 0)
    }
}

/// One more, unless the counter is at its end.
pub open spec fn bumped(n: u32) -> u32 {
    if n < u32::MAX {
        (n + 1) as u32
    } else {
        n
    }
}

/// The counts of a room after one more message.
pub open spec fn counted(counts: (u32, u32), is_highlight: bool) -> (u32, u32) {
    (
        bumped(counts.0),
        if is_highlight {
            bumped(counts.1)
        } else {
            counts.1
        },
    )
}

/// Unread messages and highlights by room.
pub struct LocalUnreadStore {
    counts: Table<(u32, u32)>,
    /// Rooms that were read on another device since their last message.
    read_elsewhere: StringHashSet,
}

impl LocalUnreadStore {
    /// The counts by room.
    pub closed spec fn counts(&self) -> Map<Seq<char>, (u32, u32)> {
        self.counts.map()
    }

    /// The rooms that were read on another device since their last message.
    pub closed spec fn read_elsewhere(&self) -> Set<Seq<char>> {
        self.read_elsewhere@
    }

    /// A room that was read elsewhere shows no count.
    #[verifier::type_invariant]
    spec fn inv(self) -> bool {
        Self::suppressed(self.counts, self.read_elsewhere)
    }

    spec fn suppressed(counts: Table<(u32, u32)>, elsewhere: StringHashSet) -> bool {
        forall|room: Seq<char>| #[trigger]
            elsewhere@.contains(room) ==> counts_of(counts.map(), room) == (0u32, 0u32)
    }

    pub fn new() -> (r: Self)
        ensures
            r.counts() == Map::<Seq<char>, (u32, u32)>::empty(),
            r.read_elsewhere() == Set::<Seq<char>>::empty(),
    {
        LocalUnreadStore { counts: Table::new(), read_elsewhere: StringHashSet::new() }
    }

    /// Takes over the rows that were stored. Rows without counts are passed over,
    /// and so are those of rooms that were read elsewhere, which go on showing no
    /// count.
    pub fn load(&mut self, rows: Vec<(String, u32, u32)>)
        ensures
            final(self).counts() == with_rows(
                old(self).counts(),
                old(self).read_elsewhere(),
                rows@,
            ),
            final(self).read_elsewhere() == old(self).read_elsewhere(),
    {
        let mut counts: Table<(u32, u32)> = Table::new();
        proof {
            use_type_invariant(&*self);
        }
        std::mem::swap(&mut self.counts, &mut counts);
        let ghost all = rows@;
        for row in it: rows
            invariant
                it.seq() == all,
                counts.map() == with_rows(
                    old(self).counts(),
                    old(self).read_elsewhere(),
                    all.take(it.index()),
                ),
                self.read_elsewhere@ == old(self).read_elsewhere(),
                Self::suppressed(counts, self.read_elsewhere),
        {
            let ghost i = it.index();
            assert(row == all[i]);
            assert(all.take(i + 1).drop_last() == all.take(i));
            if (row.1 > 0 || row.2 > 0) && !self.read_elsewhere.contains(row.0.as_str()) {
                counts.insert(row.0, (row.1, row.2));
            }
        }
        assert(all.take(all.len() as int) == all);
        self.counts = counts;
    }

    /// The unread messages and highlights of a room.
    pub fn get(&self, room_id: &str) -> (r: (u32, u32))
        ensures
            r == counts_of(self.counts(), room_id@),
            self.read_elsewhere().contains(room_id@) ==> r == (0u32, 0u32),
    {
        proof {
            use_type_invariant(self);
        }
        match self.counts.get(room_id) {
            Some(c) => *c,
            None => (0, 0),
        }
    }

    /// Whether the room was read on another device since its last message.
    pub fn is_read_elsewhere(&self, room_id: &str) -> (r: bool)
        ensures
            r == self.read_elsewhere().contains(room_id@),
    {
        self.read_elsewhere.contains(room_id)
    }

    /// Counts a message in a room that is not open. A room that was read
    /// elsewhere counts again from here on.
    pub fn increment(&mut self, room_id: &str, is_highlight: bool) -> (r: UnreadChange)
        ensures
            (r.unread, r.highlights) == counted(
                counts_of(old(self).counts(), room_id@),
                is_highlight,
            ),
            r.room_id@ == room_id@,
            r.persist,
            final(self).counts() == old(self).counts().insert(room_id@, (r.unread, r.highlights)),
            final(self).read_elsewhere() == old(self).read_elsewhere().remove(room_id@),
    {
        proof {
            use_type_invariant(&*self);
        }
        let (u, h) = self.get(room_id);
        let unread: u32 = if u < u32::MAX {
            u + 1
        } else {
            u
        };
        let highlights: u32 = if is_highlight && h < u32::MAX {
            h + 1
        } else {
            h
        };
        self.set(room_id, unread, highlights, false);
        UnreadChange { room_id: room_id.to_owned(), unread, highlights, persist: true }
    }

    /// Notes that a room was read on another device: the badge goes to zero,
    /// and what is on disk stays until the room is opened here.
    pub fn mark_read_elsewhere(&mut self, room_id: &str) -> (r: UnreadChange)
        ensures
            r.room_id@ == room_id@,
            r.unread == 0,
            r.highlights == 0,
            !r.persist,
            final(self).counts() == old(self).counts().insert(room_id@, (0u32, 0u32)),
            final(self).read_elsewhere() == old(self).read_elsewhere().insert(room_id@),
    {
        self.set(room_id, 0, 0, true);
        UnreadChange { room_id: room_id.to_owned(), unread: 0, highlights: 0, persist: false }
    }

    /// Resets a room that the user has opened.
    pub fn mark_read(&mut self, room_id: &str) -> (r: UnreadChange)
        ensures
            r.room_id@ == room_id@,
            r.unread == 0,
            r.highlights == 0,
            r.persist,
            final(self).counts() == old(self).counts().insert(room_id@, (0u32, 0u32)),
            final(self).read_elsewhere() == old(self).read_elsewhere().remove(room_id@),
    {
        self.set(room_id, 0, 0, false);
        UnreadChange { room_id: room_id.to_owned(), unread: 0, highlights: 0, persist: true }
    }

    fn set(&mut self, room_id: &str, unread: u32, highlights: u32, elsewhere: bool)
        requires
            elsewhere ==> unread == 0 && highlights == 0,
        ensures
            final(self).counts() == old(self).counts().insert(room_id@, (unread, highlights)),
            final(self).read_elsewhere() == (if elsewhere {
                old(self).read_elsewhere().insert(room_id@)
            } else {
                old(self).read_elsewhere().remove(room_id@)
            }),
    {
        proof {
            use_type_invariant(&*self);
        }
        let mut flags = StringHashSet::new();
        let mut counts: Table<(u32, u32)> = Table::new();
        std::mem::swap(&mut self.read_elsewhere, &mut flags);
        std::mem::swap(&mut self.counts, &mut counts);
        let ghost flags0 = flags@;
        let ghost counts0 = counts.map();
        counts.insert(room_id.to_owned(), (unread, highlights));
        if elsewhere {
            flags.insert(room_id.to_owned());
        } else {
            flags.remove(room_id);
        }
        proof {
            assert forall|room: Seq<char>| #[trigger] flags@.contains(room) implies counts_of(
                counts.map(),
                room,
            ) == (0u32, 0u32) by {
                if room != room_id@ {
                    assert(flags0.contains(room));
                }
            }
        }
        *self = LocalUnreadStore { counts, read_elsewhere: flags };
    }

    /// Every room with a count, in the order in which the rooms were first
    /// counted.
    pub fn for_each_nonzero(&self) -> (r: Vec<(String, u32, u32)>)
        ensures
            forall|i: int|
                #![trigger r@[i]]
                0 <= i < r@.len() ==> (r@[i].1 > 0 || r@[i].2 > 0) && counts_of(
                    self.counts(),
                    r@[i].0@,
                ) == (r@[i].1, r@[i].2),
            forall|room: Seq<char>|
                counts_of(self.counts(), room) != (0u32, 0u32) ==> exists|i: int|
                    0 <= i < r@.len() && (#[trigger] r@[i]).0@ == room,
            forall|i: int, j: int|
                0 <= i < j < r@.len() ==> (#[trigger] r@[i]).0@ != (#[trigger] r@[j]).0@,
    {
        let n: usize = self.counts.len();
        let ghost entries = self.counts.entries();
        let mut out: Vec<(String, u32, u32)> = Vec::new();
        let ghost mut from: Seq<int> = Seq::empty();
        let mut k: usize = 0;
        while k < n
            invariant
                k <= n,
                entries == self.counts.entries(),
                n == entries.len(),
                crate::table::distinct_keys(entries),
                from.len() == out@.len(),
                forall|i: int|
                    #![trigger from[i]]
                    #![trigger out@[i]]
                    0 <= i < out@.len() ==> 0 <= from[i] < k && out@[i].0@ == entries[from[i]].0
                        && (out@[i].1, out@[i].2) == entries[from[i]].1 && (out@[i].1 > 0
                        || out@[i].2 > 0),
                forall|i: int, j: int|
                    #![trigger from[i], from[j]]
                    0 <= i < j < from.len() ==> from[i] < from[j],
                forall|p: int|
                    0 <= p < k && (#[trigger] entries[p]).1 != (0u32, 0u32) ==> exists|i: int|
                        0 <= i < out@.len() && (#[trigger] out@[i]).0@ == entries[p].0,
            decreases n - k,
        {
            let c = *self.counts.value_at(k);
            let ghost out0 = out@;
            let ghost from0 = from;
            if c.0 > 0 || c.1 > 0 {
                out.push((self.counts.key_at(k).clone(), c.0, c.1));
                proof {
                    from = from.push(k as int);
                    assert forall|i: int|
                        #![trigger from[i]]
                        #![trigger out@[i]]
                        0 <= i < out@.len() implies 0 <= from[i] < k + 1 && out@[i].0@
                        == entries[from[i]].0 && (out@[i].1, out@[i].2) == entries[from[i]].1 && (
                    out@[i].1 > 0 || out@[i].2 > 0) by {
                        if i < out0.len() {
                            assert(from0[i] == from[i] && out0[i] == out@[i]);
                        }
                    }
                    assert forall|i: int, j: int|
                        #![trigger from[i], from[j]]
                        0 <= i < j < from.len() implies from[i] < from[j] by {
                        assert(from0[i] == from[i]);
                        if j < from0.len() {
                            assert(from0[j] == from[j]);
                        }
                    }
                    assert(out@[out0.len() as int].0@ == entries[k as int].0);
                }
            }
            proof {
                assert forall|p: int|
                    0 <= p < k + 1 && (#[trigger] entries[p]).1 != (0u32, 0u32) implies exists|
                    i: int,
                |
                    0 <= i < out@.len() && (#[trigger] out@[i]).0@ == entries[p].0 by {
                    if p < k {
                        let i = choose|i: int|
                            0 <= i < out0.len() && (#[trigger] out0[i]).0@ == entries[p].0;
                        assert(out@[i].0@ == entries[p].0);
                    } else {
                        assert(out@[out0.len() as int].0@ == entries[p].0);
                    }
                }
            }
            k = k + 1;
        }
        proof {
            assert forall|i: int|
                #![trigger out@[i]]
                0 <= i < out@.len() implies (out@[i].1 > 0 || out@[i].2 > 0) && counts_of(
                self.counts(),
                out@[i].0@,
            ) == (out@[i].1, out@[i].2) by {
                crate::table::lemma_entry_position_at(entries, from[i]);
            }
            assert forall|room: Seq<char>|
                counts_of(self.counts(), room) != (0u32, 0u32) implies exists|i: int|
                0 <= i < out@.len() && (#[trigger] out@[i]).0@ == room by {
                crate::table::lemma_entry_position(entries, room, 0);
                let p = crate::table::entry_position(entries, room, 0);
                assert(self.counts().contains_key(room));
                assert(entries[p].1 != (0u32, 0u32));
            }
            assert forall|i: int, j: int| 0 <= i < j < out@.len() implies (#[trigger] out@[i]).0@
                != (#[trigger] out@[j]).0@ by {
                assert(from[i] < from[j]);
                assert(entries[from[i]].0 != entries[from[j]].0);
            }
        }
        out
    }
}

impl Default for LocalUnreadStore {
    fn default() -> (r: Self)
        ensures
            r.counts() == Map::<Seq<char>, (u32, u32)>::empty(),
            r.read_elsewhere() == Set::<Seq<char>>::empty(),
    {
        LocalUnreadStore::new()
    }
}

/// The counts with the stored rows taken over, but for those of rooms that were
/// read elsewhere.
pub open spec fn with_rows(
    counts: Map<Seq<char>, (u32, u32)>,
    elsewhere: Set<Seq<char>>,
    rows: Seq<(String, u32, u32)>,
) -> Map<Seq<char>, (u32, u32)>
    decreases rows.len(),
{
    if rows.len() == 0 {
        counts
    } else {
        let before = with_rows(counts, elsewhere, rows.drop_last());
        let row = rows.last();
        if (row.1 > 0 || row.2 > 0) && !elsewhere.contains(row.0@) {
            before.insert(row.0@, (row.1, row.2))
        } else {
            before
        }
    }
}

// ---- laws ---------------------------------------------------------------------

/// Once a room was read, here or elsewhere, its next message is the first one that
/// counts, and no other room's counts change.
pub proof fn law_counting_resumes(
    counts: Map<Seq<char>, (u32, u32)>,
    room: Seq<char>,
    other: Seq<char>,
    is_highlight: bool,
)
    requires
        other != room,
    ensures
        ({
            let read = counts.insert(room, (0u32, 0u32));
            let next = counted(counts_of(read, room), is_highlight);
            &&& next.0 == 1
            &&& next.1 == (if is_highlight {
                1
            } else {
                0int
            })
            &&& counts_of(read.insert(room, next), other) == counts_of(counts, other)
        }),
{
}

/// Every message counts as unread, and as a highlight only when it is one; a counter
/// at its end stays there.
pub proof fn law_messages_are_counted(counts: (u32, u32), is_highlight: bool)
    ensures
        counts.0 < u32::MAX ==> counted(counts, is_highlight).0 == counts.0 + 1,
        counts.0 == u32::MAX ==> counted(counts, is_highlight).0 == u32::MAX,
        is_highlight && counts.1 < u32::MAX ==> counted(counts, is_highlight).1 == counts.1 + 1,
        is_highlight && counts.1 == u32::MAX ==> counted(counts, is_highlight).1 == u32::MAX,
        !is_highlight ==> counted(counts, is_highlight).1 == counts.1,
{
}

/// The stored counts of a room are taken over, unless the room was read elsewhere;
/// rooms that are not stored keep their counts.
pub proof fn law_stored_counts_are_taken_over(
    counts: Map<Seq<char>, (u32, u32)>,
    elsewhere: Set<Seq<char>>,
    rows: Seq<(String, u32, u32)>,
    i: int,
    room: Seq<char>,
)
    requires
        0 <= i < rows.len(),
        rows[i].0@ == room,
        rows[i].1 > 0 || rows[i].2 > 0,
        forall|j: int| i < j < rows.len() ==> (#[trigger] rows[j]).0@ != room,
    ensures
        !elsewhere.contains(room) ==> counts_of(with_rows(counts, elsewhere, rows), room) == (
            rows[i].1,
            rows[i].2,
        ),
        elsewhere.contains(room) ==> counts_of(with_rows(counts, elsewhere, rows), room)
            == counts_of(counts, room),
    decreases rows.len(),
{
    let before = rows.drop_last();
    if elsewhere.contains(room) {
        lemma_suppressed_rows(counts, elsewhere, rows, room);
    } else if i < rows.len() - 1 {
        assert(rows[rows.len() - 1].0@ != room);
        assert forall|j: int| i < j < before.len() implies (#[trigger] before[j]).0@ != room by {
            assert(rows[j].0@ != room);
        }
        law_stored_counts_are_taken_over(counts, elsewhere, before, i, room);
    }
}

proof fn lemma_suppressed_rows(
    counts: Map<Seq<char>, (u32, u32)>,
    elsewhere: Set<Seq<char>>,
    rows: Seq<(String, u32, u32)>,
    room: Seq<char>,
)
    requires
        elsewhere.contains(room) || forall|j: int|
            0 <= j < rows.len() ==> (#[trigger] rows[j]).0@ != room || (rows[j].1 == 0 && rows[j].2
                == 0),
    ensures
        counts_of(with_rows(counts, elsewhere, rows), room) == counts_of(counts, room),
    decreases rows.len(),
{
    if rows.len() > 0 {
        let before = rows.drop_last();
        assert forall|j: int| 0 <= j < before.len() implies before[j] == rows[j] by {}
        lemma_suppressed_rows(counts, elsewhere, before, room);
        assert(elsewhere.contains(room) || rows[rows.len() - 1].0@ != room || (rows.last().1 == 0
            && rows.last().2 == 0));
    }
}

/// Rooms that no stored row with a count names keep their counts.
pub proof fn law_other_rooms_keep_their_counts(
    counts: Map<Seq<char>, (u32, u32)>,
    elsewhere: Set<Seq<char>>,
    rows: Seq<(String, u32, u32)>,
    room: Seq<char>,
)
    requires
        forall|j: int|
            0 <= j < rows.len() ==> (#[trigger] rows[j]).0@ != room || (rows[j].1 == 0 && rows[j].2
                == 0),
    ensures
        counts_of(with_rows(counts, elsewhere, rows), room) == counts_of(counts, room),
{
    lemma_suppressed_rows(counts, elsewhere, rows, room);
}

} // verus!
