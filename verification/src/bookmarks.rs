//! Personal bookmarks on messages. They are stored locally and never sent to
//! the server.

use vstd::prelude::*;

verus! {

/// A bookmarked message.
#[derive(Debug)]
pub struct BookmarkEntry {
    pub room_id: String,
    pub room_name: String,
    pub event_id: String,
    pub sender: String,
    pub body_preview: String,
    /// Unix time of the message in seconds.
    pub timestamp: u64,
}

impl Clone for BookmarkEntry {
    fn clone(&self) -> (r: Self)
        ensures
            r == *self,
    {
        BookmarkEntry {
            room_id: self.room_id.clone(),
            room_name: self.room_name.clone(),
            event_id: self.event_id.clone(),
            sender: self.sender.clone(),
            body_preview: self.body_preview.clone(),
            timestamp: self.timestamp,
        }
    }
}

/// Whether an entry with this event id is listed.
pub open spec fn bookmarked(entries: Seq<BookmarkEntry>, event_id: Seq<char>) -> bool {
    exists|i: int| 0 <= i < entries.len() && (#[trigger] entries[i]).event_id@ == event_id
}

/// The list with one more bookmark; a message is bookmarked at most once.
pub open spec fn added(entries: Seq<BookmarkEntry>, entry: BookmarkEntry) -> Seq<BookmarkEntry> {
    if bookmarked(entries, entry.event_id@) {
        entries
    } else {
        entries.push(entry)
    }
}

/// The list without the bookmarks of an event.
pub open spec fn removed(entries: Seq<BookmarkEntry>, event_id: Seq<char>) -> Seq<BookmarkEntry> {
    entries.filter(|e: BookmarkEntry| e.event_id@ != event_id)
}

fn clone_entries(entries: &Vec<BookmarkEntry>) -> (r: Vec<BookmarkEntry>)
    ensures
        r@ == entries@,
{
    let mut out: Vec<BookmarkEntry> = Vec::new();
    let mut i: usize = 0;
    while i < entries.len()
        invariant
            i <= entries.len(),
            out@ == entries@.subrange(0, i as int),
        decreases entries.len() - i,
    {
        out.push(entries[i].clone());
        i = i + 1;
        assert(out@ == entries@.subrange(0, i as int));
    }
    assert(entries@.subrange(0, i as int) == entries@);
    out
}

/// What is known of the bookmarks: the list in memory, or else what was read from
/// disk.
pub open spec fn known(
    cached: Option<Seq<BookmarkEntry>>,
    disk: Option<Vec<BookmarkEntry>>,
) -> Seq<BookmarkEntry> {
    match cached {
        Some(c) => c,
        None => match disk {
            Some(d) => d@,
            None => Seq::empty(),
        },
    }
}

/// The bookmarks, kept in memory once they were read.
pub struct BookmarkStore {
    cache: Option<Vec<BookmarkEntry>>,
    dirty: bool,
}

impl BookmarkStore {
    /// The list in memory, once there is one.
    pub closed spec fn cached(&self) -> Option<Seq<BookmarkEntry>> {
        match self.cache {
            Some(c) => Some(c@),
            None => None,
        }
    }

    /// Whether the list in memory has to be written out.
    pub closed spec fn unsaved(&self) -> bool {
        self.dirty
    }

    pub fn new() -> (r: Self)
        ensures
            r.cached() is None,
            !r.unsaved(),
    {
        BookmarkStore { cache: None, dirty: false }
    }

    /// Whether the bookmarks have been read.
    pub fn is_loaded(&self) -> (r: bool)
        ensures
            r == (self.cached() is Some),
    {
        self.cache.is_some()
    }

    /// All bookmarks. The first call takes what was read from disk, None when
    /// nothing readable was there; later calls answer from memory.
    pub fn load(&mut self, disk: Option<Vec<BookmarkEntry>>) -> (r: Vec<BookmarkEntry>)
        ensures
            r@ == known(old(self).cached(), disk),
            final(self).cached() == Some(r@),
            final(self).unsaved() == old(self).unsaved(),
    {
        if let Some(entries) = &self.cache {
            return clone_entries(entries);
        }
        let entries = match disk {
            Some(d) => d,
            None => Vec::new(),
        };
        let out = clone_entries(&entries);
        self.cache = Some(entries);
        out
    }

    /// Adds a bookmark, unless the event is bookmarked already. Returns the
    /// updated list. What was read from disk counts as long as nothing is in
    /// memory.
    pub fn add(&mut self, disk: Option<Vec<BookmarkEntry>>, entry: BookmarkEntry) -> (r: Vec<
        BookmarkEntry,
    >)
        ensures
            r@ == added(known(old(self).cached(), disk), entry),
            final(self).cached() == Some(r@),
            final(self).unsaved() == (old(self).unsaved() || !bookmarked(
                known(old(self).cached(), disk),
                entry.event_id@,
            )),
    {
        let mut entries = self.load(disk);
        let ghost before = entries@;
        let mut i: usize = 0;
        while i < entries.len()
            invariant
                i <= entries.len(),
                entries@ == before,
                before == known(old(self).cached(), disk),
                self.cached() == Some(before),
                self.unsaved() == old(self).unsaved(),
                forall|j: int| 0 <= j < i ==> (#[trigger] entries@[j]).event_id@ != entry.event_id@,
            decreases entries.len() - i,
        {
            if crate::text::same(entries[i].event_id.as_str(), entry.event_id.as_str()) {
                assert(before[i as int].event_id@ == entry.event_id@);
                return entries;
            }
            i = i + 1;
        }
        entries.push(entry);
        self.cache = Some(clone_entries(&entries));
        self.dirty = true;
        entries
    }

    /// Removes the bookmark of an event. Returns the updated list. What was read
    /// from disk counts as long as nothing is in memory.
    pub fn remove(&mut self, disk: Option<Vec<BookmarkEntry>>, event_id: &str) -> (r: Vec<
        BookmarkEntry,
    >)
        ensures
            r@ == removed(known(old(self).cached(), disk), event_id@),
            final(self).cached() == Some(r@),
            final(self).unsaved(),
    {
        let entries = self.load(disk);
        let mut out: Vec<BookmarkEntry> = Vec::new();
        let ghost keep = |e: BookmarkEntry| e.event_id@ != event_id@;
        let mut i: usize = 0;
        assert(entries@.subrange(0, 0).filter(keep) == Seq::<BookmarkEntry>::empty()) by {
            reveal(Seq::filter);
        }
        while i < entries.len()
            invariant
                i <= entries.len(),
                keep == (|e: BookmarkEntry| e.event_id@ != event_id@),
                out@ == entries@.subrange(0, i as int).filter(keep),
                entries@ == known(old(self).cached(), disk),
            decreases entries.len() - i,
        {
            proof {
                let upto = entries@.subrange(0, i + 1);
                assert(upto.drop_last() == entries@.subrange(0, i as int));
                reveal(Seq::filter);
            }
            if !crate::text::same(entries[i].event_id.as_str(), event_id) {
                out.push(entries[i].clone());
            }
            i = i + 1;
        }
        assert(entries@.subrange(0, i as int) == entries@);
        self.cache = Some(clone_entries(&out));
        self.dirty = true;
        out
    }

    /// Whether the list has to be written out; the caller then writes it.
    pub fn take_dirty(&mut self) -> (r: bool)
        ensures
            r == old(self).unsaved(),
            !final(self).unsaved(),
            final(self).cached() == old(self).cached(),
    {
        let d = self.dirty;
        self.dirty = false;
        d
    }
}

// ---- laws ---------------------------------------------------------------------

/// Bookmarking an event twice is bookmarking it once.
pub proof fn law_add_idempotent(
    entries: Seq<BookmarkEntry>,
    a: BookmarkEntry,
    b: BookmarkEntry,
)
    requires
        a.event_id@ == b.event_id@,
    ensures
        added(added(entries, a), b) == added(entries, a),
{
    let once = added(entries, a);
    if !bookmarked(entries, a.event_id@) {
        assert(once[entries.len() as int].event_id@ == b.event_id@);
    }
    assert(bookmarked(once, b.event_id@));
}

/// A removed bookmark is gone, and no other bookmark is.
pub proof fn law_removed_is_gone(entries: Seq<BookmarkEntry>, event_id: Seq<char>)
    ensures
        !bookmarked(removed(entries, event_id), event_id),
        forall|e: BookmarkEntry|
            entries.contains(e) && e.event_id@ != event_id ==> removed(entries, event_id).contains(
                e,
            ),
{
    let keep = |e: BookmarkEntry| e.event_id@ != event_id;
    broadcast use vstd::seq_lib::group_filter_ensures;
}

/// Removing the bookmark just added gives the list back.
pub proof fn law_remove_undoes_add(entries: Seq<BookmarkEntry>, entry: BookmarkEntry)
    requires
        !bookmarked(entries, entry.event_id@),
    ensures
        removed(added(entries, entry), entry.event_id@) == entries,
{
    let keep = |e: BookmarkEntry| e.event_id@ != entry.event_id@;
    assert(entries.push(entry).drop_last() == entries);
    lemma_filter_all(entries, keep);
    reveal(Seq::filter);
}

proof fn lemma_filter_all(entries: Seq<BookmarkEntry>, keep: spec_fn(BookmarkEntry) -> bool)
    requires
        forall|i: int| 0 <= i < entries.len() ==> keep(#[trigger] entries[i]),
    ensures
        entries.filter(keep) == entries,
    decreases entries.len(),
{
    reveal(Seq::filter);
    if entries.len() > 0 {
        let front = entries.drop_last();
        assert forall|i: int| 0 <= i < front.len() implies keep(#[trigger] front[i]) by {
            assert(front[i] == entries[i]);
        }
        lemma_filter_all(front, keep);
        assert(keep(entries[entries.len() - 1]));
        assert(front.push(entries.last()) == entries);
    }
}

/// A message that is bookmarked is listed, at the end of the list; all bookmarks
/// that were there stay where they are.
pub proof fn law_bookmarks_are_listed(entries: Seq<BookmarkEntry>, entry: BookmarkEntry)
    ensures
        bookmarked(added(entries, entry), entry.event_id@),
        added(entries, entry).take(entries.len() as int) == entries,
        !bookmarked(entries, entry.event_id@) ==> added(entries, entry).last() == entry
            && added(entries, entry).len() == entries.len() + 1,
{
    let then = added(entries, entry);
    if !bookmarked(entries, entry.event_id@) {
        assert(then[entries.len() as int] == entry);
    }
    assert(then.take(entries.len() as int) == entries);
}

/// What is in memory counts before what is on disk, which counts where nothing is in
/// memory.
pub proof fn law_memory_counts_before_disk(
    cached: Option<Seq<BookmarkEntry>>,
    disk: Option<Vec<BookmarkEntry>>,
)
    ensures
        cached is Some ==> known(cached, disk) == cached->0,
        cached is None && disk is Some ==> known(cached, disk) == disk->0@,
        cached is None && disk is None ==> known(cached, disk).len() == 0,
{
}

} // verus!
