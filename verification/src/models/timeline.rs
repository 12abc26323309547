//! The message list of one room.
//!
//! All changes to a room's messages go through [`Timeline`], which keeps on
//! every change:
//!
//! 1. the list is sorted ascending by timestamp;
//! 2. no two messages share a non-empty event id;
//! 3. the event index holds exactly the non-empty event ids of the list;
//! 4. the cached count and timestamps are those of the list.
//!
//! What changed is recorded as a list of [`Change`]s that a list model can be
//! kept in step with: each splice is one "items changed" signal.

use vstd::prelude::*;
use vstd::hash_set::StringHashSet;
use crate::models::message_object::MessageObject;

verus! {

/// One step that brings a view of the timeline up to date.
#[derive(Debug)]
pub enum Change {
    /// `removed` messages at `position` give way to `added`.
    Splice { position: u32, removed: u32, added: Vec<MessageObject> },
    /// The message at `position` changed in place.
    Updated { position: u32 },
    /// The number of messages changed.
    NItems,
    /// The oldest timestamp changed.
    OldestTimestamp,
    /// The newest timestamp changed.
    NewestTimestamp,
    /// The pagination token changed.
    PrevBatchToken,
    /// Whether there is a pagination token changed.
    HasPrevBatch,
}

/// A change with its messages as a sequence.
pub enum ChangeView {
    Splice { position: int, removed: int, added: Seq<MessageObject> },
    Updated { position: int },
    NItems,
    OldestTimestamp,
    NewestTimestamp,
    PrevBatchToken,
    HasPrevBatch,
}

impl View for Change {
    type V = ChangeView;

    open spec fn view(&self) -> ChangeView {
        match self {
            Change::Splice { position, removed, added } => ChangeView::Splice {
                position: *position as int,
                removed: *removed as int,
                added: added@,
            },
            Change::Updated { position } => ChangeView::Updated { position: *position as int },
            Change::NItems => ChangeView::NItems,
            Change::OldestTimestamp => ChangeView::OldestTimestamp,
            Change::NewestTimestamp => ChangeView::NewestTimestamp,
            Change::PrevBatchToken => ChangeView::PrevBatchToken,
            Change::HasPrevBatch => ChangeView::HasPrevBatch,
        }
    }
}

/// The list after one change, as a list model that follows the splices has it.
pub open spec fn spliced(items: Seq<MessageObject>, c: ChangeView) -> Seq<MessageObject> {
    match c {
        ChangeView::Splice { position, removed, added } => items.subrange(0, position) + added
            + items.subrange(position + removed, items.len() as int),
        _ => items,
    }
}

/// The list after the changes, in order.
pub open spec fn replay(items: Seq<MessageObject>, changes: Seq<ChangeView>) -> Seq<MessageObject>
    decreases changes.len(),
{
    if changes.len() == 0 {
        items
    } else {
        spliced(replay(items, changes.drop_last()), changes.last())
    }
}

/// Splices that only add, from front to back, with a kept message between any
/// two of them: one splice for each place that gains messages.
pub open spec fn coalesced(changes: Seq<ChangeView>) -> bool {
    &&& forall|k: int|
        0 <= k < changes.len() ==> (#[trigger] changes[k]) is Splice
            && changes[k]->Splice_removed == 0 && changes[k]->Splice_position >= 0
            && changes[k]->Splice_added.len() > 0
    &&& forall|k: int, l: int|
        #![trigger changes[k], changes[l]]
        0 <= k < l < changes.len() ==> changes[k]->Splice_position + changes[k]->Splice_added.len()
            < changes[l]->Splice_position
}

// ---- the list -----------------------------------------------------------------

pub open spec fn sorted(items: Seq<MessageObject>) -> bool {
    forall|i: int, j: int|
        #![trigger items[i], items[j]]
        0 <= i <= j < items.len() ==> items[i].timestamp <= items[j].timestamp
}

pub open spec fn unique_ids(items: Seq<MessageObject>) -> bool {
    forall|i: int, j: int|
        #![trigger items[i], items[j]]
        0 <= i < j < items.len() && items[i].event_id@.len() > 0 ==> items[i].event_id@
            != items[j].event_id@
}

pub open spec fn has_id(items: Seq<MessageObject>, id: Seq<char>) -> bool {
    exists|i: int| 0 <= i < items.len() && (#[trigger] items[i]).event_id@ == id
}

/// `index` holds exactly the non-empty event ids of `items`.
pub open spec fn indexed(items: Seq<MessageObject>, index: Set<Seq<char>>) -> bool {
    forall|e: Seq<char>| #[trigger] index.contains(e) <==> e.len() > 0 && has_id(items, e)
}

/// The position of the first message with event id `id`, or the length.
pub open spec fn position_of(items: Seq<MessageObject>, id: Seq<char>, from: int) -> int
    decreases items.len() - from,
{
    if from < 0 || from >= items.len() {
        items.len() as int
    } else if items[from].event_id@ == id {
        from
    } else {
        position_of(items, id, from + 1)
    }
}

/// The number of local echoes: messages without an event id.
pub open spec fn echoes(items: Seq<MessageObject>) -> nat
    decreases items.len(),
{
    if items.len() == 0 {
        0
    } else {
        echoes(items.drop_last()) + (if items.last().event_id@.len() == 0 {
            1nat
        } else {
            0
        })
    }
}

/// The position of the last echo among the first `n` messages whose body is
/// `body`, or -1.
pub open spec fn last_echo(items: Seq<MessageObject>, body: Seq<char>, n: int) -> int
    decreases n,
{
    if n <= 0 || n > items.len() {
        -1
    } else if items[n - 1].event_id@.len() == 0 && items[n - 1].body@ == body {
        n - 1
    } else {
        last_echo(items, body, n - 1)
    }
}

/// Where a message of time `t` belongs: behind the last message that is not
/// newer.
pub open spec fn upper(items: Seq<MessageObject>, t: u64) -> int
    decreases items.len(),
{
    if items.len() == 0 {
        0
    } else if items.last().timestamp <= t {
        items.len() as int
    } else {
        upper(items.drop_last(), t)
    }
}

/// The list with one more message at the place its time gives it.
pub open spec fn placed(items: Seq<MessageObject>, m: MessageObject) -> Seq<MessageObject> {
    items.insert(upper(items, m.timestamp), m)
}

/// The list after one message arrived: a message whose event id is there
/// already is dropped.
pub open spec fn admitted(items: Seq<MessageObject>, m: MessageObject) -> Seq<MessageObject> {
    if m.event_id@.len() > 0 && has_id(items, m.event_id@) {
        items
    } else {
        placed(items, m)
    }
}

/// The list after a batch of messages arrived.
pub open spec fn inserted(items: Seq<MessageObject>, batch: Seq<MessageObject>) -> Seq<
    MessageObject,
>
    decreases batch.len(),
{
    if batch.len() == 0 {
        items
    } else {
        admitted(inserted(items, batch.drop_last()), batch.last())
    }
}

/// Count, oldest and newest timestamp of a list.
pub open spec fn derived(items: Seq<MessageObject>) -> (int, u64, u64) {
    if items.len() == 0 {
        (0, 0, 0)
    } else {
        (items.len() as int, items[0].timestamp, items.last().timestamp)
    }
}

/// The property notifications that a change of the list brings.
pub open spec fn notifications(before: (int, u64, u64), after: (int, u64, u64)) -> Seq<ChangeView> {
    (if before.0 != after.0 {
        seq![ChangeView::NItems]
    } else {
        Seq::empty()
    }) + (if before.1 != after.1 {
        seq![ChangeView::OldestTimestamp]
    } else {
        Seq::empty()
    }) + (if before.2 != after.2 {
        seq![ChangeView::NewestTimestamp]
    } else {
        Seq::empty()
    })
}

/// The messages of one room.
pub struct Timeline {
    room_id: String,
    fetching_older: bool,
    oldest_timestamp: u64,
    newest_timestamp: u64,
    prev_batch_token: String,
    has_prev_batch: bool,
    n_items: u32,
    items: Vec<MessageObject>,
    event_index: StringHashSet,
    /// At least the number of unpatched local echoes.
    pending_echo_count: u32,
    changes: Vec<Change>,
}

impl Timeline {
    pub closed spec fn room(&self) -> Seq<char> {
        self.room_id@
    }

    /// The messages in list order.
    pub closed spec fn items(&self) -> Seq<MessageObject> {
        self.items@
    }

    /// The event ids in the index.
    pub closed spec fn index(&self) -> Set<Seq<char>> {
        self.event_index@
    }

    /// The cached count, oldest and newest timestamp.
    pub closed spec fn cached(&self) -> (int, u64, u64) {
        (self.n_items as int, self.oldest_timestamp, self.newest_timestamp)
    }

    /// The pagination token; empty when there is none.
    pub closed spec fn token(&self) -> Seq<char> {
        self.prev_batch_token@
    }

    /// The cached flag for "there is a pagination token".
    pub closed spec fn has_token(&self) -> bool {
        self.has_prev_batch
    }

    pub closed spec fn fetching(&self) -> bool {
        self.fetching_older
    }

    pub closed spec fn pending(&self) -> nat {
        self.pending_echo_count as nat
    }

    /// The changes that have not been taken yet.
    pub closed spec fn changes(&self) -> Seq<ChangeView> {
        self.changes@.map_values(|c: Change| c@)
    }

    /// What every operation keeps.
    pub open spec fn invariants(&self) -> bool {
        &&& sorted(self.items())
        &&& unique_ids(self.items())
        &&& indexed(self.items(), self.index())
        &&& self.cached() == derived(self.items())
        &&& self.items().len() <= u32::MAX
        &&& self.has_token() == (self.token().len() > 0)
        &&& echoes(self.items()) <= self.pending()
    }

    /// Nothing but the messages, what is derived from them and the list of
    /// changes differs.
    pub open spec fn same_room(&self, other: &Timeline) -> bool {
        &&& self.room() == other.room()
        &&& self.fetching() == other.fetching()
        &&& self.token() == other.token()
        &&& self.has_token() == other.has_token()
    }

    pub fn new(room_id: &str) -> (r: Self)
        ensures
            r.invariants(),
            r.room() == room_id@,
            r.items() == Seq::<MessageObject>::empty(),
            r.token() == Seq::<char>::empty(),
            !r.fetching(),
            r.changes() == Seq::<ChangeView>::empty(),
    {
        let r = Timeline {
            room_id: room_id.to_owned(),
            fetching_older: false,
            oldest_timestamp: 0,
            newest_timestamp: 0,
            prev_batch_token: String::new(),
            has_prev_batch: false,
            n_items: 0,
            items: Vec::new(),
            event_index: StringHashSet::new(),
            pending_echo_count: 0,
            changes: Vec::new(),
        };
        assert(r.changes() == Seq::<ChangeView>::empty());
        r
    }

    /// The messages, oldest first.
    pub fn model(&self) -> (r: &Vec<MessageObject>)
        ensures
            r@ == self.items(),
    {
        &self.items
    }

    pub fn room_id(&self) -> (r: String)
        ensures
            r@ == self.room(),
    {
        self.room_id.clone()
    }

    /// Whether a backward fetch is in flight.
    pub fn fetching_older(&self) -> (r: bool)
        ensures
            r == self.fetching(),
    {
        self.fetching_older
    }

    pub fn set_fetching_older(&mut self, v: bool)
        ensures
            final(self).fetching() == v,
            final(self).room() == old(self).room(),
            final(self).items() == old(self).items(),
            final(self).index() == old(self).index(),
            final(self).cached() == old(self).cached(),
            final(self).token() == old(self).token(),
            final(self).has_token() == old(self).has_token(),
            final(self).pending() == old(self).pending(),
            final(self).changes() == old(self).changes(),
    {
        self.fetching_older = v;
    }

    /// The oldest timestamp; 0 when there are no messages.
    pub fn oldest_timestamp(&self) -> (r: u64)
        ensures
            r == self.cached().1,
    {
        self.oldest_timestamp
    }

    /// The newest timestamp; 0 when there are no messages.
    pub fn newest_timestamp(&self) -> (r: u64)
        ensures
            r == self.cached().2,
    {
        self.newest_timestamp
    }

    pub fn n_items(&self) -> (r: u32)
        ensures
            r == self.cached().0,
    {
        self.n_items
    }

    pub fn prev_batch_token(&self) -> (r: String)
        ensures
            r@ == self.token(),
    {
        self.prev_batch_token.clone()
    }

    pub fn has_prev_batch(&self) -> (r: bool)
        ensures
            r == self.has_token(),
    {
        self.has_prev_batch
    }

    /// Hands out the changes since the last call.
    pub fn take_changes(&mut self) -> (r: Vec<Change>)
        requires
            old(self).invariants(),
        ensures
            r@.map_values(|c: Change| c@) == old(self).changes(),
            final(self).changes() == Seq::<ChangeView>::empty(),
            final(self).invariants(),
            final(self).items() == old(self).items(),
            final(self).same_room(old(self)),
    {
        let mut out: Vec<Change> = Vec::new();
        std::mem::swap(&mut self.changes, &mut out);
        assert(self.changes() == Seq::<ChangeView>::empty());
        out
    }

    fn record(&mut self, c: Change)
        ensures
            final(self).changes() == old(self).changes().push(c@),
            final(self).items() == old(self).items(),
            final(self).index() == old(self).index(),
            final(self).cached() == old(self).cached(),
            final(self).pending() == old(self).pending(),
            final(self).same_room(old(self)),
    {
        self.changes.push(c);
        assert(self.changes() == old(self).changes().push(c@));
    }

    /// Brings the cached values up to date and records what changed.
    fn refresh_derived_state(&mut self)
        requires
            old(self).items().len() <= u32::MAX,
        ensures
            final(self).cached() == derived(old(self).items()),
            final(self).changes() == old(self).changes() + notifications(
                old(self).cached(),
                derived(old(self).items()),
            ),
            final(self).items() == old(self).items(),
            final(self).index() == old(self).index(),
            final(self).pending() == old(self).pending(),
            final(self).same_room(old(self)),
    {
        let n: usize = self.items.len();
        let count: u32 = n as u32;
        let (oldest, newest): (u64, u64) = if n == 0 {
            (0, 0)
        } else {
            (self.items[0].timestamp, self.items[n - 1].timestamp)
        };
        let count_changed = self.n_items != count;
        let oldest_changed = self.oldest_timestamp != oldest;
        let newest_changed = self.newest_timestamp != newest;
        self.n_items = count;
        self.oldest_timestamp = oldest;
        self.newest_timestamp = newest;
        if count_changed {
            self.record(Change::NItems);
        }
        if oldest_changed {
            self.record(Change::OldestTimestamp);
        }
        if newest_changed {
            self.record(Change::NewestTimestamp);
        }
        assert(self.changes() == old(self).changes() + notifications(
            old(self).cached(),
            derived(old(self).items()),
        ));
    }

    /// Whether the timeline holds the event.
    pub fn has_event(&self, event_id: &str) -> (r: bool)
        requires
            self.invariants(),
        ensures
            r == (event_id@.len() > 0 && has_id(self.items(), event_id@)),
    {
        if event_id.is_empty() {
            return false;
        }
        assert(self.index().contains(event_id@) <==> has_id(self.items(), event_id@));
        self.event_index.contains(event_id)
    }

    /// The position of the event with the non-empty id `event_id`.
    fn find_event(&self, event_id: &str) -> (r: Option<usize>)
        requires
            self.invariants(),
        ensures
            match r {
                Some(i) => i < self.items().len() && self.items()[i as int].event_id@ == event_id@
                    && i == position_of(self.items(), event_id@, 0) && event_id@.len() > 0
                    && has_id(self.items(), event_id@),
                None => event_id@.len() == 0 || !has_id(self.items(), event_id@),
            },
    {
        if !self.has_event(event_id) {
            return None;
        }
        let mut i: usize = 0;
        while i < self.items.len()
            invariant
                i <= self.items.len(),
                event_id@.len() > 0,
                self.items@ == self.items(),
                has_id(self.items(), event_id@),
                position_of(self.items(), event_id@, i as int) == position_of(
                    self.items(),
                    event_id@,
                    0,
                ),
                forall|j: int| 0 <= j < i ==> (#[trigger] self.items()[j]).event_id@ != event_id@,
            decreases self.items.len() - i,
        {
            if crate::text::same(self.items[i].event_id.as_str(), event_id) {
                assert(self.items()[i as int].event_id@ == event_id@);
                return Some(i);
            }
            i = i + 1;
        }
        None
    }

    /// The message with the event id, if the timeline holds it.
    pub fn get_event(&self, event_id: &str) -> (r: Option<MessageObject>)
        requires
            self.invariants(),
        ensures
            match r {
                Some(m) => event_id@.len() > 0 && m.event_id@ == event_id@ && self.items().contains(
                    m,
                ) && m == self.items()[position_of(self.items(), event_id@, 0)],
                None => event_id@.len() == 0 || !has_id(self.items(), event_id@),
            },
    {
        match self.find_event(event_id) {
            Some(i) => {
                assert(self.items().contains(self.items()[i as int]));
                Some(self.items[i].clone())
            },
            None => None,
        }
    }

    /// Sets the pagination token; None clears it.
    pub fn set_prev_batch_token(&mut self, token: Option<String>)
        requires
            old(self).invariants(),
        ensures
            final(self).invariants(),
            final(self).token() == (match token {
                Some(t) => t@,
                None => Seq::empty(),
            }),
            final(self).room() == old(self).room(),
            final(self).fetching() == old(self).fetching(),
            final(self).items() == old(self).items(),
            final(self).changes() == old(self).changes() + (if final(self).token() == old(
                self,
            ).token() {
                Seq::empty()
            } else if (final(self).token().len() > 0) == (old(self).token().len() > 0) {
                seq![ChangeView::PrevBatchToken]
            } else {
                seq![ChangeView::PrevBatchToken, ChangeView::HasPrevBatch]
            }),
    {
        let new_val = match token {
            Some(t) => t,
            None => String::new(),
        };
        if self.prev_batch_token == new_val {
            assert(self.changes() == old(self).changes() + Seq::<ChangeView>::empty());
            return;
        }
        let had = self.has_prev_batch;
        let has = !new_val.as_str().is_empty();
        self.prev_batch_token = new_val;
        self.has_prev_batch = has;
        self.record(Change::PrevBatchToken);
        if had != has {
            self.record(Change::HasPrevBatch);
            assert(self.changes() == old(self).changes() + seq![
                ChangeView::PrevBatchToken,
                ChangeView::HasPrevBatch,
            ]);
        } else {
            assert(self.changes() == old(self).changes() + seq![ChangeView::PrevBatchToken]);
        }
    }

    // ---- changes in place -------------------------------------------------------

    /// Sets the body, and the formatted body if one is given, of a message.
    /// True when the timeline holds the event.
    pub fn update_body(&mut self, event_id: &str, body: &str, formatted: Option<&str>) -> (r: bool)
        requires
            old(self).invariants(),
        ensures
            final(self).invariants(),
            final(self).same_room(old(self)),
            r == (event_id@.len() > 0 && has_id(old(self).items(), event_id@)),
            !r ==> final(self).items() == old(self).items() && final(self).changes() == old(
                self,
            ).changes(),
            r ==> ({
                let i = position_of(old(self).items(), event_id@, 0);
                let m = final(self).items()[i];
                &&& final(self).items() == old(self).items().update(i, m)
                &&& m == (MessageObject {
                    body: m.body,
                    formatted_body: m.formatted_body,
                    ..old(self).items()[i]
                })
                &&& m.body@ == body@
                &&& m.formatted_body@ == (match formatted {
                    Some(f) => f@,
                    None => old(self).items()[i].formatted_body@,
                })
                &&& final(self).changes() == old(self).changes().push(
                    ChangeView::Updated { position: i },
                )
            }),
    {
        match self.find_event(event_id) {
            None => false,
            Some(i) => {
                let mut m = self.items[i].clone();
                m.set_body(body.to_owned());
                if let Some(f) = formatted {
                    m.set_formatted_body(f.to_owned());
                }
                self.replace_at(i, m);
                true
            },
        }
    }

    /// Sets the reactions of a message. True when the timeline holds the
    /// event.
    pub fn update_reactions(&mut self, event_id: &str, reactions_json: &str) -> (r: bool)
        requires
            old(self).invariants(),
        ensures
            final(self).invariants(),
            final(self).same_room(old(self)),
            r == (event_id@.len() > 0 && has_id(old(self).items(), event_id@)),
            !r ==> final(self).items() == old(self).items() && final(self).changes() == old(
                self,
            ).changes(),
            r ==> ({
                let i = position_of(old(self).items(), event_id@, 0);
                let m = final(self).items()[i];
                &&& final(self).items() == old(self).items().update(i, m)
                &&& m == (MessageObject {
                    reactions_json: m.reactions_json,
                    reactions_hash: m.reactions_hash,
                    ..old(self).items()[i]
                })
                &&& m.reactions_json@ == reactions_json@
                &&& m.reactions_hash == crate::models::message_object::fnv1a(
                    vstd::utf8::encode_utf8(reactions_json@),
                )
                &&& final(self).changes() == old(self).changes().push(
                    ChangeView::Updated { position: i },
                )
            }),
    {
        match self.find_event(event_id) {
            None => false,
            Some(i) => {
                let mut m = self.items[i].clone();
                m.update_reactions_json(reactions_json.to_owned());
                self.replace_at(i, m);
                true
            },
        }
    }

    /// Puts a changed message in the place of the `i`-th, which keeps its
    /// event id and its time.
    fn replace_at(&mut self, i: usize, m: MessageObject)
        requires
            old(self).invariants(),
            i < old(self).items().len(),
            m.event_id == old(self).items()[i as int].event_id,
            m.timestamp == old(self).items()[i as int].timestamp,
        ensures
            final(self).invariants(),
            final(self).same_room(old(self)),
            final(self).items() == old(self).items().update(i as int, m),
            final(self).changes() == old(self).changes().push(
                ChangeView::Updated { position: i as int },
            ),
    {
        self.items.set(i, m);
        proof {
            let before = old(self).items();
            let after = self.items();
            assert forall|e: Seq<char>| has_id(after, e) <==> has_id(before, e) by {
                if has_id(before, e) {
                    let k = choose|k: int| 0 <= k < before.len() && (#[trigger] before[k]).event_id@
                        == e;
                    assert(after[k].event_id@ == e);
                }
                if has_id(after, e) {
                    let k = choose|k: int| 0 <= k < after.len() && (#[trigger] after[k]).event_id@
                        == e;
                    assert(before[k].event_id@ == e);
                }
            }
            lemma_echoes_same(before, after);
        }
        self.record(Change::Updated { position: i as u32 });
    }

    /// Gives the last local echo with body `echo_body` the event id that the
    /// server assigned. True when there is such an echo; an id that the
    /// timeline holds already is not given out twice.
    pub fn patch_echo(&mut self, echo_body: &str, real_event_id: &str) -> (r: bool)
        requires
            old(self).invariants(),
        ensures
            final(self).invariants(),
            final(self).same_room(old(self)),
            r == (real_event_id@.len() > 0 && !has_id(old(self).items(), real_event_id@)
                && last_echo(old(self).items(), echo_body@, old(self).items().len() as int) >= 0),
            !r ==> final(self).items() == old(self).items() && final(self).changes() == old(
                self,
            ).changes() && final(self).pending() == old(self).pending(),
            r ==> ({
                let i = last_echo(old(self).items(), echo_body@, old(self).items().len() as int);
                let m = final(self).items()[i];
                &&& final(self).items() == old(self).items().update(i, m)
                &&& m == (MessageObject { event_id: m.event_id, ..old(self).items()[i] })
                &&& m.event_id@ == real_event_id@
                &&& final(self).changes() == old(self).changes().push(
                    ChangeView::Updated { position: i },
                )
            }),
    {
        if real_event_id.is_empty() || self.has_event(real_event_id) {
            return false;
        }
        let ghost before = self.items();
        if self.pending_echo_count == 0 {
            proof {
                lemma_no_echo(before, echo_body@, before.len() as int);
            }
            return false;
        }
        let mut n: usize = self.items.len();
        while n > 0
            invariant
                n <= self.items.len(),
                self.items@ == before,
                *self == *old(self),
                last_echo(before, echo_body@, n as int) == last_echo(
                    before,
                    echo_body@,
                    before.len() as int,
                ),
                self.invariants(),
                before == self.items(),
                self.pending_echo_count > 0,
                real_event_id@.len() > 0,
                !has_id(before, real_event_id@),
            decreases n,
        {
            if self.items[n - 1].event_id.as_str().is_empty() && crate::text::same(
                self.items[n - 1].body.as_str(),
                echo_body,
            ) {
                let i: usize = n - 1;
                let mut m = self.items[i].clone();
                m.set_event_id(real_event_id.to_owned());
                self.items.set(i, m);
                self.event_index.insert(real_event_id.to_owned());
                self.pending_echo_count = self.pending_echo_count - 1;
                proof {
                    let after = self.items();
                    assert forall|e: Seq<char>| #[trigger]
                        self.index().contains(e) <==> e.len() > 0 && has_id(after, e) by {
                        assert(old(self).index().contains(e) <==> e.len() > 0 && has_id(before, e));
                        if has_id(before, e) && e.len() > 0 {
                            let k = choose|k: int|
                                0 <= k < before.len() && (#[trigger] before[k]).event_id@ == e;
                            assert(after[k].event_id@ == e);
                        }
                        if has_id(after, e) {
                            let k = choose|k: int|
                                0 <= k < after.len() && (#[trigger] after[k]).event_id@ == e;
                            if k != i {
                                assert(before[k].event_id@ == e);
                            }
                        }
                        assert(after[i as int].event_id@ == real_event_id@);
                    }
                    assert(unique_ids(after)) by {
                        assert forall|a: int, b: int|
                            #![trigger after[a], after[b]]
                            0 <= a < b < after.len() && after[a].event_id@.len()
                                > 0 implies after[a].event_id@ != after[b].event_id@ by {
                            let x = before[a];
                            let y = before[b];
                            if a == i {
                                assert(y.event_id@ != real_event_id@);
                            } else if b == i {
                                assert(x.event_id@ != real_event_id@);
                            }
                        }
                    }
                    lemma_echoes_patch(before, after, i as int);
                }
                self.record(Change::Updated { position: i as u32 });
                return true;
            }
            n = n - 1;
        }
        false
    }

    // ---- insertion --------------------------------------------------------------

    /// The position behind the last message that is not newer than `t`.
    fn sorted_insert_pos(&self, t: u64) -> (r: usize)
        requires
            sorted(self.items()),
        ensures
            r == upper(self.items(), t),
            r <= self.items().len(),
    {
        let mut lo: usize = 0;
        let mut hi: usize = self.items.len();
        while lo < hi
            invariant
                lo <= hi <= self.items.len(),
                sorted(self.items@),
                forall|i: int| 0 <= i < lo ==> (#[trigger] self.items@[i]).timestamp <= t,
                forall|i: int|
                    hi <= i < self.items@.len() ==> (#[trigger] self.items@[i]).timestamp > t,
            decreases hi - lo,
        {
            let mid: usize = lo + (hi - lo) / 2;
            if self.items[mid].timestamp <= t {
                lo = mid + 1;
            } else {
                hi = mid;
            }
        }
        proof {
            lemma_upper(self.items@, t, lo as int);
        }
        lo
    }

    /// Takes one message in; false when its event id is there already.
    fn take_in(&mut self, m: MessageObject, flags: &mut Vec<bool>) -> (r: bool)
        requires
            sorted(old(self).items()),
            unique_ids(old(self).items()),
            indexed(old(self).items(), old(self).index()),
            old(flags)@.len() == old(self).items().len(),
        ensures
            sorted(final(self).items()),
            unique_ids(final(self).items()),
            indexed(final(self).items(), final(self).index()),
            final(self).items() == admitted(old(self).items(), m),
            r <==> !(m.event_id@.len() > 0 && has_id(old(self).items(), m.event_id@)),
            final(flags)@.len() == final(self).items().len(),
            kept(final(self).items(), final(flags)@, 0) == kept(old(self).items(), old(flags)@, 0),
            echoes(final(self).items()) == echoes(old(self).items()) + (if r
                && m.event_id@.len() == 0 {
                1nat
            } else {
                0
            }),
            final(self).items().len() <= old(self).items().len() + 1,
            final(self).cached() == old(self).cached(),
            final(self).pending() == old(self).pending(),
            final(self).changes() == old(self).changes(),
            final(self).same_room(old(self)),
    {
        let id = m.event_id();
        let ghost before = self.items();
        if !id.as_str().is_empty() {
            assert(self.index().contains(id@) <==> has_id(before, id@));
            if self.event_index.contains(id.as_str()) {
                return false;
            }
        }
        let pos: usize = self.sorted_insert_pos(m.timestamp);
        let ghost fl = flags@;
        self.items.insert(pos, m);
        flags.insert(pos, true);
        if !id.as_str().is_empty() {
            self.event_index.insert(id);
        }
        proof {
            let after = self.items();
            lemma_upper_is_bound(before, m.timestamp);
            lemma_insert_ids(before, pos as int, m);
            lemma_kept_insert(before, fl, pos as int, m, 0);
            lemma_echoes_insert(before, pos as int, m);
            lemma_insert_sorted(before, pos as int, m);
            lemma_insert_unique(before, pos as int, m);
            assert forall|e: Seq<char>| #[trigger]
                self.index().contains(e) <==> e.len() > 0 && has_id(after, e) by {
                assert(old(self).index().contains(e) <==> e.len() > 0 && has_id(before, e));
            }
        }
        true
    }

    /// Takes a batch of messages in.
    ///
    /// A message whose event id is there already, or came earlier in the
    /// batch, is dropped. Each other message goes behind the last message that
    /// is not newer. Messages that come to stand side by side are recorded as
    /// one splice.
    pub fn insert(&mut self, objs: Vec<MessageObject>)
        requires
            old(self).invariants(),
            old(self).items().len() + objs@.len() <= u32::MAX,
        ensures
            final(self).invariants(),
            final(self).same_room(old(self)),
            final(self).items() == inserted(old(self).items(), objs@),
            exists|s: Seq<ChangeView>|
                coalesced(s) && #[trigger] replay(old(self).items(), s) == final(self).items()
                    && final(self).changes() == old(self).changes() + s + notifications(
                    derived(old(self).items()),
                    derived(final(self).items()),
                ),
    {
        let ghost before = self.items();
        let mut flags: Vec<bool> = Vec::new();
        let mut k: usize = 0;
        while k < self.items.len()
            invariant
                k <= self.items.len(),
                flags@.len() == k,
                *self == *old(self),
                forall|j: int| 0 <= j < k ==> !#[trigger] flags@[j],
            decreases self.items.len() - k,
        {
            flags.push(false);
            k = k + 1;
        }
        proof {
            lemma_kept_all(before, flags@, 0);
            assert(before.subrange(0, before.len() as int) == before);
        }
        let ghost batch = objs@;
        let mut new_echoes: u32 = 0;
        for m in it: objs
            invariant
                it.seq() == batch,
                before.len() + batch.len() <= u32::MAX,
                self.items() == inserted(before, batch.take(it.index())),
                sorted(self.items()),
                unique_ids(self.items()),
                indexed(self.items(), self.index()),
                self.items().len() <= before.len() + it.index(),
                flags@.len() == self.items().len(),
                kept(self.items(), flags@, 0) == before,
                echoes(self.items()) == echoes(before) + new_echoes,
                new_echoes <= it.index(),
                self.cached() == old(self).cached(),
                self.pending() == old(self).pending(),
                self.changes() == old(self).changes(),
                self.same_room(old(self)),
                before == old(self).items(),
        {
            let ghost i = it.index();
            assert(batch.take(i + 1).drop_last() == batch.take(i));
            assert(batch.take(i + 1).last() == batch[i]);
            let is_echo = m.event_id.as_str().is_empty();
            let taken = self.take_in(m, &mut flags);
            if taken && is_echo {
                new_echoes = new_echoes + 1;
            }
        }
        assert(batch.take(batch.len() as int) == batch);
        self.pending_echo_count = if u32::MAX - self.pending_echo_count < new_echoes {
            u32::MAX
        } else {
            self.pending_echo_count + new_echoes
        };
        proof {
            lemma_echoes_bound(self.items());
        }
        let ghost mid = *self;
        let ghost s = runs(self.items(), flags@, 0);
        self.record_runs(&flags);
        proof {
            lemma_runs_replay(mid.items(), flags@, 0);
            lemma_runs_coalesced(mid.items(), flags@, 0);
            assert(mid.items().subrange(0, 0) + kept(mid.items(), flags@, 0) == before);
        }
        self.refresh_derived_state();
        proof {
            assert(self.changes() == old(self).changes() + s + notifications(
                derived(old(self).items()),
                derived(self.items()),
            ));
            assert(replay(old(self).items(), s) == self.items());
        }
    }

    /// Records one splice for each run of new messages.
    fn record_runs(&mut self, flags: &Vec<bool>)
        requires
            flags@.len() == old(self).items().len(),
            old(self).items().len() <= u32::MAX,
        ensures
            final(self).changes() == old(self).changes() + runs(old(self).items(), flags@, 0),
            final(self).items() == old(self).items(),
            final(self).index() == old(self).index(),
            final(self).cached() == old(self).cached(),
            final(self).pending() == old(self).pending(),
            final(self).same_room(old(self)),
    {
        let ghost items = self.items();
        let ghost start = self.changes();
        let n: usize = self.items.len();
        let mut i: usize = 0;
        assert(start + runs(items, flags@, 0) == start + runs(items, flags@, 0));
        while i < n
            invariant
                i <= n,
                n == items.len(),
                n <= u32::MAX,
                flags@.len() == n,
                self.items() == items,
                self.items@ == items,
                self.index() == old(self).index(),
                self.cached() == old(self).cached(),
                self.pending() == old(self).pending(),
                self.same_room(old(self)),
                self.changes() + runs(items, flags@, i as int) == start + runs(items, flags@, 0),
            decreases n - i,
        {
            if flags[i] {
                let mut j: usize = i;
                let mut added: Vec<MessageObject> = Vec::new();
                while j < n && flags[j]
                    invariant
                        i <= j <= n,
                        n == items.len(),
                        flags@.len() == n,
                        self.items@ == items,
                        run_end(flags@, j as int) == run_end(flags@, i as int),
                        added@ == items.subrange(i as int, j as int),
                    decreases n - j,
                {
                    added.push(self.items[j].clone());
                    j = j + 1;
                    assert(added@ == items.subrange(i as int, j as int));
                }
                let ghost c = ChangeView::Splice {
                    position: i as int,
                    removed: 0,
                    added: added@,
                };
                let ghost prev = self.changes();
                self.record(Change::Splice { position: i as u32, removed: 0, added });
                proof {
                    assert(run_end(flags@, i as int) == j);
                    assert(runs(items, flags@, i as int) == seq![c] + runs(
                        items,
                        flags@,
                        j as int,
                    ));
                    assert(prev.push(c) + runs(items, flags@, j as int) == prev + (seq![c] + runs(
                        items,
                        flags@,
                        j as int,
                    )));
                }
                i = j;
            } else {
                i = i + 1;
            }
        }
        assert(runs(items, flags@, i as int) == Seq::<ChangeView>::empty());
        assert(self.changes() + Seq::<ChangeView>::empty() == self.changes());
    }

    /// Replaces all messages, recorded as one splice.
    pub fn replace_all(&mut self, objs: Vec<MessageObject>)
        requires
            old(self).invariants(),
            objs@.len() <= u32::MAX,
        ensures
            final(self).invariants(),
            final(self).same_room(old(self)),
            final(self).items() == inserted(Seq::empty(), objs@),
            final(self).pending() == echoes(final(self).items()),
            final(self).changes() == old(self).changes().push(
                ChangeView::Splice {
                    position: 0,
                    removed: old(self).items().len() as int,
                    added: final(self).items(),
                },
            ) + notifications(derived(old(self).items()), derived(final(self).items())),
    {
        let ghost cached = self.cached();
        let n_old: u32 = self.items.len() as u32;
        self.items = Vec::new();
        self.event_index = StringHashSet::new();
        let mut flags: Vec<bool> = Vec::new();
        let ghost batch = objs@;
        let mut new_echoes: u32 = 0;
        for m in it: objs
            invariant
                it.seq() == batch,
                batch.len() <= u32::MAX,
                self.items() == inserted(Seq::empty(), batch.take(it.index())),
                sorted(self.items()),
                unique_ids(self.items()),
                indexed(self.items(), self.index()),
                self.items().len() <= it.index(),
                flags@.len() == self.items().len(),
                echoes(self.items()) == new_echoes,
                new_echoes <= it.index(),
                self.cached() == old(self).cached(),
                self.changes() == old(self).changes(),
                self.same_room(old(self)),
        {
            let ghost i = it.index();
            assert(batch.take(i + 1).drop_last() == batch.take(i));
            assert(batch.take(i + 1).last() == batch[i]);
            let is_echo = m.event_id.as_str().is_empty();
            let taken = self.take_in(m, &mut flags);
            if taken && is_echo {
                new_echoes = new_echoes + 1;
            }
        }
        assert(batch.take(batch.len() as int) == batch);
        self.pending_echo_count = new_echoes;
        let added = clone_range(&self.items, 0, self.items.len());
        assert(added@ == self.items());
        self.record(Change::Splice { position: 0, removed: n_old, added });
        self.refresh_derived_state();
    }

    // ---- removal ----------------------------------------------------------------

    /// Takes the messages `start .. start + count` out.
    fn cut(&mut self, start: usize, count: usize)
        requires
            old(self).invariants(),
            start + count <= old(self).items().len(),
        ensures
            final(self).invariants(),
            final(self).same_room(old(self)),
            final(self).items() == without(old(self).items(), start as int, count as int),
            final(self).pending() == old(self).pending(),
            final(self).changes() == old(self).changes().push(
                ChangeView::Splice {
                    position: start as int,
                    removed: count as int,
                    added: Seq::empty(),
                },
            ) + notifications(derived(old(self).items()), derived(final(self).items())),
    {
        let ghost before = self.items();
        let mut i: usize = start;
        while i < start + count
            invariant
                start <= i <= start + count <= before.len(),
                self.items@ == before,
                self.items() == before,
                before == old(self).items(),
                self.cached() == old(self).cached(),
                self.changes() == old(self).changes(),
                self.pending() == old(self).pending(),
                self.same_room(old(self)),
                forall|e: Seq<char>| #[trigger]
                    self.index().contains(e) <==> old(self).index().contains(e) && !has_id(
                        before.subrange(start as int, i as int),
                        e,
                    ),
                forall|e: Seq<char>| #[trigger] self.index().contains(e) ==> e.len() > 0,
                old(self).invariants(),
            decreases start + count - i,
        {
            let ghost index0 = self.index();
            let ghost r0 = before.subrange(start as int, i as int);
            let ghost r1 = before.subrange(start as int, i + 1);
            let ghost e0 = before[i as int].event_id@;
            if !self.items[i].event_id.as_str().is_empty() {
                self.event_index.remove(self.items[i].event_id.as_str());
            }
            proof {
                assert(r1 == r0.push(before[i as int]));
                assert forall|e: Seq<char>| has_id(r1, e) <==> has_id(r0, e) || e == e0 by {
                    if has_id(r0, e) {
                        let k = choose|k: int| 0 <= k < r0.len() && (#[trigger] r0[k]).event_id@
                            == e;
                        assert(r1[k].event_id@ == e);
                    }
                    if e == e0 {
                        assert(r1[r1.len() - 1].event_id@ == e);
                    }
                    if has_id(r1, e) {
                        let k = choose|k: int| 0 <= k < r1.len() && (#[trigger] r1[k]).event_id@
                            == e;
                        if k < r0.len() {
                            assert(r0[k].event_id@ == e);
                        }
                    }
                }
                assert forall|e: Seq<char>| #[trigger]
                    self.index().contains(e) <==> old(self).index().contains(e) && !has_id(
                        r1,
                        e,
                    ) by {
                    assert(index0.contains(e) <==> old(self).index().contains(e) && !has_id(r0, e));
                    assert(old(self).index().contains(e) ==> e.len() > 0);
                }
            }
            i = i + 1;
        }
        let ghost index = self.index();
        let mut tail = self.items.split_off(start + count);
        self.items.truncate(start);
        self.items.append(&mut tail);
        proof {
            let after = self.items();
            assert(after == without(before, start as int, count as int));
            let mid = before.subrange(start as int, start + count);
            assert(self.index() == index);
            assert forall|e: Seq<char>| #[trigger]
                self.index().contains(e) <==> e.len() > 0 && has_id(after, e) by {
                if e.len() > 0 {
                    lemma_without_ids(before, start as int, count as int, e);
                }
                assert(index.contains(e) <==> old(self).index().contains(e) && !has_id(mid, e));
                assert(old(self).index().contains(e) <==> e.len() > 0 && has_id(before, e));
            }
            lemma_without_echoes(before, start as int, count as int);
            assert(sorted(after)) by {
                assert forall|a: int, b: int|
                    #![trigger after[a], after[b]]
                    0 <= a <= b < after.len() implies after[a].timestamp <= after[b].timestamp by {
                    let x = before[if a < start { a } else { a + count }];
                    let y = before[if b < start { b } else { b + count }];
                }
            }
            assert(unique_ids(after)) by {
                assert forall|a: int, b: int|
                    #![trigger after[a], after[b]]
                    0 <= a < b < after.len() && after[a].event_id@.len()
                        > 0 implies after[a].event_id@ != after[b].event_id@ by {
                    let x = before[if a < start { a } else { a + count }];
                    let y = before[if b < start { b } else { b + count }];
                }
            }
        }
        self.record(
            Change::Splice { position: start as u32, removed: count as u32, added: Vec::new() },
        );
        self.refresh_derived_state();
    }

    /// Takes the message with the event id out. True when it was there.
    pub fn remove(&mut self, event_id: &str) -> (r: bool)
        requires
            old(self).invariants(),
        ensures
            final(self).invariants(),
            final(self).same_room(old(self)),
            r == (event_id@.len() > 0 && has_id(old(self).items(), event_id@)),
            !r ==> final(self).items() == old(self).items() && final(self).changes() == old(
                self,
            ).changes(),
            r ==> ({
                let i = position_of(old(self).items(), event_id@, 0);
                &&& final(self).items() == old(self).items().remove(i)
                &&& !has_id(final(self).items(), event_id@)
                &&& final(self).changes() == old(self).changes().push(
                    ChangeView::Splice { position: i, removed: 1, added: Seq::empty() },
                ) + notifications(derived(old(self).items()), derived(final(self).items()))
            }),
    {
        match self.find_event(event_id) {
            None => false,
            Some(i) => {
                let ghost before = self.items();
                self.cut(i, 1);
                proof {
                    assert(self.items() == before.remove(i as int));
                    lemma_without_ids(before, i as int, 1, event_id@);
                    assert(before.subrange(i as int, i + 1)[0].event_id@ == event_id@);
                }
                true
            },
        }
    }

    /// Takes the oldest `count` messages out, or all when there are fewer.
    /// Returns how many went.
    pub fn front_evict(&mut self, count: u32) -> (r: u32)
        requires
            old(self).invariants(),
        ensures
            final(self).invariants(),
            final(self).same_room(old(self)),
            r == (if count <= old(self).items().len() {
                count as int
            } else {
                old(self).items().len() as int
            }),
            final(self).items() == old(self).items().subrange(
                r as int,
                old(self).items().len() as int,
            ),
            final(self).changes() == (if r == 0 {
                old(self).changes()
            } else {
                old(self).changes().push(
                    ChangeView::Splice { position: 0, removed: r as int, added: Seq::empty() },
                ) + notifications(derived(old(self).items()), derived(final(self).items()))
            }),
    {
        let ghost before = self.items();
        let n: usize = self.items.len();
        let actual: usize = if (count as usize) < n {
            count as usize
        } else {
            n
        };
        if actual == 0 {
            assert(before.subrange(0, before.len() as int) == before);
            return 0;
        }
        self.cut(0, actual);
        assert(self.items() == before.subrange(actual as int, before.len() as int));
        actual as u32
    }

    /// Takes `count` messages from position `start` on out, or as many as
    /// there are. Returns how many went.
    pub fn evict_range(&mut self, start: u32, count: u32) -> (r: u32)
        requires
            old(self).invariants(),
        ensures
            final(self).invariants(),
            final(self).same_room(old(self)),
            r == (if start >= old(self).items().len() {
                0int
            } else if start + count <= old(self).items().len() {
                count as int
            } else {
                old(self).items().len() - start
            }),
            final(self).items() == (if r == 0 {
                old(self).items()
            } else {
                without(old(self).items(), start as int, r as int)
            }),
            final(self).changes() == (if r == 0 {
                old(self).changes()
            } else {
                old(self).changes().push(
                    ChangeView::Splice {
                        position: start as int,
                        removed: r as int,
                        added: Seq::empty(),
                    },
                ) + notifications(derived(old(self).items()), derived(final(self).items()))
            }),
    {
        let n: usize = self.items.len();
        if count == 0 || start as usize >= n {
            return 0;
        }
        let room: usize = n - start as usize;
        let actual: usize = if (count as usize) < room {
            count as usize
        } else {
            room
        };
        self.cut(start as usize, actual);
        actual as u32
    }

    /// Takes all messages out.
    pub fn clear(&mut self)
        requires
            old(self).invariants(),
        ensures
            final(self).invariants(),
            final(self).same_room(old(self)),
            final(self).items() == Seq::<MessageObject>::empty(),
            final(self).pending() == 0,
            final(self).changes() == old(self).changes().push(
                ChangeView::Splice {
                    position: 0,
                    removed: old(self).items().len() as int,
                    added: Seq::empty(),
                },
            ) + notifications(derived(old(self).items()), (0, 0, 0)),
    {
        let n: usize = self.items.len();
        self.items = Vec::new();
        self.event_index = StringHashSet::new();
        self.pending_echo_count = 0;
        self.record(Change::Splice { position: 0, removed: n as u32, added: Vec::new() });
        self.refresh_derived_state();
    }
}

fn clone_range(items: &Vec<MessageObject>, from: usize, to: usize) -> (r: Vec<MessageObject>)
    requires
        from <= to <= items.len(),
    ensures
        r@ == items@.subrange(from as int, to as int),
{
    let mut out: Vec<MessageObject> = Vec::new();
    let mut i: usize = from;
    while i < to
        invariant
            from <= i <= to <= items.len(),
            out@ == items@.subrange(from as int, i as int),
        decreases to - i,
    {
        out.push(items[i].clone());
        i = i + 1;
        assert(out@ == items@.subrange(from as int, i as int));
    }
    out
}

// ---- splices ------------------------------------------------------------------

/// `items` without the `count` messages from `start` on.
pub open spec fn without(items: Seq<MessageObject>, start: int, count: int) -> Seq<MessageObject> {
    items.subrange(0, start) + items.subrange(start + count, items.len() as int)
}

/// The messages of `items[i..]` that are not flagged as new.
spec fn kept(items: Seq<MessageObject>, flags: Seq<bool>, i: int) -> Seq<MessageObject>
    decreases items.len() - i,
{
    if i < 0 || i >= items.len() {
        Seq::empty()
    } else if flags[i] {
        kept(items, flags, i + 1)
    } else {
        seq![items[i]] + kept(items, flags, i + 1)
    }
}

/// The end of the run of new messages that starts at `i`.
spec fn run_end(flags: Seq<bool>, i: int) -> int
    decreases flags.len() - i,
{
    if i < 0 || i >= flags.len() {
        flags.len() as int
    } else if flags[i] {
        run_end(flags, i + 1)
    } else {
        i
    }
}

/// One splice for each run of new messages in `items[i..]`.
spec fn runs(items: Seq<MessageObject>, flags: Seq<bool>, i: int) -> Seq<ChangeView>
    decreases flags.len() - i,
{
    if i < 0 || i >= flags.len() {
        Seq::empty()
    } else if flags[i] {
        let j = run_end(flags, i + 1);
        if i < j <= flags.len() {
            seq![ChangeView::Splice { position: i, removed: 0, added: items.subrange(i, j) }]
                + runs(items, flags, j)
        } else {
            Seq::empty()
        }
    } else {
        runs(items, flags, i + 1)
    }
}

proof fn lemma_run_end(flags: Seq<bool>, i: int)
    requires
        0 <= i <= flags.len(),
    ensures
        i <= run_end(flags, i) <= flags.len(),
        forall|k: int| i <= k < run_end(flags, i) ==> flags[k],
        run_end(flags, i) < flags.len() ==> !flags[run_end(flags, i)],
    decreases flags.len() - i,
{
    if i < flags.len() && flags[i] {
        lemma_run_end(flags, i + 1);
    }
}

proof fn lemma_kept_run(items: Seq<MessageObject>, flags: Seq<bool>, i: int, j: int)
    requires
        0 <= i <= j <= flags.len(),
        flags.len() == items.len(),
        forall|k: int| i <= k < j ==> flags[k],
    ensures
        kept(items, flags, i) == kept(items, flags, j),
    decreases j - i,
{
    if i < j {
        lemma_kept_run(items, flags, i + 1, j);
    }
}

proof fn lemma_kept_all(items: Seq<MessageObject>, flags: Seq<bool>, i: int)
    requires
        0 <= i <= items.len(),
        flags.len() == items.len(),
        forall|k: int| 0 <= k < flags.len() ==> !flags[k],
    ensures
        kept(items, flags, i) == items.subrange(i, items.len() as int),
    decreases items.len() - i,
{
    if i < items.len() {
        lemma_kept_all(items, flags, i + 1);
        assert(seq![items[i]] + items.subrange(i + 1, items.len() as int) == items.subrange(
            i,
            items.len() as int,
        ));
    }
}

/// Inserting a new message does not change what is kept.
proof fn lemma_kept_insert(
    items: Seq<MessageObject>,
    flags: Seq<bool>,
    p: int,
    m: MessageObject,
    i: int,
)
    requires
        0 <= p <= items.len(),
        flags.len() == items.len(),
        0 <= i <= items.len() + 1,
    ensures
        i <= p ==> kept(items.insert(p, m), flags.insert(p, true), i) == kept(items, flags, i),
        i > p ==> kept(items.insert(p, m), flags.insert(p, true), i) == kept(items, flags, i - 1),
    decreases items.len() + 1 - i,
{
    let a = items.insert(p, m);
    let f = flags.insert(p, true);
    if i < a.len() {
        lemma_kept_insert(items, flags, p, m, i + 1);
        if i < p {
            assert(a[i] == items[i] && f[i] == flags[i]);
        } else if i > p {
            assert(a[i] == items[i - 1] && f[i] == flags[i - 1]);
        } else {
            assert(f[i]);
        }
    }
}

/// The recorded splices lead from the kept messages to the whole list.
proof fn lemma_runs_replay(items: Seq<MessageObject>, flags: Seq<bool>, i: int)
    requires
        0 <= i <= items.len(),
        flags.len() == items.len(),
    ensures
        replay(items.subrange(0, i) + kept(items, flags, i), runs(items, flags, i)) == items,
    decreases items.len() - i,
{
    let start = items.subrange(0, i) + kept(items, flags, i);
    if i >= items.len() {
        assert(start == items);
    } else if flags[i] {
        lemma_run_end(flags, i + 1);
        let j = run_end(flags, i + 1);
        lemma_kept_run(items, flags, i, j);
        let c = ChangeView::Splice { position: i, removed: 0, added: items.subrange(i, j) };
        assert(runs(items, flags, i) == seq![c] + runs(items, flags, j));
        lemma_runs_replay(items, flags, j);
        lemma_replay_cons(start, c, runs(items, flags, j));
        assert(spliced(start, c) == items.subrange(0, j) + kept(items, flags, j));
    } else {
        lemma_runs_replay(items, flags, i + 1);
        assert(start == items.subrange(0, i + 1) + kept(items, flags, i + 1));
    }
}

proof fn lemma_replay_cons(items: Seq<MessageObject>, c: ChangeView, rest: Seq<ChangeView>)
    ensures
        replay(items, seq![c] + rest) == replay(spliced(items, c), rest),
    decreases rest.len(),
{
    let all = seq![c] + rest;
    if rest.len() == 0 {
        assert(all.drop_last() == Seq::<ChangeView>::empty());
        assert(replay(items, all.drop_last()) == items);
    } else {
        assert(all.drop_last() == seq![c] + rest.drop_last());
        assert(all.last() == rest.last());
        lemma_replay_cons(items, c, rest.drop_last());
    }
}

proof fn lemma_runs_from(items: Seq<MessageObject>, flags: Seq<bool>, i: int)
    requires
        0 <= i <= items.len(),
        flags.len() == items.len(),
    ensures
        forall|k: int|
            0 <= k < runs(items, flags, i).len() ==> (#[trigger] runs(items, flags, i)[k]) is Splice
                && runs(items, flags, i)[k]->Splice_position >= i,
    decreases items.len() - i,
{
    if i < items.len() {
        if flags[i] {
            lemma_run_end(flags, i + 1);
            let j = run_end(flags, i + 1);
            lemma_runs_from(items, flags, j);
            let tail = runs(items, flags, j);
            let all = runs(items, flags, i);
            assert forall|k: int| 0 <= k < all.len() implies (#[trigger] all[k]) is Splice
                && all[k]->Splice_position >= i by {
                if k > 0 {
                    assert(all[k] == tail[k - 1]);
                }
            }
        } else {
            lemma_runs_from(items, flags, i + 1);
        }
    }
}

proof fn lemma_runs_coalesced(items: Seq<MessageObject>, flags: Seq<bool>, i: int)
    requires
        0 <= i <= items.len(),
        flags.len() == items.len(),
    ensures
        coalesced(runs(items, flags, i)),
    decreases items.len() - i,
{
    if i < items.len() {
        if flags[i] {
            lemma_run_end(flags, i + 1);
            let j = run_end(flags, i + 1);
            lemma_runs_coalesced(items, flags, j);
            let c = ChangeView::Splice { position: i, removed: 0, added: items.subrange(i, j) };
            let tail = runs(items, flags, j);
            let all = runs(items, flags, i);
            assert(all == seq![c] + tail);
            if j < flags.len() {
                lemma_runs_from(items, flags, j + 1);
                assert(tail == runs(items, flags, j + 1));
            } else {
                assert(tail.len() == 0);
            }
            assert forall|k: int| 0 <= k < all.len() implies (#[trigger] all[k]) is Splice
                && all[k]->Splice_removed == 0 && all[k]->Splice_position >= 0
                && all[k]->Splice_added.len() > 0 by {
                if k > 0 {
                    assert(all[k] == tail[k - 1]);
                }
            }
            assert forall|k: int, l: int|
                #![trigger all[k], all[l]]
                0 <= k < l < all.len() implies all[k]->Splice_position
                + all[k]->Splice_added.len() < all[l]->Splice_position by {
                assert(all[l] == tail[l - 1]);
                if k > 0 {
                    assert(all[k] == tail[k - 1]);
                } else {
                    assert(tail[l - 1]->Splice_position >= j + 1);
                }
            }
        } else {
            lemma_runs_coalesced(items, flags, i + 1);
        }
    }
}

// ---- order, ids and echoes ----------------------------------------------------

/// In a sorted list, the place of a time is the boundary between the messages
/// that are not newer and those that are.
proof fn lemma_upper(items: Seq<MessageObject>, t: u64, p: int)
    requires
        0 <= p <= items.len(),
        forall|i: int| 0 <= i < p ==> (#[trigger] items[i]).timestamp <= t,
        forall|i: int| p <= i < items.len() ==> (#[trigger] items[i]).timestamp > t,
    ensures
        upper(items, t) == p,
    decreases items.len(),
{
    if items.len() > 0 && items.last().timestamp > t {
        assert(p < items.len());
        lemma_upper(items.drop_last(), t, p);
    } else if items.len() > 0 {
        if p < items.len() {
            assert(items[items.len() - 1].timestamp > t);
        }
    }
}

pub proof fn lemma_upper_is_bound(items: Seq<MessageObject>, t: u64)
    requires
        sorted(items),
    ensures
        0 <= upper(items, t) <= items.len(),
        forall|i: int| 0 <= i < upper(items, t) ==> (#[trigger] items[i]).timestamp <= t,
        forall|i: int| upper(items, t) <= i < items.len() ==> (#[trigger] items[i]).timestamp > t,
    decreases items.len(),
{
    if items.len() > 0 {
        if items.last().timestamp > t {
            let front = items.drop_last();
            assert(sorted(front)) by {
                assert forall|i: int, j: int|
                    #![trigger front[i], front[j]]
                    0 <= i <= j < front.len() implies front[i].timestamp <= front[j].timestamp by {
                    assert(front[i] == items[i] && front[j] == items[j]);
                }
            }
            lemma_upper_is_bound(front, t);
            assert forall|i: int| 0 <= i < upper(items, t) implies (#[trigger] items[i]).timestamp
                <= t by {
                assert(front[i] == items[i]);
            }
            assert forall|i: int|
                upper(items, t) <= i < items.len() implies (#[trigger] items[i]).timestamp > t by {
                if i < front.len() {
                    assert(front[i] == items[i]);
                }
            }
        } else {
            let last = items[items.len() - 1];
        }
    }
}

proof fn lemma_insert_sorted(items: Seq<MessageObject>, p: int, m: MessageObject)
    requires
        sorted(items),
        p == upper(items, m.timestamp),
    ensures
        sorted(items.insert(p, m)),
{
    lemma_upper_is_bound(items, m.timestamp);
    let a = items.insert(p, m);
    assert forall|i: int, j: int|
        #![trigger a[i], a[j]]
        0 <= i <= j < a.len() implies a[i].timestamp <= a[j].timestamp by {
        let x = items[if i < p { i } else { i - 1 }];
        let y = items[if j < p { j } else { j - 1 }];
    }
}

proof fn lemma_insert_ids(items: Seq<MessageObject>, p: int, m: MessageObject)
    requires
        0 <= p <= items.len(),
    ensures
        forall|e: Seq<char>|
            #![trigger has_id(items.insert(p, m), e)]
            has_id(items.insert(p, m), e) <==> has_id(items, e) || m.event_id@ == e,
{
    let a = items.insert(p, m);
    assert forall|e: Seq<char>| #[trigger]
        has_id(a, e) <==> has_id(items, e) || m.event_id@ == e by {
        if has_id(items, e) {
            let k = choose|k: int| 0 <= k < items.len() && (#[trigger] items[k]).event_id@ == e;
            if k < p {
                assert(a[k].event_id@ == e);
            } else {
                assert(a[k + 1].event_id@ == e);
            }
        }
        if m.event_id@ == e {
            assert(a[p].event_id@ == e);
        }
        if has_id(a, e) {
            let k = choose|k: int| 0 <= k < a.len() && (#[trigger] a[k]).event_id@ == e;
            if k < p {
                assert(items[k].event_id@ == e);
            } else if k > p {
                assert(items[k - 1].event_id@ == e);
            }
        }
    }
}

proof fn lemma_insert_unique(items: Seq<MessageObject>, p: int, m: MessageObject)
    requires
        0 <= p <= items.len(),
        unique_ids(items),
        m.event_id@.len() > 0 ==> !has_id(items, m.event_id@),
    ensures
        unique_ids(items.insert(p, m)),
{
    let a = items.insert(p, m);
    assert forall|i: int, j: int|
        #![trigger a[i], a[j]]
        0 <= i < j < a.len() && a[i].event_id@.len() > 0 implies a[i].event_id@ != a[j].event_id@ by {
        let x = items[if i < p { i } else { i - 1 }];
        let y = items[if j < p { j } else { j - 1 }];
        if i == p {
            assert(y.event_id@ != m.event_id@);
        } else if j == p {
            if x.event_id@ == m.event_id@ {
                assert(has_id(items, m.event_id@));
            }
        }
    }
}

proof fn lemma_echoes_insert(items: Seq<MessageObject>, p: int, m: MessageObject)
    requires
        0 <= p <= items.len(),
    ensures
        echoes(items.insert(p, m)) == echoes(items) + (if m.event_id@.len() == 0 {
            1nat
        } else {
            0
        }),
    decreases items.len(),
{
    let a = items.insert(p, m);
    if p == items.len() {
        assert(a.drop_last() == items);
    } else {
        assert(a.drop_last() == items.drop_last().insert(p, m));
        assert(a.last() == items.last());
        lemma_echoes_insert(items.drop_last(), p, m);
    }
}

proof fn lemma_echoes_bound(items: Seq<MessageObject>)
    ensures
        echoes(items) <= items.len(),
    decreases items.len(),
{
    if items.len() > 0 {
        lemma_echoes_bound(items.drop_last());
    }
}

proof fn lemma_echoes_same(a: Seq<MessageObject>, b: Seq<MessageObject>)
    requires
        a.len() == b.len(),
        forall|i: int| 0 <= i < a.len() ==> (#[trigger] a[i]).event_id == b[i].event_id,
    ensures
        echoes(a) == echoes(b),
    decreases a.len(),
{
    if a.len() > 0 {
        assert(a[a.len() - 1].event_id == b[a.len() - 1].event_id);
        assert forall|i: int| 0 <= i < a.len() - 1 implies (#[trigger] a.drop_last()[i]).event_id
            == b.drop_last()[i].event_id by {
            assert(a[i].event_id == b[i].event_id);
        }
        lemma_echoes_same(a.drop_last(), b.drop_last());
    }
}

proof fn lemma_echoes_patch(a: Seq<MessageObject>, b: Seq<MessageObject>, i: int)
    requires
        0 <= i < a.len(),
        b == a.update(i, b[i]),
        a[i].event_id@.len() == 0,
        b[i].event_id@.len() > 0,
    ensures
        echoes(a) == echoes(b) + 1,
    decreases a.len(),
{
    if i == a.len() - 1 {
        assert(b.drop_last() == a.drop_last());
    } else {
        assert(b.drop_last() == a.drop_last().update(i, b.drop_last()[i]));
        lemma_echoes_patch(a.drop_last(), b.drop_last(), i);
    }
}

proof fn lemma_no_echo(items: Seq<MessageObject>, body: Seq<char>, n: int)
    requires
        echoes(items) == 0,
        0 <= n <= items.len(),
    ensures
        last_echo(items, body, n) == -1,
    decreases n,
{
    if n > 0 {
        lemma_echo_counted(items, n - 1);
        lemma_no_echo(items, body, n - 1);
    }
}

proof fn lemma_echo_counted(items: Seq<MessageObject>, i: int)
    requires
        0 <= i < items.len(),
        echoes(items) == 0,
    ensures
        items[i].event_id@.len() > 0,
    decreases items.len(),
{
    if i < items.len() - 1 {
        lemma_echo_counted(items.drop_last(), i);
    }
}

proof fn lemma_echoes_concat(a: Seq<MessageObject>, b: Seq<MessageObject>)
    ensures
        echoes(a + b) == echoes(a) + echoes(b),
    decreases b.len(),
{
    if b.len() == 0 {
        assert(a + b == a);
    } else {
        assert((a + b).drop_last() == a + b.drop_last());
        lemma_echoes_concat(a, b.drop_last());
    }
}

proof fn lemma_without_echoes(items: Seq<MessageObject>, start: int, count: int)
    requires
        0 <= start,
        0 <= count,
        start + count <= items.len(),
    ensures
        echoes(without(items, start, count)) <= echoes(items),
{
    let a = items.subrange(0, start);
    let b = items.subrange(start, start + count);
    let c = items.subrange(start + count, items.len() as int);
    assert(items == (a + b) + c);
    lemma_echoes_concat(a + b, c);
    lemma_echoes_concat(a, b);
    lemma_echoes_concat(a, c);
}

proof fn lemma_without_ids(items: Seq<MessageObject>, start: int, count: int, e: Seq<char>)
    requires
        0 <= start,
        0 <= count,
        start + count <= items.len(),
        unique_ids(items),
        e.len() > 0,
    ensures
        has_id(without(items, start, count), e) <==> has_id(items, e) && !has_id(
            items.subrange(start, start + count),
            e,
        ),
{
    let after = without(items, start, count);
    let mid = items.subrange(start, start + count);
    if has_id(after, e) {
        let k = choose|k: int| 0 <= k < after.len() && (#[trigger] after[k]).event_id@ == e;
        let k0: int = if k < start {
            k
        } else {
            k + count
        };
        assert(items[k0].event_id@ == e);
        if has_id(mid, e) {
            let l = choose|l: int| 0 <= l < mid.len() && (#[trigger] mid[l]).event_id@ == e;
            assert(items[start + l].event_id@ == e);
            if k0 < start + l {
                let x = items[k0];
            }
        }
    }
    if has_id(items, e) && !has_id(mid, e) {
        let k = choose|k: int| 0 <= k < items.len() && (#[trigger] items[k]).event_id@ == e;
        if start <= k < start + count {
            assert(mid[k - start].event_id@ == e);
        } else if k < start {
            assert(after[k].event_id@ == e);
        } else {
            assert(after[k - count].event_id@ == e);
        }
    }
}

// ---- laws ---------------------------------------------------------------------

/// No event is lost: after a batch arrived, the timeline holds exactly the
/// event ids that it held before and those of the batch.
pub proof fn law_insert_reaches(
    items: Seq<MessageObject>,
    batch: Seq<MessageObject>,
    e: Seq<char>,
)
    requires
        sorted(items),
    ensures
        has_id(inserted(items, batch), e) <==> has_id(items, e) || has_id(batch, e),
        sorted(inserted(items, batch)),
    decreases batch.len(),
{
    if batch.len() > 0 {
        let front = batch.drop_last();
        let m = batch.last();
        law_insert_reaches(items, front, e);
        let mid = inserted(items, front);
        lemma_upper_is_bound(mid, m.timestamp);
        lemma_insert_ids(mid, upper(mid, m.timestamp), m);
        lemma_insert_sorted(mid, upper(mid, m.timestamp), m);
        assert(has_id(placed(mid, m), e) <==> has_id(mid, e) || m.event_id@ == e);
        if has_id(front, e) {
            let k = choose|k: int| 0 <= k < front.len() && (#[trigger] front[k]).event_id@ == e;
            assert(batch[k].event_id@ == e);
        }
        if m.event_id@ == e {
            assert(batch[batch.len() - 1].event_id@ == e);
        }
        if has_id(batch, e) {
            let k = choose|k: int| 0 <= k < batch.len() && (#[trigger] batch[k]).event_id@ == e;
            if k < front.len() {
                assert(front[k].event_id@ == e);
            }
        }
    }
}

/// Nothing is lost or added: after a batch of new messages arrived, the timeline
/// holds the messages that it held before and those of the batch, each as often as
/// they stand there, in the order of their times.
pub proof fn law_insert_is_permutation(items: Seq<MessageObject>, batch: Seq<MessageObject>)
    requires
        sorted(items),
        unique_ids(batch),
        forall|i: int|
            0 <= i < batch.len() && (#[trigger] batch[i]).event_id@.len() > 0 ==> !has_id(
                items,
                batch[i].event_id@,
            ),
    ensures
        inserted(items, batch).to_multiset() == (items + batch).to_multiset(),
        inserted(items, batch).len() == items.len() + batch.len(),
        sorted(inserted(items, batch)),
        forall|e: Seq<char>| #[trigger]
            has_id(inserted(items, batch), e) <==> has_id(items, e) || has_id(batch, e),
    decreases batch.len(),
{
    assert forall|e: Seq<char>| #[trigger]
        has_id(inserted(items, batch), e) <==> has_id(items, e) || has_id(batch, e) by {
        law_insert_reaches(items, batch, e);
    }
    law_insert_reaches(items, batch, Seq::empty());
    if batch.len() == 0 {
        assert(items + batch =~= items);
    } else {
        let front = batch.drop_last();
        let m = batch.last();
        assert forall|i: int, j: int|
            #![trigger front[i], front[j]]
            0 <= i < j < front.len() && front[i].event_id@.len() > 0 implies front[i].event_id@
            != front[j].event_id@ by {
            assert(batch[i] == front[i] && batch[j] == front[j]);
        }
        assert forall|i: int|
            0 <= i < front.len() && (#[trigger] front[i]).event_id@.len() > 0 implies !has_id(
            items,
            front[i].event_id@,
        ) by {
            assert(batch[i] == front[i]);
        }
        law_insert_is_permutation(items, front);
        let mid = inserted(items, front);
        if m.event_id@.len() > 0 {
            law_insert_reaches(items, front, m.event_id@);
            assert(batch[batch.len() - 1] == m);
            if has_id(front, m.event_id@) {
                let k = choose|k: int|
                    0 <= k < front.len() && (#[trigger] front[k]).event_id@ == m.event_id@;
                assert(batch[k].event_id@ == batch[batch.len() - 1].event_id@);
            }
        }
        assert(inserted(items, batch) == placed(mid, m));
        lemma_upper_is_bound(mid, m.timestamp);
        vstd::seq_lib::to_multiset_insert(mid, upper(mid, m.timestamp), m);
        vstd::seq_lib::to_multiset_build(items + front, m);
        assert((items + front).push(m) =~= items + batch);
    }
}

/// A batch of acknowledged messages that arrives a second time changes
/// nothing.
pub proof fn law_insert_idempotent(items: Seq<MessageObject>, batch: Seq<MessageObject>)
    requires
        sorted(items),
        forall|i: int| 0 <= i < batch.len() ==> (#[trigger] batch[i]).event_id@.len() > 0,
    ensures
        inserted(inserted(items, batch), batch) == inserted(items, batch),
{
    let once = inserted(items, batch);
    assert forall|i: int| 0 <= i < batch.len() implies has_id(once, (#[trigger] batch[i]).event_id@) by {
        assert(has_id(batch, batch[i].event_id@));
        law_insert_reaches(items, batch, batch[i].event_id@);
    }
    lemma_all_known(once, batch);
}

proof fn lemma_all_known(items: Seq<MessageObject>, batch: Seq<MessageObject>)
    requires
        forall|i: int|
            0 <= i < batch.len() ==> (#[trigger] batch[i]).event_id@.len() > 0 && has_id(
                items,
                batch[i].event_id@,
            ),
    ensures
        inserted(items, batch) == items,
    decreases batch.len(),
{
    if batch.len() > 0 {
        let front = batch.drop_last();
        assert forall|i: int| 0 <= i < front.len() implies (#[trigger] front[i]).event_id@.len() > 0
            && has_id(items, front[i].event_id@) by {
            assert(batch[i] == front[i]);
        }
        lemma_all_known(items, front);
        let last = batch[batch.len() - 1];
        assert(has_id(items, last.event_id@));
    }
}

/// Taking a message out again undoes taking it in.
pub proof fn law_remove_undoes_insert(items: Seq<MessageObject>, m: MessageObject)
    requires
        sorted(items),
        m.event_id@.len() > 0,
        !has_id(items, m.event_id@),
    ensures
        ({
            let after = inserted(items, seq![m]);
            after.remove(position_of(after, m.event_id@, 0)) == items
        }),
{
    let p = upper(items, m.timestamp);
    lemma_upper_is_bound(items, m.timestamp);
    assert(seq![m].drop_last() == Seq::<MessageObject>::empty());
    reveal_with_fuel(inserted, 2);
    let after = items.insert(p, m);
    assert(inserted(items, seq![m]) == after);
    assert forall|i: int| 0 <= i < p implies (#[trigger] after[i]).event_id@ != m.event_id@ by {
        if items[i].event_id@ == m.event_id@ {
            assert(has_id(items, m.event_id@));
        }
    }
    lemma_position_is(after, m.event_id@, 0, p);
    assert(after.remove(p) == items);
}

proof fn lemma_position_is(items: Seq<MessageObject>, id: Seq<char>, from: int, p: int)
    requires
        0 <= from <= p < items.len(),
        items[p].event_id@ == id,
        forall|i: int| from <= i < p ==> (#[trigger] items[i]).event_id@ != id,
    ensures
        position_of(items, id, from) == p,
    decreases p - from,
{
    if from < p {
        assert(items[from].event_id@ != id);
        lemma_position_is(items, id, from + 1, p);
    }
}

/// A message that arrives stands behind every message that is not newer and
/// before every message that is: messages of one time stay in the order in
/// which they arrived.
pub proof fn law_placed_by_time(items: Seq<MessageObject>, m: MessageObject)
    requires
        sorted(items),
    ensures
        exists|p: int|
            0 <= p <= items.len() && placed(items, m) == #[trigger] items.insert(p, m) && (forall|
                i: int,
            |
                0 <= i < p ==> (#[trigger] items[i]).timestamp <= m.timestamp) && (forall|i: int|
                p <= i < items.len() ==> (#[trigger] items[i]).timestamp > m.timestamp),
{
    let p = upper(items, m.timestamp);
    lemma_upper_is_bound(items, m.timestamp);
    assert(placed(items, m) == items.insert(p, m));
}

/// The server's answer goes to the last message that waits for one with its text:
/// none behind it does, and one is found where there is any.
pub proof fn law_last_echo_is_acknowledged(items: Seq<MessageObject>, body: Seq<char>, n: int)
    requires
        0 <= n <= items.len(),
    ensures
        ({
            let k = last_echo(items, body, n);
            &&& -1 <= k < n || (k == -1 && n == 0)
            &&& k >= 0 ==> items[k].event_id@.len() == 0 && items[k].body@ == body
            &&& forall|j: int|
                k < j < n ==> (#[trigger] items[j]).event_id@.len() > 0 || items[j].body@ != body
        }),
    decreases n,
{
    if n > 0 && !(items[n - 1].event_id@.len() == 0 && items[n - 1].body@ == body) {
        law_last_echo_is_acknowledged(items, body, n - 1);
    }
}

/// The times that are told of a sorted list are those of its oldest and of its newest
/// message: no message is older or newer. An empty list has none.
pub proof fn law_told_times_are_the_limits(items: Seq<MessageObject>, i: int)
    requires
        sorted(items),
        0 <= i < items.len(),
    ensures
        derived(items).0 == items.len(),
        derived(items).1 <= items[i].timestamp <= derived(items).2,
        derived(items).1 == items[0].timestamp,
        derived(items).2 == items[items.len() - 1].timestamp,
        derived(Seq::empty()) == (0int, 0u64, 0u64),
{
    assert(items[0].timestamp <= items[i].timestamp);
    assert(items[i].timestamp <= items[items.len() - 1].timestamp);
}

/// A value that changed is told, once, and one that did not is not.
pub proof fn law_changed_values_are_told(before: (int, u64, u64), after: (int, u64, u64))
    ensures
        notifications(before, after).contains(ChangeView::NItems) <==> before.0 != after.0,
        notifications(before, after).contains(ChangeView::OldestTimestamp) <==> before.1 != after.1,
        notifications(before, after).contains(ChangeView::NewestTimestamp) <==> before.2 != after.2,
        notifications(before, after).no_duplicates(),
{
    let all = notifications(before, after);
    let a: int = if before.0 != after.0 {
        1
    } else {
        0
    };
    let b: int = if before.1 != after.1 {
        1
    } else {
        0
    };
    if before.0 != after.0 {
        assert(all[0] == ChangeView::NItems);
    }
    if before.1 != after.1 {
        assert(all[a] == ChangeView::OldestTimestamp);
    }
    if before.2 != after.2 {
        assert(all[a + b] == ChangeView::NewestTimestamp);
    }
}

/// A list that follows a splice keeps what stands before the place, gets the new
/// messages there, and goes on with what stood behind the messages that left.
pub proof fn law_splices_change_one_place(
    items: Seq<MessageObject>,
    position: int,
    removed: int,
    added: Seq<MessageObject>,
    i: int,
)
    requires
        0 <= position,
        0 <= removed,
        position + removed <= items.len(),
    ensures
        ({
            let then = spliced(items, ChangeView::Splice { position, removed, added });
            &&& then.len() == items.len() - removed + added.len()
            &&& 0 <= i < position ==> then[i] == items[i]
            &&& 0 <= i < added.len() ==> then[position + i] == added[i]
            &&& position + removed <= i < items.len() ==> then[i - removed + added.len()] == items[i]
        }),
        spliced(items, ChangeView::NItems) == items,
{
}

/// A message without an id waits for one; every other message does not.
pub proof fn law_messages_without_id_wait(items: Seq<MessageObject>, m: MessageObject)
    ensures
        m.event_id@.len() == 0 ==> echoes(items.push(m)) == echoes(items) + 1,
        m.event_id@.len() > 0 ==> echoes(items.push(m)) == echoes(items),
        echoes(Seq::empty()) == 0,
{
    assert(items.push(m).drop_last() == items);
}

/// A message is found by its id where there is one, and the first one is found.
pub proof fn law_messages_are_found_by_id(items: Seq<MessageObject>, id: Seq<char>, from: int)
    requires
        0 <= from <= items.len(),
    ensures
        ({
            let p = position_of(items, id, from);
            &&& from <= p <= items.len()
            &&& p < items.len() ==> items[p].event_id@ == id
            &&& forall|j: int| from <= j < p ==> (#[trigger] items[j]).event_id@ != id
        }),
    decreases items.len() - from,
{
    if from < items.len() && items[from].event_id@ != id {
        law_messages_are_found_by_id(items, id, from + 1);
    }
}

} // verus!
