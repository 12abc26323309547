//! Opening a room: what is shown at once, and whether it is fetched anew.

use vstd::prelude::*;
use crate::json::text_of;
use crate::matrix::event::MatrixEvent;
use crate::matrix::ids::{is_room_id, valid_room_id};
use crate::matrix::info::{
    blank_meta, clone_messages, clone_option, messages_of, MessageInfo, MessageView, MetaView, RoomMeta,
};
use crate::matrix::refresh::{has_id, shows_room};
use crate::matrix::requests::{addresses_event, edit_html};
use crate::matrix::room_cache::{appended, seen_recently, RoomCache, RoomTimelineView, DEDUP_WINDOW, MAX_MEMORY_MSGS};
use crate::matrix::sync::{memory_edited, Flush, Pending};
use crate::matrix::unread::{larger, resolve_unread};

verus! {

/// How old a fetched timeline may be to be shown without fetching it again.
pub const FRESH_MS: u64 = 60000;

/// Which room load is under way. Loads are numbered, so that one that was
/// overtaken does not end the one that overtook it.
pub struct LoadState {
    pub generation: u64,
    /// Whether background work has to wait.
    pub loading: bool,
}

/// The state after a load ended: another one that has started since goes on.
pub open spec fn ended(s: LoadState, generation: u64) -> LoadState {
    LoadState { loading: s.loading && generation != s.generation, ..s }
}

impl LoadState {
    pub fn new() -> (r: Self)
        ensures
            r.generation == 0,
            !r.loading,
    {
        LoadState { generation: 0, loading: false }
    }

    /// Starts a load and gives its number.
    pub fn begin(&mut self) -> (r: u64)
        requires
            old(self).generation < u64::MAX,
        ensures
            r == old(self).generation + 1,
            final(self).generation == r,
            final(self).loading,
    {
        self.generation = self.generation + 1;
        self.loading = true;
        self.generation
    }

    /// Ends a load, unless another one has started since.
    pub fn end(&mut self, generation: u64)
        ensures
            *final(self) == ended(*old(self), generation),
    {
        if generation == self.generation {
            self.loading = false;
        }
    }
}

/// The unread count that the server gives for a room; none for a text that is no
/// room id.
pub open spec fn server_count(room: Seq<char>, sdk_unread: Option<u32>) -> Option<u32> {
    if valid_room_id(room) {
        sdk_unread
    } else {
        None
    }
}

/// The header of a room in memory as it is shown: with the server's unread count
/// where it is known, and no fewer than the badge showed.
pub open spec fn memory_meta(meta: MetaView, count: Option<u32>, known: u32) -> MetaView {
    MetaView {
        unread_count: larger(
            (match count {
                Some(c) => c,
                None => meta.unread_count,
            }) as u64,
            known as u64,
        ) as u32,
        ..meta
    }
}

/// Shows a room that is in memory. None when it is not.
pub fn show_from_memory(
    cache: &RoomCache,
    room_id: &str,
    sdk_unread: Option<u32>,
    known_unread: u32,
) -> (r: Option<MatrixEvent>)
    ensures
        r is Some <==> cache.memory().contains_key(room_id@),
        r matches Some(event) ==> {
            let e = cache.memory()[room_id@];
            shows_room(
                event,
                room_id@,
                e.messages,
                e.prev_batch_token,
                memory_meta(e.meta, server_count(room_id@, sdk_unread), known_unread),
                false,
            )
        },
{
    let Some(entry) = cache.get_memory(room_id) else {
        return None;
    };
    let mut meta = entry.meta;
    let base: u32 = match sdk_unread {
        Some(c) => if is_room_id(room_id) {
            c
        } else {
            meta.unread_count
        },
        None => meta.unread_count,
    };
    meta.unread_count = resolve_unread(base, known_unread);
    Some(
        MatrixEvent::RoomMessages {
            room_id: room_id.to_owned(),
            messages: entry.messages,
            prev_batch_token: entry.prev_batch_token,
            room_meta: meta,
            is_background: false,
        },
    )
}

/// The header of a room that comes from disk: only the unread count is known.
pub open spec fn disk_meta(count: Option<u32>, known: u32) -> MetaView {
    MetaView {
        unread_count: larger(
            (match count {
                Some(c) => c,
                None => 0,
            }) as u64,
            known as u64,
        ) as u32,
        ..blank_meta()
    }
}

/// Shows a room from what was stored on disk, and takes it into memory. Nothing
/// happens when nothing was stored.
pub fn show_from_disk(
    cache: &mut RoomCache,
    room_id: &str,
    stored: Option<(Vec<MessageInfo>, Option<String>)>,
    sdk_unread: Option<u32>,
    known_unread: u32,
) -> (r: Option<MatrixEvent>)
    ensures
        final(cache).refreshed() == old(cache).refreshed(),
        final(cache).members() == old(cache).members(),
        match stored {
            None => r is None && final(cache).memory() == old(cache).memory(),
            Some((messages, token)) => {
                let meta = disk_meta(server_count(room_id@, sdk_unread), known_unread);
                &&& final(cache).memory() == (if old(cache).memory().contains_key(room_id@) {
                    old(cache).memory()
                } else {
                    old(cache).memory().insert(
                        room_id@,
                        (RoomTimelineView {
                            messages: messages_of(messages@),
                            prev_batch_token: text_of(token),
                            meta,
                        }),
                    )
                })
                &&& r is Some
                &&& shows_room(
                    r->0,
                    room_id@,
                    messages_of(messages@),
                    text_of(token),
                    meta,
                    false,
                )
            },
        },
{
    let Some((messages, token)) = stored else {
        return None;
    };
    let count: u32 = match sdk_unread {
        Some(c) => if is_room_id(room_id) {
            c
        } else {
            0
        },
        None => 0,
    };
    let mut meta = RoomMeta::default();
    meta.unread_count = resolve_unread(count, known_unread);
    cache.insert_memory_if_absent(
        room_id,
        clone_messages(&messages),
        clone_option(&token),
        meta.clone(),
    );
    Some(
        MatrixEvent::RoomMessages {
            room_id: room_id.to_owned(),
            messages,
            prev_batch_token: token,
            room_meta: meta,
            is_background: false,
        },
    )
}

/// Messages after the first `n` of others were appended.
pub open spec fn appended_all(messages: Seq<MessageView>, more: Seq<MessageView>, n: int) -> Seq<
    MessageView,
>
    decreases n,
{
    if n <= 0 {
        messages
    } else {
        appended(appended_all(messages, more, n - 1), more[n - 1])
    }
}

/// The messages that were kept for a room.
pub open spec fn kept_for(pending: &Pending, room: Seq<char>) -> Seq<MessageView> {
    if pending.map().contains_key(room) {
        pending.map()[room]
    } else {
        Seq::empty()
    }
}

/// Brings in the messages that arrived while the room was not in memory. The
/// result is what is shown and what is written to disk; None when there is nothing
/// to bring in, or the room is not in memory even now.
pub fn apply_pending(
    cache: &mut RoomCache,
    pending: &mut Pending,
    room_id: &str,
    known_unread: u32,
) -> (r: Option<(MatrixEvent, Flush)>)
    ensures
        final(cache).refreshed() == old(cache).refreshed(),
        final(cache).members() == old(cache).members(),
        final(pending).map() == old(pending).map().remove(room_id@),
        r is Some <==> kept_for(old(pending), room_id@).len() > 0 && old(
            cache,
        ).memory().contains_key(room_id@),
        r is None ==> final(cache).memory() == old(cache).memory(),
        r matches Some((event, flush)) ==> {
            let e = old(cache).memory()[room_id@];
            let kept = kept_for(old(pending), room_id@);
            let messages = appended_all(e.messages, kept, kept.len() as int);
            &&& final(cache).memory() == old(cache).memory().insert(
                room_id@,
                (RoomTimelineView { messages, ..e }),
            )
            &&& shows_room(
                event,
                room_id@,
                messages,
                e.prev_batch_token,
                memory_meta(e.meta, None, known_unread),
                false,
            )
            &&& flush.room_id@ == room_id@
            &&& messages_of(flush.messages@) == messages
            &&& text_of(flush.token) == e.prev_batch_token
        },
{
    let kept = pending.take(room_id);
    let ghost more = messages_of(kept@);
    let ghost start = cache.memory();
    if kept.len() == 0 || !cache.has_memory(room_id) {
        return None;
    }
    let ghost e = start[room_id@];
    let mut i: usize = 0;
    assert(start =~= start.insert(room_id@, (RoomTimelineView { messages: e.messages, ..e })));
    while i < kept.len()
        invariant
            i <= kept@.len(),
            more == messages_of(kept@),
            start == old(cache).memory(),
            start.contains_key(room_id@),
            e == start[room_id@],
            cache.memory() == start.insert(
                room_id@,
                (RoomTimelineView { messages: appended_all(e.messages, more, i as int), ..e }),
            ),
            cache.refreshed() == old(cache).refreshed(),
            cache.members() == old(cache).members(),
        decreases kept@.len() - i,
    {
        let ghost before = cache.memory();
        assert(more[i as int] == kept@[i as int]@);
        let _ = cache.append_memory(room_id, kept[i].clone());
        assert(cache.memory() =~= start.insert(
            room_id@,
            (RoomTimelineView { messages: appended_all(e.messages, more, i + 1), ..e }),
        ));
        i = i + 1;
    }
    let Some(entry) = cache.get_memory(room_id) else {
        return None;
    };
    let mut meta = entry.meta;
    meta.unread_count = resolve_unread(meta.unread_count, known_unread);
    let flush = Flush {
        room_id: room_id.to_owned(),
        messages: clone_messages(&entry.messages),
        token: clone_option(&entry.prev_batch_token),
    };
    Some(
        (
            MatrixEvent::RoomMessages {
                room_id: room_id.to_owned(),
                messages: entry.messages,
                prev_batch_token: entry.prev_batch_token,
                room_meta: meta,
                is_background: false,
            },
            flush,
        ),
    )
}

/// Whether a room is in memory and was fetched a moment ago.
pub open spec fn up_to_date(cache: RoomCache, room: Seq<char>, now_ms: u64) -> bool {
    cache.memory().contains_key(room) && cache.refreshed().contains_key(room) && (now_ms
        < cache.refreshed()[room] || now_ms - cache.refreshed()[room] < FRESH_MS)
}

/// Decides whether an opened room is fetched, and says so to the user interface.
/// A timeline that was fetched a moment ago is not fetched again; then the load is
/// over.
pub fn start_fetch(
    cache: &RoomCache,
    load: &mut LoadState,
    generation: u64,
    room_id: &str,
    now_ms: u64,
) -> (r: Option<MatrixEvent>)
    ensures
        ({
            let fresh = up_to_date(*cache, room_id@, now_ms);
            &&& r is None <==> fresh
            &&& r matches Some(event) ==> (event matches MatrixEvent::BgRefreshStarted {
                room_id: id,
            } && id@ == room_id@)
            &&& *final(load) == (if fresh {
                ended(*old(load), generation)
            } else {
                *old(load)
            })
        }),
{
    if cache.is_fresh(room_id, now_ms, FRESH_MS) {
        load.end(generation);
        None
    } else {
        Some(MatrixEvent::BgRefreshStarted { room_id: room_id.to_owned() })
    }
}

/// The new text of an edited message.
#[derive(Debug)]
pub struct OutgoingEdit {
    pub body: String,
    pub html: Option<String>,
}

/// Takes an edit by the user into the timeline, and says what is sent. None when
/// the ids are not valid; an empty HTML body counts as none.
pub fn edit_message(
    cache: &mut RoomCache,
    room_id: &str,
    event_id: &str,
    new_body: &str,
    new_formatted: &Option<String>,
) -> (r: Option<OutgoingEdit>)
    ensures
        final(cache).refreshed() == old(cache).refreshed(),
        final(cache).members() == old(cache).members(),
        ({
            let valid = valid_room_id(room_id@) && crate::matrix::ids::valid_event_id(event_id@);
            let html = if new_formatted is Some && new_formatted->0@.len() > 0 {
                text_of(*new_formatted)
            } else {
                None
            };
            &&& r is Some <==> valid
            &&& r matches Some(edit) ==> edit.body@ == new_body@ && text_of(edit.html) == html
            &&& final(cache).memory() == (if valid {
                memory_edited(old(cache).memory(), room_id@, event_id@, new_body@, html)
            } else {
                old(cache).memory()
            })
        }),
{
    if !addresses_event(room_id, event_id) {
        return None;
    }
    let html = edit_html(new_formatted);
    let formatted: Option<&str> = match &html {
        Some(h) => Some(h.as_str()),
        None => None,
    };
    let _ = cache.update_message_body_in_cache(room_id, event_id, new_body, formatted);
    Some(OutgoingEdit { body: new_body.to_owned(), html })
}

/// A load that was overtaken cannot end the one that overtook it.
pub proof fn law_stale_load_ends_nothing(s: LoadState, stale: u64)
    requires
        stale < s.generation,
    ensures
        ended(s, stale) == s,
{
}

/// A room that is opened from memory or from disk shows no fewer unread messages
/// than its badge did.
pub proof fn law_badge_is_a_floor(meta: MetaView, count: Option<u32>, known: u32)
    ensures
        memory_meta(meta, count, known).unread_count >= known,
        disk_meta(count, known).unread_count >= known,
{
}

/// Whether one of the last `k` messages has the id.
pub open spec fn among_last(messages: Seq<MessageView>, id: Seq<char>, k: int) -> bool {
    exists|p: int|
        0 <= p < messages.len() && messages.len() - k <= p && (#[trigger] messages[p]).event_id == id
}

proof fn lemma_among_last(messages: Seq<MessageView>, more: Seq<MessageView>, i: int, n: int)
    requires
        0 <= i < n <= more.len(),
        n - i + DEDUP_WINDOW <= MAX_MEMORY_MSGS,
    ensures
        among_last(appended_all(messages, more, n), more[i].event_id, DEDUP_WINDOW + n - i),
    decreases n,
{
    let before = appended_all(messages, more, n - 1);
    let all = appended_all(messages, more, n);
    let m = more[n - 1];
    let id = more[i].event_id;
    let pushed = !(m.event_id.len() > 0 && seen_recently(before, m.event_id));
    if i == n - 1 {
        if pushed {
            assert(all[all.len() - 1] == m);
        } else {
            let p = choose|p: int|
                0 <= p < before.len() && before.len() - DEDUP_WINDOW <= p && (
                #[trigger] before[p]).event_id == id;
            assert(all[p].event_id == id);
        }
    } else {
        lemma_among_last(messages, more, i, n - 1);
        let k = DEDUP_WINDOW + (n - 1) - i;
        let p = choose|p: int|
            0 <= p < before.len() && before.len() - k <= p && (#[trigger] before[p]).event_id == id;
        if pushed {
            let q = p + all.len() - (before.len() + 1);
            assert(all[q] == before[p]);
        } else {
            assert(all[p].event_id == id);
        }
    }
}

/// The messages that arrived while a room was not in memory are there once the
/// room is opened, but for those that so many others followed that they are no
/// longer held in memory.
pub proof fn law_pending_messages_are_there(
    messages: Seq<MessageView>,
    more: Seq<MessageView>,
    i: int,
)
    requires
        0 <= i < more.len(),
        more.len() - i + DEDUP_WINDOW <= MAX_MEMORY_MSGS,
    ensures
        has_id(appended_all(messages, more, more.len() as int), more[i].event_id),
{
    lemma_among_last(messages, more, i, more.len() as int);
    let all = appended_all(messages, more, more.len() as int);
    let k = DEDUP_WINDOW + more.len() - i;
    let p = choose|p: int|
        0 <= p < all.len() && all.len() - k <= p && (#[trigger] all[p]).event_id == more[i].event_id;
    assert(all[p].event_id == more[i].event_id);
}

/// A room is taken for up to date for a minute after it was fetched, and no longer.
pub proof fn law_rooms_are_fresh_for_a_minute(cache: RoomCache, room: Seq<char>, now_ms: u64)
    requires
        cache.memory().contains_key(room),
        cache.refreshed().contains_key(room),
        now_ms >= cache.refreshed()[room],
    ensures
        up_to_date(cache, room, now_ms) <==> now_ms < cache.refreshed()[room] + 60000,
{
}

/// What is not in memory, or was never fetched, is not up to date.
pub proof fn law_unknown_rooms_are_fetched(cache: RoomCache, room: Seq<char>, now_ms: u64)
    ensures
        !cache.memory().contains_key(room) ==> !up_to_date(cache, room, now_ms),
        !cache.refreshed().contains_key(room) ==> !up_to_date(cache, room, now_ms),
{
}

/// The unread count of an opened room is the server's, or the badge's where that is
/// larger; nothing else of what is known of the room changes.
pub proof fn law_opened_room_keeps_its_header(meta: MetaView, count: Option<u32>, known: u32)
    ensures
        ({
            let m = memory_meta(meta, count, known);
            &&& m == (MetaView { unread_count: m.unread_count, ..meta })
            &&& count matches Some(c) ==> (m.unread_count == c || m.unread_count == known)
                && m.unread_count >= c
            &&& count is None ==> (m.unread_count == meta.unread_count || m.unread_count == known)
                && m.unread_count >= meta.unread_count
        }),
        ({
            let d = disk_meta(count, known);
            &&& count matches Some(c) ==> (d.unread_count == c || d.unread_count == known)
                && d.unread_count >= c
            &&& count is None ==> d.unread_count == known
            &&& d.topic.len() == 0
            &&& d.members.len() == 0
            &&& !d.is_tombstoned
        }),
{
}

/// Messages that arrived while a room was not in memory come behind those in memory,
/// in their order.
pub proof fn law_pending_messages_come_last(
    messages: Seq<MessageView>,
    more: Seq<MessageView>,
    n: int,
)
    requires
        0 <= n <= more.len(),
        messages.len() + more.len() <= 100,
        forall|i: int, j: int|
            0 <= i < j < (messages + more).len() ==> (#[trigger] (messages + more)[i]).event_id != (
            #[trigger] (messages + more)[j]).event_id,
    ensures
        appended_all(messages, more, n) == messages + more.take(n),
    decreases n,
{
    let all = messages + more;
    if n > 0 {
        law_pending_messages_come_last(messages, more, n - 1);
        let before = messages + more.take(n - 1);
        let m = more[n - 1];
        assert(all[messages.len() + (n - 1)] == m);
        assert(!seen_recently(before, m.event_id)) by {
            if seen_recently(before, m.event_id) {
                let p = choose|p: int|
                    0 <= p < before.len() && before.len() - DEDUP_WINDOW <= p && (
                    #[trigger] before[p]).event_id == m.event_id;
                assert(before[p] == all[p]);
                assert(all[p].event_id != all[messages.len() + (n - 1)].event_id);
            }
        }
        assert(before.push(m) =~= messages + more.take(n));
    } else {
        assert(messages + more.take(0) =~= messages);
    }
}

/// While a load goes on, only its own end ends it.
pub proof fn law_load_ends_itself(s: LoadState)
    requires
        s.loading,
    ensures
        !ended(s, s.generation).loading,
        ended(s, s.generation).generation == s.generation,
{
}

/// The unread count of the server counts for a valid room id only.
pub proof fn law_server_count_needs_a_room(room: Seq<char>, sdk_unread: Option<u32>)
    ensures
        valid_room_id(room) ==> server_count(room, sdk_unread) == sdk_unread,
        !valid_room_id(room) ==> server_count(room, sdk_unread) is None,
{
}

} // verus!
