//! The timelines, freshness and member lists that are kept in memory, and the
//! names of the files that timelines are stored in.

use vstd::prelude::*;
use crate::json::text_of;
use crate::matrix::info::{clone_messages, clone_option, clone_pairs, messages_of, MessageInfo, MessageView,
    MetaView, RoomMeta};
use crate::table::Table;
use crate::text::{chars_of, push_str, same, string_of};

verus! {

/// How many messages of a room are kept in memory.
pub const MAX_MEMORY_MSGS: usize = 100;

/// How far back an appended message is compared with those already there.
pub const DEDUP_WINDOW: usize = 20;

/// The timeline of one room.
pub struct RoomTimeline {
    pub messages: Vec<MessageInfo>,
    /// Pagination token for older messages.
    pub prev_batch_token: Option<String>,
    pub meta: RoomMeta,
}

/// The timeline of one room, by sequences.
pub struct RoomTimelineView {
    pub messages: Seq<MessageView>,
    pub prev_batch_token: Option<Seq<char>>,
    pub meta: MetaView,
}

impl View for RoomTimeline {
    type V = RoomTimelineView;

    open spec fn view(&self) -> RoomTimelineView {
        RoomTimelineView {
            messages: messages_of(self.messages@),
            prev_batch_token: text_of(self.prev_batch_token),
            meta: self.meta@,
        }
    }
}

impl Clone for RoomTimeline {
    fn clone(&self) -> (r: Self)
        ensures
            r@ == self@,
    {
        RoomTimeline {
            messages: clone_messages(&self.messages),
            prev_batch_token: clone_option(&self.prev_batch_token),
            meta: self.meta.clone(),
        }
    }
}

/// The member list of one room: display names and avatars by user id.
pub struct MemberList {
    pub members: Vec<(String, String)>,
    pub avatars: Vec<(String, String)>,
}

/// Whether one of the last messages has this event id.
pub open spec fn seen_recently(messages: Seq<MessageView>, event_id: Seq<char>) -> bool {
    exists|i: int|
        0 <= i < messages.len() && messages.len() - DEDUP_WINDOW <= i && (
        #[trigger] messages[i]).event_id == event_id
}

/// The messages after one more arrived: a message that was seen recently is
/// dropped, and only the newest are kept.
pub open spec fn appended(messages: Seq<MessageView>, m: MessageView) -> Seq<MessageView> {
    if m.event_id.len() > 0 && seen_recently(messages, m.event_id) {
        messages
    } else {
        let all = messages.push(m);
        if all.len() > MAX_MEMORY_MSGS {
            all.subrange(all.len() - MAX_MEMORY_MSGS, all.len() as int)
        } else {
            all
        }
    }
}

/// The position of the first message with this event id, or the length.
pub open spec fn message_position(messages: Seq<MessageView>, event_id: Seq<char>, i: int) -> int
    decreases messages.len() - i,
{
    if i < 0 || i >= messages.len() {
        messages.len() as int
    } else if messages[i].event_id == event_id {
        i
    } else {
        message_position(messages, event_id, i + 1)
    }
}

/// The messages after an edit.
pub open spec fn edited(
    messages: Seq<MessageView>,
    event_id: Seq<char>,
    body: Seq<char>,
    formatted: Option<Seq<char>>,
) -> Seq<MessageView> {
    let i = message_position(messages, event_id, 0);
    if i < messages.len() {
        messages.update(i, MessageView { body, formatted_body: formatted, ..messages[i] })
    } else {
        messages
    }
}

/// The timelines that are kept in memory.
pub struct RoomCache {
    memory: Table<RoomTimeline>,
    /// When each room was last fetched from the server, in milliseconds on a
    /// clock that never goes back.
    refreshed_at: Table<u64>,
    /// Member lists, which outlive the timelines.
    members: Table<MemberList>,
}

impl RoomCache {
    /// The timelines by room.
    pub closed spec fn memory(&self) -> Map<Seq<char>, RoomTimelineView> {
        self.memory.map().map_values(|e: RoomTimeline| e@)
    }

    /// The times of the last fetches by room.
    pub closed spec fn refreshed(&self) -> Map<Seq<char>, u64> {
        self.refreshed_at.map()
    }

    /// The member lists by room.
    pub closed spec fn members(&self) -> Map<
        Seq<char>,
        (Seq<(String, String)>, Seq<(String, String)>),
    > {
        self.members.map().map_values(|l: MemberList| (l.members@, l.avatars@))
    }

    pub fn new() -> (r: Self)
        ensures
            r.memory() == Map::<Seq<char>, RoomTimelineView>::empty(),
            r.refreshed() == Map::<Seq<char>, u64>::empty(),
            r.members() == Map::<
                Seq<char>,
                (Seq<(String, String)>, Seq<(String, String)>),
            >::empty(),
    {
        let r = RoomCache {
            memory: Table::new(),
            refreshed_at: Table::new(),
            members: Table::new(),
        };
        assert(r.memory() =~= Map::<Seq<char>, RoomTimelineView>::empty());
        assert(r.members() =~= Map::<
            Seq<char>,
            (Seq<(String, String)>, Seq<(String, String)>),
        >::empty());
        r
    }

    /// A copy of a room's timeline.
    pub fn get_memory(&self, room_id: &str) -> (r: Option<RoomTimeline>)
        ensures
            match r {
                Some(e) => self.memory().contains_key(room_id@) && self.memory()[room_id@] == e@,
                None => !self.memory().contains_key(room_id@),
            },
    {
        match self.memory.get(room_id) {
            Some(e) => Some(e.clone()),
            None => None,
        }
    }

    /// Whether a room's timeline is in memory.
    pub fn has_memory(&self, room_id: &str) -> (r: bool)
        ensures
            r == self.memory().contains_key(room_id@),
    {
        self.memory.get(room_id).is_some()
    }

    /// Puts a room's timeline into memory, over what was there.
    pub fn insert_memory_only(
        &mut self,
        room_id: &str,
        msgs: Vec<MessageInfo>,
        token: Option<String>,
        meta: RoomMeta,
    )
        ensures
            final(self).memory() == old(self).memory().insert(
                room_id@,
                RoomTimelineView {
                    messages: messages_of(msgs@),
                    prev_batch_token: text_of(token),
                    meta: meta@,
                },
            ),
            final(self).refreshed() == old(self).refreshed(),
            final(self).members() == old(self).members(),
    {
        let entry = RoomTimeline { messages: msgs, prev_batch_token: token, meta };
        self.memory.insert(room_id.to_owned(), entry);
        assert(self.memory() =~= old(self).memory().insert(room_id@, entry@));
    }

    /// Puts a room's timeline into memory, unless there is one already.
    pub fn insert_memory_if_absent(
        &mut self,
        room_id: &str,
        msgs: Vec<MessageInfo>,
        token: Option<String>,
        meta: RoomMeta,
    )
        ensures
            final(self).memory() == (if old(self).memory().contains_key(room_id@) {
                old(self).memory()
            } else {
                old(self).memory().insert(
                    room_id@,
                    RoomTimelineView {
                        messages: messages_of(msgs@),
                        prev_batch_token: text_of(token),
                        meta: meta@,
                    },
                )
            }),
            final(self).refreshed() == old(self).refreshed(),
            final(self).members() == old(self).members(),
    {
        if !self.has_memory(room_id) {
            self.insert_memory_only(room_id, msgs, token, meta);
        }
    }

    /// Notes that a room was fetched from the server at time `now_ms`.
    pub fn mark_fresh(&mut self, room_id: &str, now_ms: u64)
        ensures
            final(self).refreshed() == old(self).refreshed().insert(room_id@, now_ms),
            final(self).memory() == old(self).memory(),
            final(self).members() == old(self).members(),
    {
        self.refreshed_at.insert(room_id.to_owned(), now_ms);
    }

    /// Whether a room was fetched from the server at all since it was last
    /// invalidated.
    pub fn was_server_fetched(&self, room_id: &str) -> (r: bool)
        ensures
            r == self.refreshed().contains_key(room_id@),
    {
        self.refreshed_at.get(room_id).is_some()
    }

    /// Whether a room's timeline is in memory and was fetched less than
    /// `max_age_ms` before `now_ms`.
    pub fn is_fresh(&self, room_id: &str, now_ms: u64, max_age_ms: u64) -> (r: bool)
        ensures
            r == (self.memory().contains_key(room_id@) && self.refreshed().contains_key(room_id@)
                && (if now_ms >= self.refreshed()[room_id@] {
                now_ms - self.refreshed()[room_id@] < max_age_ms
            } else {
                0 < max_age_ms
            })),
    {
        if !self.has_memory(room_id) {
            return false;
        }
        match self.refreshed_at.get(room_id) {
            Some(t) => {
                let age: u64 = if now_ms >= *t {
                    now_ms - *t
                } else {
                    0
                };
                age < max_age_ms
            },
            None => false,
        }
    }

    /// Sets the body of one message, for an edit. True when the message is
    /// there.
    pub fn update_message_body_in_cache(
        &mut self,
        room_id: &str,
        event_id: &str,
        new_body: &str,
        new_formatted: Option<&str>,
    ) -> (r: bool)
        ensures
            r == (old(self).memory().contains_key(room_id@) && message_position(
                old(self).memory()[room_id@].messages,
                event_id@,
                0,
            ) < old(self).memory()[room_id@].messages.len()),
            final(self).memory() == (if old(self).memory().contains_key(room_id@) {
                let e = old(self).memory()[room_id@];
                old(self).memory().insert(
                    room_id@,
                    RoomTimelineView {
                        messages: edited(
                            e.messages,
                            event_id@,
                            new_body@,
                            match new_formatted {
                                Some(f) => Some(f@),
                                None => None,
                            },
                        ),
                        ..e
                    },
                )
            } else {
                old(self).memory()
            }),
            final(self).refreshed() == old(self).refreshed(),
            final(self).members() == old(self).members(),
    {
        match self.memory.position(room_id) {
            None => {
                proof {
                    assert(!self.memory.map().contains_key(room_id@));
                }
                false
            },
            Some(p) => {
                let mut entry = self.memory.value_at(p).clone();
                let ghost before = entry@;
                proof {
                    assert(self.memory.map().contains_key(room_id@));
                    assert(self.memory()[room_id@] == before);
                }
                let mut i: usize = 0;
                let mut found = false;
                while i < entry.messages.len() && !found
                    invariant
                        i <= entry.messages@.len(),
                        !found ==> entry@ == before && message_position(
                            before.messages,
                            event_id@,
                            i as int,
                        ) == message_position(before.messages, event_id@, 0),
                        found ==> message_position(before.messages, event_id@, 0)
                            < before.messages.len(),
                        found ==> entry@ == (RoomTimelineView {
                            messages: edited(
                                before.messages,
                                event_id@,
                                new_body@,
                                match new_formatted {
                                    Some(f) => Some(f@),
                                    None => None,
                                },
                            ),
                            ..before
                        }),
                    decreases entry.messages@.len() - i, (if found { 0int } else { 1int }),
                {
                    if same(entry.messages[i].event_id.as_str(), event_id) {
                        let mut m = entry.messages[i].clone();
                        m.body = new_body.to_owned();
                        m.formatted_body = crate::matrix::info::own_option(new_formatted);
                        assert(before.messages[i as int].event_id == event_id@);
                        entry.messages.set(i, m);
                        found = true;
                        assert(entry@.messages =~= edited(
                            before.messages,
                            event_id@,
                            new_body@,
                            match new_formatted {
                                Some(f) => Some(f@),
                                None => None,
                            },
                        ));
                    } else {
                        i = i + 1;
                    }
                }
                assert(!found ==> entry@.messages == edited(
                    before.messages,
                    event_id@,
                    new_body@,
                    match new_formatted {
                        Some(f) => Some(f@),
                        None => None,
                    },
                ));
                self.memory.insert(room_id.to_owned(), entry);
                assert(self.memory() =~= old(self).memory().insert(room_id@, entry@));
                found
            },
        }
    }

    /// Appends a message to a room's timeline. False when the timeline is not
    /// in memory.
    pub fn append_memory(&mut self, room_id: &str, msg: MessageInfo) -> (r: bool)
        ensures
            r == old(self).memory().contains_key(room_id@),
            final(self).memory() == (if r {
                let e = old(self).memory()[room_id@];
                old(self).memory().insert(
                    room_id@,
                    RoomTimelineView { messages: appended(e.messages, msg@), ..e },
                )
            } else {
                old(self).memory()
            }),
            final(self).refreshed() == old(self).refreshed(),
            final(self).members() == old(self).members(),
    {
        match self.memory.position(room_id) {
            None => {
                proof {
                    assert(!self.memory.map().contains_key(room_id@));
                }
                false
            },
            Some(p) => {
                let mut entry = self.memory.value_at(p).clone();
                let ghost before = entry@;
                proof {
                    assert(self.memory.map().contains_key(room_id@));
                    assert(self.memory()[room_id@] == before);
                }
                if !recently(&entry.messages, &msg) {
                    entry.messages.push(msg);
                    assert(messages_of(entry.messages@) =~= before.messages.push(msg@));
                    let n: usize = entry.messages.len();
                    if n > MAX_MEMORY_MSGS {
                        let ghost all = entry.messages@;
                        let kept = entry.messages.split_off(n - MAX_MEMORY_MSGS);
                        entry.messages = kept;
                        assert(messages_of(entry.messages@) =~= messages_of(all).subrange(
                            all.len() - MAX_MEMORY_MSGS,
                            all.len() as int,
                        ));
                    }
                }
                assert(entry@.messages == appended(before.messages, msg@));
                self.memory.insert(room_id.to_owned(), entry);
                assert(self.memory() =~= old(self).memory().insert(room_id@, entry@));
                true
            },
        }
    }

    /// The event id of the last message of a room, if it has one.
    pub fn latest_event_id(&self, room_id: &str) -> (r: Option<String>)
        ensures
            text_of(r) == (if self.memory().contains_key(room_id@)
                && self.memory()[room_id@].messages.len() > 0
                && self.memory()[room_id@].messages.last().event_id.len() > 0 {
                Some(self.memory()[room_id@].messages.last().event_id)
            } else {
                None
            }),
    {
        match self.memory.get(room_id) {
            Some(e) => {
                let n: usize = e.messages.len();
                if n > 0 && !e.messages[n - 1].event_id.as_str().is_empty() {
                    Some(e.messages[n - 1].event_id.clone())
                } else {
                    None
                }
            },
            None => None,
        }
    }

    /// The member list of a room, if one was stored. It survives invalidating
    /// the room.
    pub fn get_cached_members(&self, room_id: &str) -> (r: Option<
        (Vec<(String, String)>, Vec<(String, String)>),
    >)
        ensures
            match r {
                Some(l) => self.members().contains_key(room_id@) && self.members()[room_id@] == (
                    l.0@,
                    l.1@,
                ),
                None => !self.members().contains_key(room_id@),
            },
    {
        match self.members.get(room_id) {
            Some(l) => Some((clone_pairs(&l.members), clone_pairs(&l.avatars))),
            None => None,
        }
    }

    /// Stores the member list of a room.
    pub fn cache_members(
        &mut self,
        room_id: &str,
        members: Vec<(String, String)>,
        member_avatars: Vec<(String, String)>,
    )
        ensures
            final(self).members() == old(self).members().insert(
                room_id@,
                (members@, member_avatars@),
            ),
            final(self).memory() == old(self).memory(),
            final(self).refreshed() == old(self).refreshed(),
    {
        let list = MemberList { members, avatars: member_avatars };
        self.members.insert(room_id.to_owned(), list);
        assert(self.members() =~= old(self).members().insert(
            room_id@,
            (list.members@, list.avatars@),
        ));
    }

    /// Takes a room's timeline out of memory; its file, if any, is to be
    /// deleted along with it.
    pub fn remove(&mut self, room_id: &str)
        ensures
            final(self).memory() == old(self).memory().remove(room_id@),
            final(self).refreshed() == old(self).refreshed(),
            final(self).members() == old(self).members(),
    {
        self.remove_memory(room_id);
    }

    /// Takes a room's timeline out of memory; its file stays.
    pub fn remove_memory(&mut self, room_id: &str)
        ensures
            final(self).memory() == old(self).memory().remove(room_id@),
            final(self).refreshed() == old(self).refreshed(),
            final(self).members() == old(self).members(),
    {
        let _ = self.memory.remove(room_id);
        assert(self.memory() =~= old(self).memory().remove(room_id@));
    }

    /// Takes all timelines out of memory.
    pub fn clear_memory(&mut self)
        ensures
            final(self).memory() == Map::<Seq<char>, RoomTimelineView>::empty(),
            final(self).refreshed() == old(self).refreshed(),
            final(self).members() == old(self).members(),
    {
        self.memory = Table::new();
        assert(self.memory() =~= Map::<Seq<char>, RoomTimelineView>::empty());
    }

    /// Takes a room's timeline out of memory and forgets when it was fetched,
    /// so that it is fetched anew.
    pub fn invalidate_room(&mut self, room_id: &str)
        ensures
            final(self).memory() == old(self).memory().remove(room_id@),
            final(self).refreshed() == old(self).refreshed().remove(room_id@),
            final(self).members() == old(self).members(),
    {
        let _ = self.memory.remove(room_id);
        let _ = self.refreshed_at.remove(room_id);
        assert(self.memory() =~= old(self).memory().remove(room_id@));
    }
}

/// Whether a message that is to be appended was seen recently.
fn recently(messages: &Vec<MessageInfo>, msg: &MessageInfo) -> (r: bool)
    ensures
        r == (msg@.event_id.len() > 0 && seen_recently(messages_of(messages@), msg@.event_id)),
{
    if msg.event_id.as_str().is_empty() {
        return false;
    }
    let ghost view = messages_of(messages@);
    let n: usize = messages.len();
    let from: usize = if n > DEDUP_WINDOW {
        n - DEDUP_WINDOW
    } else {
        0
    };
    let mut i: usize = from;
    while i < n
        invariant
            from <= i <= n,
            n == messages@.len(),
            view == messages_of(messages@),
            from == (if n > DEDUP_WINDOW {
                n - DEDUP_WINDOW
            } else {
                0
            }),
            msg@.event_id.len() > 0,
            forall|j: int| from <= j < i ==> (#[trigger] view[j]).event_id != msg@.event_id,
        decreases n - i,
    {
        if same(messages[i].event_id.as_str(), msg.event_id.as_str()) {
            assert(view[i as int].event_id == msg@.event_id);
            return true;
        }
        assert(view[i as int].event_id != msg@.event_id);
        i = i + 1;
    }
    false
}

// ---- files --------------------------------------------------------------------

/// A character that is kept in a file name.
pub open spec fn safe_char(c: char) -> bool {
    crate::text::is_ascii_alnum(c) || c == '-' || c == '_' || c == '.'
}

/// The file name of a room.
pub open spec fn file_name(room_id: Seq<char>) -> Seq<char> {
    room_id.map_values(
        |c: char|
            if safe_char(c) {
                c
            } else {
                '_'
            },
    ) + ".json"@
}

/// The files that timelines are stored in, one for each room.
pub struct TimelineStore {}

impl TimelineStore {
    /// The file name of a room: characters that file systems may not like are
    /// replaced.
    pub fn filename(room_id: &str) -> (r: String)
        ensures
            r@ == file_name(room_id@),
    {
        let v = chars_of(room_id);
        let mut out: Vec<char> = Vec::new();
        let mut i: usize = 0;
        while i < v.len()
            invariant
                i <= v.len(),
                v@ == room_id@,
                out@.len() == i,
                forall|j: int|
                    0 <= j < i ==> #[trigger] out@[j] == (if safe_char(v@[j]) {
                        v@[j]
                    } else {
                        '_'
                    }),
            decreases v.len() - i,
        {
            let c = v[i];
            if crate::text::char_is_ascii_alnum(c) || c == '-' || c == '_' || c == '.' {
                out.push(c);
            } else {
                out.push('_');
            }
            i = i + 1;
        }
        push_str(&mut out, ".json");
        assert(out@ =~= file_name(room_id@));
        string_of(&out)
    }

    /// What a stored timeline gives: nothing when it holds no messages.
    pub fn load(messages: Vec<MessageInfo>, token: Option<String>) -> (r: Option<
        (Vec<MessageInfo>, Option<String>),
    >)
        ensures
            r == (if messages@.len() == 0 {
                None
            } else {
                Some((messages, token))
            }),
    {
        if messages.len() == 0 {
            None
        } else {
            Some((messages, token))
        }
    }
}

// ---- laws ---------------------------------------------------------------------

/// A file name holds no path separator, so a room's file stays in its
/// directory.
pub proof fn law_file_name_is_flat(room_id: Seq<char>)
    ensures
        forall|i: int| 0 <= i < file_name(room_id).len() ==> safe_char(file_name(room_id)[i]),
        file_name(room_id).len() >= 5,
{
    reveal_strlit(".json");
}

/// Appending never grows the list beyond the limit once it is within it, and
/// the appended message is the last one unless it was seen recently.
pub proof fn law_append_bounded(messages: Seq<MessageView>, m: MessageView)
    requires
        messages.len() <= MAX_MEMORY_MSGS,
    ensures
        appended(messages, m).len() <= MAX_MEMORY_MSGS,
        !(m.event_id.len() > 0 && seen_recently(messages, m.event_id)) ==> appended(
            messages,
            m,
        ).last() == m,
{
}

/// Appending the same acknowledged message twice in a row is appending it
/// once.
pub proof fn law_append_idempotent(messages: Seq<MessageView>, m: MessageView)
    requires
        m.event_id.len() > 0,
    ensures
        appended(appended(messages, m), m) == appended(messages, m),
{
    let once = appended(messages, m);
    if !seen_recently(messages, m.event_id) {
        assert(once[once.len() - 1].event_id == m.event_id);
    }
    assert(seen_recently(once, m.event_id));
}

pub(crate) proof fn lemma_message_position_is(
    messages: Seq<MessageView>,
    event_id: Seq<char>,
    i: int,
    k: int,
)
    requires
        0 <= i <= k < messages.len(),
        messages[k].event_id == event_id,
        forall|j: int| i <= j < k ==> (#[trigger] messages[j]).event_id != event_id,
    ensures
        message_position(messages, event_id, i) == k,
    decreases k - i,
{
    if i < k {
        lemma_message_position_is(messages, event_id, i + 1, k);
    }
}

/// What was in memory stays there when a message arrives, in its order, as far as there
/// is room for it: at most a hundred messages are kept, and only the oldest go.
pub proof fn law_append_keeps_the_newest(messages: Seq<MessageView>, m: MessageView, i: int)
    requires
        messages.len() <= 100,
        0 <= i < messages.len(),
        forall|j: int| 0 <= j < messages.len() ==> (#[trigger] messages[j]).event_id != m.event_id,
    ensures
        ({
            let after = appended(messages, m);
            &&& after.last() == m
            &&& messages.len() < 100 ==> after == messages.push(m)
            &&& messages.len() == 100 && i > 0 ==> after[i - 1] == messages[i]
            &&& messages.len() == 100 ==> after.len() == 100
        }),
{
}

} // verus!
