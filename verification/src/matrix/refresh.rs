//! Bringing an opened room up to date with the server.

use vstd::prelude::*;
use crate::json::text_of;
use crate::matrix::event::MatrixEvent;
use crate::matrix::history::{author_of, last_with_id};
use crate::matrix::ids::{localpart_of_user, user_localpart};
use crate::matrix::info::{blank_meta, clone_messages, messages_of, MessageInfo, MessageView, MetaView, RoomMeta};
use crate::matrix::room_cache::{RoomCache, RoomTimelineView};
use crate::matrix::unread::{compute_enter_unread, enter_unread};

use crate::order::{
    ascending, ascending_order, is_permutation, lemma_permutation_covers, permute, text_ascending, text_less,
    text_order,
};
use crate::table::Table;
use crate::text::{chars_of, lowercase, same};

verus! {

/// How long the fetch of a room may take before a placeholder is shown.
pub const FETCH_TIMEOUT_SECS: u64 = 20;

/// How many messages one fetch asks for.
pub const FETCH_LIMIT: u32 = 100;

/// How many pinned messages are shown.
pub const MAX_PINNED: usize = 5;

/// The distinct ids among the first `n` of a list, in the order in which they
/// came first.
pub open spec fn distinct_ids(ids: Seq<Option<String>>, n: int) -> Seq<Seq<char>>
    decreases n,
{
    if n <= 0 {
        Seq::empty()
    } else {
        let rest = distinct_ids(ids, n - 1);
        match ids[n - 1] {
            Some(s) => if rest.contains(s@) {
                rest
            } else {
                rest.push(s@)
            },
            None => rest,
        }
    }
}

/// The sessions whose keys are missing: for each event that could not be
/// decrypted, the id of its session where it is known.
pub fn missing_sessions(undecrypted: &Vec<Option<String>>) -> (r: Vec<String>)
    ensures
        r@.map_values(|s: String| s@) == distinct_ids(undecrypted@, undecrypted@.len() as int),
{
    let mut out: Vec<String> = Vec::new();
    let mut i: usize = 0;
    assert(out@.map_values(|s: String| s@) =~= Seq::<Seq<char>>::empty());
    while i < undecrypted.len()
        invariant
            i <= undecrypted@.len(),
            out@.map_values(|s: String| s@) == distinct_ids(undecrypted@, i as int),
        decreases undecrypted@.len() - i,
    {
        let ghost texts = out@.map_values(|s: String| s@);
        if let Some(id) = &undecrypted[i] {
            let mut k: usize = 0;
            while k < out.len() && !same(&out[k], id)
                invariant
                    k <= out@.len(),
                    texts == out@.map_values(|s: String| s@),
                    forall|j: int| 0 <= j < k ==> (#[trigger] texts[j]) != id@,
                decreases out@.len() - k,
            {
                assert(texts[k as int] == out@[k as int]@);
                k = k + 1;
            }
            if k == out.len() {
                assert(!texts.contains(id@));
                out.push(id.clone());
                assert(out@.map_values(|s: String| s@) =~= texts.push(id@));
            } else {
                assert(texts[k as int] == id@);
                assert(texts.contains(id@));
            }
        }
        i = i + 1;
    }
    out
}

/// Whether keys are fetched from the backup and the messages a second time: when
/// a session is missing, the user is still in the room, and there is a backup.
pub fn needs_second_fetch(cancelled: bool, missing: usize, backup_enabled: bool) -> (r: bool)
    ensures
        r == (!cancelled && missing > 0 && backup_enabled),
{
    !cancelled && missing > 0 && backup_enabled
}

/// A message whose reply author is looked up among other messages, where it is
/// not known yet.
pub open spec fn with_reply_author(others: Seq<MessageView>, m: MessageView) -> MessageView {
    if m.reply_to_sender is None && m.reply_to is Some {
        MessageView { reply_to_sender: author_of(others, m.reply_to->0), ..m }
    } else {
        m
    }
}

fn known_author(others: &Vec<MessageInfo>, id: &str) -> (r: Option<String>)
    ensures
        text_of(r) == author_of(messages_of(others@), id@),
{
    let ghost views = messages_of(others@);
    proof {
        reveal_strlit("");
        assert(id@.len() == 0 ==> id@ =~= ""@);
    }
    if same(id, "") {
        return None;
    }
    let mut n: usize = others.len();
    while n > 0
        invariant
            n <= others@.len(),
            views == messages_of(others@),
            id@.len() > 0,
            last_with_id(views, id@, views.len() as int) == last_with_id(views, id@, n as int),
        decreases n,
    {
        assert(views[n - 1] == others@[n - 1]@);
        if same(&others[n - 1].event_id, id) {
            return Some(others[n - 1].sender.clone());
        }
        n = n - 1;
    }
    None
}

/// Looks up the authors of replied-to messages that were not part of the fetch
/// in the messages that are already in memory.
pub fn backfill_reply_senders(messages: &mut Vec<MessageInfo>, known: &Vec<MessageInfo>)
    ensures
        messages_of(final(messages)@) == messages_of(old(messages)@).map_values(
            |m: MessageView| with_reply_author(messages_of(known@), m),
        ),
{
    let ghost before = messages_of(messages@);
    let ghost others = messages_of(known@);
    let mut i: usize = 0;
    while i < messages.len()
        invariant
            i <= messages@.len(),
            messages@.len() == before.len(),
            others == messages_of(known@),
            forall|j: int|
                0 <= j < i ==> (#[trigger] messages@[j])@ == with_reply_author(others, before[j]),
            forall|j: int| i <= j < messages@.len() ==> (#[trigger] messages@[j])@ == before[j],
        decreases messages@.len() - i,
    {
        assert(messages@[i as int]@ == before[i as int]);
        let mut found: Option<String> = None;
        if messages[i].reply_to_sender.is_none() {
            if let Some(id) = &messages[i].reply_to {
                found = known_author(known, id);
            }
        }
        if found.is_some() {
            let m: &mut MessageInfo = &mut messages[i];
            m.reply_to_sender = found;
        }
        i = i + 1;
    }
    assert(messages_of(messages@) =~= before.map_values(
        |m: MessageView| with_reply_author(others, m),
    ));
}

/// A member as user id and shown name.
pub type MemberText = (Seq<char>, Seq<char>);

/// Members as text.
pub open spec fn members_of(v: Seq<(String, String)>) -> Seq<MemberText> {
    v.map_values(|m: (String, String)| (m.0@, m.1@))
}

/// Whether the user is in the list.
pub open spec fn lists(members: Seq<MemberText>, id: Seq<char>) -> bool {
    exists|i: int| 0 <= i < members.len() && (#[trigger] members[i]).0 == id
}

/// Who wrote the last `n` messages, the most recent writers first.
pub open spec fn recent_writers(messages: Seq<MessageView>, n: int) -> Seq<MemberText>
    decreases n,
{
    if n <= 0 {
        Seq::empty()
    } else {
        let rest = recent_writers(messages, n - 1);
        let m = messages[messages.len() - n];
        if m.sender_id.len() > 0 && !lists(rest, m.sender_id) {
            rest.push((m.sender_id, m.sender))
        } else {
            rest
        }
    }
}

/// Sorted by name, upper and lower case alike.
pub open spec fn sorted_by_name(members: Seq<MemberText>, sorted: Seq<MemberText>) -> bool {
    exists|perm: Seq<usize>| #[trigger]
        is_permutation(perm, members.len()) && text_ascending(
            perm,
            members.map_values(|m: MemberText| lowercase(m.1)),
        ) && sorted == permute(members, perm)
}

/// The writers of the messages, sorted by name.
pub fn timeline_members(messages: &Vec<MessageInfo>) -> (r: Vec<(String, String)>)
    ensures
        sorted_by_name(
            recent_writers(messages_of(messages@), messages@.len() as int),
            members_of(r@),
        ),
{
    let ghost views = messages_of(messages@);
    let mut writers: Vec<(String, String)> = Vec::new();
    let mut n: usize = 0;
    assert(members_of(writers@) =~= Seq::<MemberText>::empty());
    while n < messages.len()
        invariant
            n <= messages@.len(),
            views == messages_of(messages@),
            members_of(writers@) == recent_writers(views, n as int),
        decreases messages@.len() - n,
    {
        let ghost listed = members_of(writers@);
        let m: &MessageInfo = &messages[messages.len() - (n + 1)];
        assert(views[views.len() - (n + 1)] == m@);
        proof {
            reveal_strlit("");
            assert(m.sender_id@.len() == 0 ==> m.sender_id@ =~= ""@);
        }
        if !same(&m.sender_id, "") {
            let mut k: usize = 0;
            while k < writers.len() && !same(&writers[k].0, &m.sender_id)
                invariant
                    k <= writers@.len(),
                    listed == members_of(writers@),
                    forall|j: int| 0 <= j < k ==> (#[trigger] listed[j]).0 != m.sender_id@,
                decreases writers@.len() - k,
            {
                assert(listed[k as int].0 == writers@[k as int].0@);
                k = k + 1;
            }
            if k == writers.len() {
                assert(!lists(listed, m.sender_id@));
                writers.push((m.sender_id.clone(), m.sender.clone()));
                assert(members_of(writers@) =~= listed.push((m.sender_id@, m.sender@)));
            } else {
                assert(listed[k as int].0 == writers@[k as int].0@);
                assert(lists(listed, m.sender_id@));
            }
        }
        n = n + 1;
    }
    let ghost list = members_of(writers@);
    let mut keys: Vec<Vec<char>> = Vec::new();
    let mut i: usize = 0;
    while i < writers.len()
        invariant
            i <= writers@.len(),
            keys@.len() == i,
            list == members_of(writers@),
            forall|j: int| 0 <= j < i ==> (#[trigger] keys@[j])@ == lowercase(list[j].1),
        decreases writers@.len() - i,
    {
        let lower = writers[i].1.as_str().to_lowercase();
        keys.push(chars_of(&lower));
        i = i + 1;
    }
    let perm = text_order(&keys);
    proof {
        assert(keys@.map_values(|k: Vec<char>| k@) =~= list.map_values(
            |m: MemberText| lowercase(m.1),
        ));
    }
    let mut out: Vec<(String, String)> = Vec::new();
    let mut p: usize = 0;
    while p < perm.len()
        invariant
            p <= perm@.len(),
            out@.len() == p,
            is_permutation(perm@, writers@.len()),
            list == members_of(writers@),
            forall|j: int|
                0 <= j < p ==> members_of(out@)[j] == list[(#[trigger] perm@[j]) as int],
        decreases perm@.len() - p,
    {
        let ghost out0 = out@;
        let w: usize = perm[p];
        out.push((writers[w].0.clone(), writers[w].1.clone()));
        proof {
            assert forall|j: int| 0 <= j < p + 1 implies members_of(out@)[j] == list[(
            #[trigger] perm@[j]) as int] by {
                if j < p {
                    assert(members_of(out@)[j] == members_of(out0)[j]);
                }
            }
        }
        p = p + 1;
    }
    proof {
        assert(members_of(out@) =~= permute(list, perm@));
        assert(is_permutation(perm@, list.len()));
    }
    out
}

/// What the server says of a room besides its messages.
pub struct RoomFacts {
    pub topic: String,
    /// The replacement of the room and its name, where the room was replaced.
    pub replacement: Option<(String, Option<String>)>,
    pub pinned_messages: Vec<(String, String, Option<String>)>,
    pub is_encrypted: bool,
    pub is_favourite: bool,
    /// The joined members, empty where they could not be fetched.
    pub members: Vec<(String, String)>,
    pub member_avatars: Vec<(String, String)>,
    /// The number of joined members according to the server.
    pub joined_members: u64,
    /// Unread notifications according to the server.
    pub sdk_unread: u32,
    pub fully_read_event_id: Option<String>,
}

/// The header of a room after a fetch: the member list falls back to those who
/// wrote recently, and the unread count is taken from the messages behind the
/// read marker.
pub fn refreshed_meta(facts: RoomFacts, messages: &Vec<MessageInfo>, known_unread: u32) -> (r:
    RoomMeta)
    requires
        messages@.len() <= u32::MAX,
    ensures
        r@.topic == facts.topic@,
        r@.is_tombstoned == facts.replacement is Some,
        r@.replacement_room == (match facts.replacement {
            Some(t) => Some(t.0@),
            None => None,
        }),
        r@.replacement_room_name == (match facts.replacement {
            Some(t) => text_of(t.1),
            None => None,
        }),
        r@.pinned_messages == facts.pinned_messages@,
        r@.is_encrypted == facts.is_encrypted,
        r@.is_favourite == facts.is_favourite,
        r@.members_fetched == (facts.members@.len() > 0),
        r@.members_fetched ==> r@.members == facts.members@,
        !r@.members_fetched && messages@.len() == 0 ==> r@.members.len() == 0,
        !r@.members_fetched && messages@.len() > 0 ==> sorted_by_name(
            recent_writers(messages_of(messages@), messages@.len() as int),
            members_of(r@.members),
        ),
        r@.member_avatars == facts.member_avatars@,
        r@.member_count == (if r@.members.len() > 0 {
            r@.members.len()
        } else {
            facts.joined_members as nat
        }),
        r@.unread_count == enter_unread(
            messages@,
            text_of(facts.fully_read_event_id),
            facts.sdk_unread,
            known_unread,
        ),
        r@.fully_read_event_id == text_of(facts.fully_read_event_id),
{
    let members_fetched: bool = facts.members.len() > 0;
    let marker: Option<&str> = match &facts.fully_read_event_id {
        Some(s) => Some(s.as_str()),
        None => None,
    };
    let unread_count: u32 = compute_enter_unread(
        messages,
        marker,
        facts.sdk_unread,
        known_unread,
    );
    let members: Vec<(String, String)> = if facts.members.len() == 0 && messages.len() > 0 {
        timeline_members(messages)
    } else {
        facts.members
    };
    let member_count: u64 = if members.len() > 0 {
        members.len() as u64
    } else {
        facts.joined_members
    };
    let is_tombstoned: bool = facts.replacement.is_some();
    let (replacement_room, replacement_room_name) = match facts.replacement {
        Some((id, name)) => (Some(id), name),
        None => (None, None),
    };
    RoomMeta {
        topic: facts.topic,
        is_tombstoned,
        replacement_room,
        replacement_room_name,
        pinned_messages: facts.pinned_messages,
        is_encrypted: facts.is_encrypted,
        member_count,
        is_favourite: facts.is_favourite,
        members,
        member_avatars: facts.member_avatars,
        members_fetched,
        unread_count,
        fully_read_event_id: facts.fully_read_event_id,
    }
}

/// A message as it was in memory: it replaces an earlier one with the same id.
pub open spec fn remembered(acc: Seq<MessageView>, m: MessageView) -> Seq<MessageView> {
    let p = last_with_id(acc, m.event_id, acc.len() as int);
    if m.event_id.len() == 0 {
        acc
    } else if p >= 0 {
        acc.update(p, m)
    } else {
        acc.push(m)
    }
}

/// A message from the server over what is in memory: the text in memory stays,
/// so that local edits are kept, but reactions come from the server.
pub open spec fn overlaid(acc: Seq<MessageView>, m: MessageView) -> Seq<MessageView> {
    let p = last_with_id(acc, m.event_id, acc.len() as int);
    if m.event_id.len() == 0 {
        acc
    } else if p >= 0 {
        if m.reactions.len() > 0 {
            acc.update(p, MessageView { reactions: m.reactions, ..acc[p] })
        } else {
            acc
        }
    } else {
        acc.push(m)
    }
}

/// Memory and server messages by event id.
pub open spec fn united(existing: Seq<MessageView>, fetched: Seq<MessageView>) -> Seq<MessageView>
    decreases existing.len() + fetched.len(),
{
    if fetched.len() > 0 {
        overlaid(united(existing, fetched.drop_last()), fetched.last())
    } else if existing.len() > 0 {
        remembered(united(existing.drop_last(), fetched), existing.last())
    } else {
        Seq::empty()
    }
}

/// Sorted by time, messages of the same second in their order.
pub open spec fn sorted_by_time(messages: Seq<MessageView>, sorted: Seq<MessageView>) -> bool {
    exists|perm: Seq<usize>| #[trigger]
        is_permutation(perm, messages.len()) && ascending(
            perm,
            messages.map_values(|m: MessageView| m.timestamp),
        ) && sorted == permute(messages, perm)
}

proof fn lemma_last_with_id(messages: Seq<MessageView>, id: Seq<char>, n: int)
    requires
        0 <= n <= messages.len(),
    ensures
        -1 <= last_with_id(messages, id, n) < n,
        last_with_id(messages, id, n) >= 0 ==> messages[last_with_id(messages, id, n)].event_id
            == id,
        last_with_id(messages, id, n) < 0 ==> forall|i: int|
            0 <= i < n ==> (#[trigger] messages[i]).event_id != id,
    decreases n,
{
    if n > 0 && messages[n - 1].event_id != id {
        lemma_last_with_id(messages, id, n - 1);
    }
}

/// The last message with the id.
fn find_last(messages: &Vec<MessageInfo>, id: &str) -> (r: Option<usize>)
    ensures
        ({
            let p = last_with_id(messages_of(messages@), id@, messages@.len() as int);
            match r {
                Some(i) => p == i && i < messages@.len(),
                None => p < 0,
            }
        }),
{
    let ghost views = messages_of(messages@);
    let mut n: usize = messages.len();
    while n > 0
        invariant
            n <= messages@.len(),
            views == messages_of(messages@),
            last_with_id(views, id@, views.len() as int) == last_with_id(views, id@, n as int),
        decreases n,
    {
        assert(views[n - 1] == messages@[n - 1]@);
        if same(&messages[n - 1].event_id, id) {
            return Some(n - 1);
        }
        n = n - 1;
    }
    None
}

/// Memory and server messages by event id, oldest first.
///
/// The server goes back in time while the sync goes forward, so neither side
/// may replace the other.
pub fn merge_messages(existing: Vec<MessageInfo>, fetched: &Vec<MessageInfo>) -> (r: Vec<
    MessageInfo,
>)
    ensures
        sorted_by_time(
            united(messages_of(existing@), messages_of(fetched@)),
            messages_of(r@),
        ),
{
    let ghost olds = messages_of(existing@);
    let ghost news = messages_of(fetched@);
    let mut acc: Vec<MessageInfo> = Vec::new();
    let mut i: usize = 0;
    assert(messages_of(acc@) =~= Seq::<MessageView>::empty());
    while i < existing.len()
        invariant
            i <= existing@.len(),
            olds == messages_of(existing@),
            messages_of(acc@) == united(olds.take(i as int), Seq::empty()),
        decreases existing@.len() - i,
    {
        let ghost before = messages_of(acc@);
        let m: &MessageInfo = &existing[i];
        proof {
            assert(olds.take(i + 1).drop_last() =~= olds.take(i as int));
            assert(olds[i as int] == m@);
            reveal_strlit("");
            assert(m.event_id@.len() == 0 ==> m.event_id@ =~= ""@);
            assert(olds.take(i + 1).last() == m@);
        }
        if !same(&m.event_id, "") {
            match find_last(&acc, &m.event_id) {
                Some(p) => {
                    let copy = m.clone();
                    acc.set(p, copy);
                    assert(messages_of(acc@) =~= before.update(p as int, m@));
                },
                None => {
                    let copy = m.clone();
                    acc.push(copy);
                    assert(messages_of(acc@) =~= before.push(m@));
                },
            }
        }
        i = i + 1;
    }
    assert(olds.take(i as int) =~= olds);
    let mut k: usize = 0;
    assert(news.take(0) =~= Seq::<MessageView>::empty());
    while k < fetched.len()
        invariant
            k <= fetched@.len(),
            news == messages_of(fetched@),
            messages_of(acc@) == united(olds, news.take(k as int)),
        decreases fetched@.len() - k,
    {
        let ghost before = messages_of(acc@);
        let m: &MessageInfo = &fetched[k];
        proof {
            assert(news.take(k + 1).drop_last() =~= news.take(k as int));
            assert(news[k as int] == m@);
            assert(news.take(k + 1).last() == m@);
            reveal_strlit("");
            assert(m.event_id@.len() == 0 ==> m.event_id@ =~= ""@);
        }
        if !same(&m.event_id, "") {
            match find_last(&acc, &m.event_id) {
                Some(p) => {
                    if m.reactions.len() > 0 {
                        let copy = m.clone();
                        let slot: &mut MessageInfo = &mut acc[p];
                        slot.reactions = copy.reactions;
                        assert(messages_of(acc@) =~= before.update(
                            p as int,
                            MessageView { reactions: m@.reactions, ..before[p as int] },
                        ));
                    }
                },
                None => {
                    let copy = m.clone();
                    acc.push(copy);
                    assert(messages_of(acc@) =~= before.push(m@));
                },
            }
        }
        k = k + 1;
    }
    assert(news.take(k as int) =~= news);
    in_time_order(&acc)
}

/// The messages sorted by time; the sort is stable.
pub fn in_time_order(messages: &Vec<MessageInfo>) -> (r: Vec<MessageInfo>)
    ensures
        sorted_by_time(messages_of(messages@), messages_of(r@)),
{
    let ghost views = messages_of(messages@);
    let mut times: Vec<u64> = Vec::new();
    let mut i: usize = 0;
    while i < messages.len()
        invariant
            i <= messages@.len(),
            times@.len() == i,
            views == messages_of(messages@),
            forall|j: int| 0 <= j < i ==> (#[trigger] times@[j]) == views[j].timestamp,
        decreases messages@.len() - i,
    {
        times.push(messages[i].timestamp);
        i = i + 1;
    }
    let perm = ascending_order(&times);
    assert(times@ =~= views.map_values(|m: MessageView| m.timestamp));
    let mut out: Vec<MessageInfo> = Vec::new();
    let mut p: usize = 0;
    while p < perm.len()
        invariant
            p <= perm@.len(),
            out@.len() == p,
            is_permutation(perm@, messages@.len()),
            views == messages_of(messages@),
            forall|j: int| 0 <= j < p ==> (#[trigger] out@[j])@ == views[perm@[j] as int],
        decreases perm@.len() - p,
    {
        let w: usize = perm[p];
        out.push(messages[w].clone());
        p = p + 1;
    }
    proof {
        assert(messages_of(out@) =~= permute(views, perm@));
        assert(is_permutation(perm@, views.len()));
    }
    out
}

/// The messages that a room holds after a fetch.
pub open spec fn is_merge(
    existing: Seq<MessageView>,
    fetched: Seq<MessageView>,
    merged: Seq<MessageView>,
) -> bool {
    if existing.len() == 0 {
        merged == fetched
    } else {
        sorted_by_time(united(existing, fetched), merged)
    }
}

/// The messages that are in memory for a room.
pub open spec fn in_memory(cache: &RoomCache, room: Seq<char>) -> Seq<MessageView> {
    if cache.memory().contains_key(room) {
        cache.memory()[room].messages
    } else {
        Seq::empty()
    }
}

/// Takes what was fetched into the cache. The result is what is to be written to
/// disk. A fetch without messages changes nothing.
pub fn store_refresh(
    cache: &mut RoomCache,
    room_id: &str,
    fetched: &Vec<MessageInfo>,
    token: Option<String>,
    meta: &RoomMeta,
    now_ms: u64,
) -> (r: Option<Vec<MessageInfo>>)
    ensures
        final(cache).members() == old(cache).members(),
        match r {
            None => {
                &&& fetched@.len() == 0
                &&& final(cache).memory() == old(cache).memory()
                &&& final(cache).refreshed() == old(cache).refreshed()
            },
            Some(merged) => {
                &&& fetched@.len() > 0
                &&& is_merge(
                    in_memory(old(cache), room_id@),
                    messages_of(fetched@),
                    messages_of(merged@),
                )
                &&& final(cache).memory() == old(cache).memory().insert(
                    room_id@,
                    (RoomTimelineView {
                        messages: messages_of(merged@),
                        prev_batch_token: text_of(token),
                        meta: meta@,
                    }),
                )
                &&& final(cache).refreshed() == old(cache).refreshed().insert(room_id@, now_ms)
            },
        },
{
    if fetched.len() == 0 {
        return None;
    }
    let existing: Vec<MessageInfo> = match cache.get_memory(room_id) {
        Some(e) => e.messages,
        None => Vec::new(),
    };
    assert(messages_of(existing@) =~= in_memory(cache, room_id@));
    let merged: Vec<MessageInfo> = if existing.len() == 0 {
        clone_messages(fetched)
    } else {
        merge_messages(existing, fetched)
    };
    let copy = clone_messages(&merged);
    cache.insert_memory_only(room_id, copy, token, meta.clone());
    cache.mark_fresh(room_id, now_ms);
    Some(merged)
}

/// What the user interface is told after a fetch: the messages in memory, or
/// those that were fetched where the room is not in memory. Nothing, when
/// another room was opened meanwhile.
pub fn refresh_event(
    cache: &RoomCache,
    room_id: &str,
    fetched: Vec<MessageInfo>,
    token: Option<String>,
    meta: RoomMeta,
    cancelled: bool,
) -> (r: Option<MatrixEvent>)
    ensures
        r is None <==> cancelled,
        r matches Some(event) ==> shows_room(
            event,
            room_id@,
            (if cache.memory().contains_key(room_id@) {
                cache.memory()[room_id@].messages
            } else {
                messages_of(fetched@)
            }),
            text_of(token),
            meta@,
            true,
        ),
{
    if cancelled {
        return None;
    }
    let messages: Vec<MessageInfo> = match cache.get_memory(room_id) {
        Some(e) => e.messages,
        None => fetched,
    };
    Some(
        MatrixEvent::RoomMessages {
            room_id: room_id.to_owned(),
            messages,
            prev_batch_token: token,
            room_meta: meta,
            is_background: true,
        },
    )
}

/// Whether the event shows these messages of a room.
pub open spec fn shows_room(
    event: MatrixEvent,
    room: Seq<char>,
    shown: Seq<MessageView>,
    token: Option<Seq<char>>,
    meta: MetaView,
    background: bool,
) -> bool {
    match event {
        MatrixEvent::RoomMessages { room_id, messages, prev_batch_token, room_meta, is_background } => {
            &&& room_id@ == room
            &&& messages_of(messages@) == shown
            &&& text_of(prev_batch_token) == token
            &&& room_meta@ == meta
            &&& is_background == background
        },
        _ => false,
    }
}

/// What the user interface is told when the fetch takes too long: an empty room,
/// which stops the loading indicator.
pub fn placeholder_event(room_id: &str, cancelled: bool) -> (r: Option<MatrixEvent>)
    ensures
        r is None <==> cancelled,
        r matches Some(event) ==> shows_room(
            event,
            room_id@,
            Seq::empty(),
            None,
            blank_meta(),
            true,
        ),
{
    if cancelled {
        return None;
    }
    let messages: Vec<MessageInfo> = Vec::new();
    assert(messages_of(messages@) =~= Seq::<MessageView>::empty());
    Some(
        MatrixEvent::RoomMessages {
            room_id: room_id.to_owned(),
            messages,
            prev_batch_token: None,
            room_meta: RoomMeta::default(),
            is_background: true,
        },
    )
}

/// Whether a message has the id.
pub open spec fn has_id(messages: Seq<MessageView>, id: Seq<char>) -> bool {
    exists|i: int| 0 <= i < messages.len() && (#[trigger] messages[i]).event_id == id
}

/// Whether no two messages share an id.
pub open spec fn distinct_messages(messages: Seq<MessageView>) -> bool {
    forall|i: int, j: int|
        0 <= i < j < messages.len() ==> (#[trigger] messages[i]).event_id != (
        #[trigger] messages[j]).event_id
}

/// One step of the union keeps the ids distinct and loses none.
proof fn lemma_step(acc: Seq<MessageView>, m: MessageView, next: Seq<MessageView>)
    requires
        next == remembered(acc, m) || next == overlaid(acc, m),
        distinct_messages(acc),
    ensures
        distinct_messages(next),
        forall|id: Seq<char>|
            id.len() > 0 ==> (#[trigger] has_id(next, id) <==> has_id(acc, id) || m.event_id == id),
{
    let p = last_with_id(acc, m.event_id, acc.len() as int);
    lemma_last_with_id(acc, m.event_id, acc.len() as int);
    assert forall|id: Seq<char>| id.len() > 0 implies (#[trigger] has_id(next, id) <==> has_id(
        acc,
        id,
    ) || m.event_id == id) by {
        if has_id(acc, id) {
            let i = choose|i: int| 0 <= i < acc.len() && (#[trigger] acc[i]).event_id == id;
            assert(next[i].event_id == id);
        }
        if m.event_id == id {
            if p >= 0 {
                assert(next[p].event_id == id);
            } else {
                assert(next[acc.len() as int].event_id == id);
            }
        }
        if has_id(next, id) {
            let i = choose|i: int| 0 <= i < next.len() && (#[trigger] next[i]).event_id == id;
            if i < acc.len() {
                assert(acc[i].event_id == next[i].event_id);
            }
        }
    }
    assert forall|i: int, j: int| 0 <= i < j < next.len() implies (#[trigger] next[i]).event_id != (
    #[trigger] next[j]).event_id by {
        assert(acc[i].event_id == next[i].event_id);
        if j < acc.len() {
            assert(acc[j].event_id == next[j].event_id);
        }
    }
}

proof fn lemma_united(existing: Seq<MessageView>, fetched: Seq<MessageView>)
    ensures
        distinct_messages(united(existing, fetched)),
        forall|id: Seq<char>|
            id.len() > 0 ==> (#[trigger] has_id(united(existing, fetched), id) <==> has_id(
                existing,
                id,
            ) || has_id(fetched, id)),
    decreases existing.len() + fetched.len(),
{
    if fetched.len() > 0 {
        let before = fetched.drop_last();
        let m = fetched.last();
        lemma_united(existing, before);
        lemma_step(united(existing, before), m, united(existing, fetched));
        assert forall|id: Seq<char>| id.len() > 0 implies (#[trigger] has_id(
            united(existing, fetched),
            id,
        ) <==> has_id(existing, id) || has_id(fetched, id)) by {
            lemma_last_id(fetched, id);
            assert(has_id(united(existing, before), id) <==> has_id(existing, id) || has_id(
                before,
                id,
            ));
        }
    } else if existing.len() > 0 {
        let before = existing.drop_last();
        let m = existing.last();
        lemma_united(before, fetched);
        lemma_step(united(before, fetched), m, united(existing, fetched));
        assert forall|id: Seq<char>| id.len() > 0 implies (#[trigger] has_id(
            united(existing, fetched),
            id,
        ) <==> has_id(existing, id) || has_id(fetched, id)) by {
            lemma_last_id(existing, id);
            assert(has_id(united(before, fetched), id) <==> has_id(before, id) || has_id(
                fetched,
                id,
            ));
        }
    }
}

proof fn lemma_last_id(messages: Seq<MessageView>, id: Seq<char>)
    requires
        messages.len() > 0,
    ensures
        has_id(messages, id) <==> has_id(messages.drop_last(), id) || messages.last().event_id
            == id,
{
    let before = messages.drop_last();
    if has_id(before, id) {
        let i = choose|i: int| 0 <= i < before.len() && (#[trigger] before[i]).event_id == id;
        assert(messages[i].event_id == id);
    }
    if has_id(messages, id) {
        let i = choose|i: int| 0 <= i < messages.len() && (#[trigger] messages[i]).event_id == id;
        if i < before.len() {
            assert(before[i].event_id == id);
        }
    }
    assert(messages.last() == messages[messages.len() - 1]);
}

/// A merge loses no message of either side, holds each once, and stands in the
/// order of time.
pub proof fn law_merge_is_union(
    existing: Seq<MessageView>,
    fetched: Seq<MessageView>,
    merged: Seq<MessageView>,
)
    requires
        existing.len() > 0,
        is_merge(existing, fetched, merged),
    ensures
        forall|id: Seq<char>|
            id.len() > 0 ==> (#[trigger] has_id(merged, id) <==> has_id(existing, id) || has_id(
                fetched,
                id,
            )),
        distinct_messages(merged),
        forall|i: int, j: int|
            0 <= i < j < merged.len() ==> (#[trigger] merged[i]).timestamp <= (
            #[trigger] merged[j]).timestamp,
{
    let all = united(existing, fetched);
    let times = all.map_values(|m: MessageView| m.timestamp);
    let perm = choose|perm: Seq<usize>| #[trigger]
        is_permutation(perm, all.len()) && ascending(perm, times) && merged == permute(all, perm);
    lemma_united(existing, fetched);
    assert forall|id: Seq<char>| id.len() > 0 implies (#[trigger] has_id(merged, id) <==> has_id(
        existing,
        id,
    ) || has_id(fetched, id)) by {
        assert(has_id(all, id) <==> has_id(existing, id) || has_id(fetched, id));
        if has_id(all, id) {
            let i = choose|i: int| 0 <= i < all.len() && (#[trigger] all[i]).event_id == id;
            lemma_permutation_covers(perm, all.len(), i);
            let k = choose|k: int| 0 <= k < perm.len() && (#[trigger] perm[k]) as int == i;
            assert(merged[k] == all[i]);
        }
        if has_id(merged, id) {
            let k = choose|k: int| 0 <= k < merged.len() && (#[trigger] merged[k]).event_id == id;
            assert(merged[k] == all[perm[k] as int]);
        }
    }
    assert forall|i: int, j: int| 0 <= i < j < merged.len() implies (
    #[trigger] merged[i]).event_id != (#[trigger] merged[j]).event_id by {
        let a = perm[i];
        let b = perm[j];
        assert(merged[i] == all[a as int]);
        assert(merged[j] == all[b as int]);
        if a < b {
            assert(all[a as int].event_id != all[b as int].event_id);
        } else {
            assert(all[b as int].event_id != all[a as int].event_id);
        }
    }
    assert forall|i: int, j: int| 0 <= i < j < merged.len() implies (
    #[trigger] merged[i]).timestamp <= (#[trigger] merged[j]).timestamp by {
        let a = perm[i];
        let b = perm[j];
        assert(times[a as int] == merged[i].timestamp);
        assert(times[b as int] == merged[j].timestamp);
    }
}

/// A member as the server lists it.
pub struct MemberRecord {
    pub user_id: String,
    pub display_name: Option<String>,
    pub avatar_url: Option<String>,
}

/// The name under which a member is shown: the display name, or the local part of
/// the user id.
pub open spec fn member_text(m: MemberRecord) -> MemberText {
    (
        m.user_id@,
        match m.display_name {
            Some(n) => n@,
            None => user_localpart(m.user_id@),
        },
    )
}

/// The avatars of the first `n` members.
pub open spec fn avatar_texts(members: Seq<MemberRecord>, n: int) -> Seq<MemberText>
    decreases n,
{
    if n <= 0 {
        Seq::empty()
    } else {
        match members[n - 1].avatar_url {
            Some(u) => avatar_texts(members, n - 1).push((members[n - 1].user_id@, u@)),
            None => avatar_texts(members, n - 1),
        }
    }
}

/// The names and the avatars of the members.
pub fn member_lists(members: &Vec<MemberRecord>) -> (r: (Vec<(String, String)>, Vec<(String, String)>))
    ensures
        members_of(r.0@) == members@.map_values(|m: MemberRecord| member_text(m)),
        members_of(r.1@) == avatar_texts(members@, members@.len() as int),
{
    let mut names: Vec<(String, String)> = Vec::new();
    let mut avatars: Vec<(String, String)> = Vec::new();
    let mut i: usize = 0;
    assert(members_of(avatars@) =~= Seq::<MemberText>::empty());
    while i < members.len()
        invariant
            i <= members@.len(),
            names@.len() == i,
            forall|j: int|
                0 <= j < i ==> ((#[trigger] names@[j]).0@, names@[j].1@) == member_text(
                    members@[j],
                ),
            members_of(avatars@) == avatar_texts(members@, i as int),
        decreases members@.len() - i,
    {
        let ghost before = members_of(avatars@);
        let m: &MemberRecord = &members[i];
        let name: String = match &m.display_name {
            Some(n) => n.clone(),
            None => localpart_of_user(&m.user_id),
        };
        names.push((m.user_id.clone(), name));
        if let Some(u) = &m.avatar_url {
            avatars.push((m.user_id.clone(), u.clone()));
            assert(members_of(avatars@) =~= before.push((m.user_id@, u@)));
        }
        i = i + 1;
    }
    assert(members_of(names@) =~= members@.map_values(|m: MemberRecord| member_text(m)));
    (names, avatars)
}

/// The display name of a user, from those that are remembered or else from the
/// membership that was looked up. Only real names are remembered, so that a user
/// whose membership is not known yet is looked up again.
pub fn resolve_display_name(names: &mut Table<String>, user_id: &str, found: Option<String>) -> (r:
    String)
    ensures
        final(names).map() == (if old(names).map().contains_key(user_id@) || found is None {
            old(names).map()
        } else {
            old(names).map().insert(user_id@, found->0)
        }),
        r@ == (if old(names).map().contains_key(user_id@) {
            old(names).map()[user_id@]@
        } else {
            match found {
                Some(n) => n@,
                None => user_localpart(user_id@),
            }
        }),
{
    if let Some(name) = names.get(user_id) {
        return name.clone();
    }
    match found {
        Some(n) => {
            names.insert(user_id.to_owned(), n.clone());
            n
        },
        None => localpart_of_user(user_id),
    }
}

/// One message over others: those with other ids stay as they are.
proof fn lemma_step_keeps(acc: Seq<MessageView>, m: MessageView, next: Seq<MessageView>, p: int)
    requires
        next == remembered(acc, m) || next == overlaid(acc, m),
        distinct_messages(acc),
        0 <= p < acc.len(),
        acc[p].event_id != m.event_id,
    ensures
        p < next.len(),
        next[p] == acc[p],
{
    lemma_last_with_id(acc, m.event_id, acc.len() as int);
}

/// Without a fetch, memory is kept as it is.
proof fn lemma_united_memory(existing: Seq<MessageView>, i: int)
    requires
        0 <= i < existing.len(),
        existing[i].event_id.len() > 0,
        forall|j: int|
            0 <= j < existing.len() && j != i ==> (#[trigger] existing[j]).event_id
                != existing[i].event_id,
    ensures
        united(existing, Seq::empty()).contains(existing[i]),
    decreases existing.len(),
{
    let none = Seq::<MessageView>::empty();
    let before = existing.drop_last();
    let acc = united(before, none);
    let m = existing.last();
    let next = united(existing, none);
    lemma_united(before, none);
    lemma_last_with_id(acc, m.event_id, acc.len() as int);
    if i == existing.len() - 1 {
        let p = last_with_id(acc, m.event_id, acc.len() as int);
        if p >= 0 {
            assert(next[p] == m);
        } else {
            assert(next[acc.len() as int] == m);
        }
    } else {
        assert(before[i] == existing[i]);
        assert forall|j: int| 0 <= j < before.len() && j != i implies (#[trigger] before[j]).event_id
            != before[i].event_id by {
            assert(before[j] == existing[j]);
        }
        lemma_united_memory(before, i);
        let p = choose|p: int| 0 <= p < acc.len() && acc[p] == existing[i];
        assert(existing[existing.len() - 1].event_id != existing[i].event_id);
        lemma_step_keeps(acc, m, next, p);
    }
}

/// A message in memory stays as it is through a fetch that does not bring it.
proof fn lemma_united_keeps(existing: Seq<MessageView>, fetched: Seq<MessageView>, i: int)
    requires
        0 <= i < existing.len(),
        existing[i].event_id.len() > 0,
        forall|j: int|
            0 <= j < existing.len() && j != i ==> (#[trigger] existing[j]).event_id
                != existing[i].event_id,
        !has_id(fetched, existing[i].event_id),
    ensures
        united(existing, fetched).contains(existing[i]),
    decreases fetched.len(),
{
    if fetched.len() == 0 {
        assert(fetched =~= Seq::<MessageView>::empty());
        lemma_united_memory(existing, i);
    } else {
        let before = fetched.drop_last();
        lemma_last_id(fetched, existing[i].event_id);
        lemma_united_keeps(existing, before, i);
        let acc = united(existing, before);
        lemma_united(existing, before);
        let p = choose|p: int| 0 <= p < acc.len() && acc[p] == existing[i];
        lemma_step_keeps(acc, fetched.last(), united(existing, fetched), p);
        assert(united(existing, fetched)[p] == existing[i]);
    }
}

/// What a message in memory becomes when it is fetched again.
spec fn refreshed_view(old_view: MessageView, fetched: MessageView) -> MessageView {
    MessageView {
        reactions: if fetched.reactions.len() > 0 {
            fetched.reactions
        } else {
            old_view.reactions
        },
        ..old_view
    }
}

proof fn lemma_united_overlays(existing: Seq<MessageView>, fetched: Seq<MessageView>, i: int, f: int)
    requires
        0 <= i < existing.len(),
        0 <= f < fetched.len(),
        existing[i].event_id.len() > 0,
        existing[i].event_id == fetched[f].event_id,
        forall|j: int|
            0 <= j < existing.len() && j != i ==> (#[trigger] existing[j]).event_id
                != existing[i].event_id,
        forall|j: int|
            0 <= j < fetched.len() && j != f ==> (#[trigger] fetched[j]).event_id
                != existing[i].event_id,
    ensures
        united(existing, fetched).contains(refreshed_view(existing[i], fetched[f])),
    decreases fetched.len(),
{
    let before = fetched.drop_last();
    let acc = united(existing, before);
    let next = united(existing, fetched);
    let m = fetched.last();
    let id = existing[i].event_id;
    let want = refreshed_view(existing[i], fetched[f]);
    lemma_united(existing, before);
    if f == fetched.len() - 1 {
        assert(!has_id(before, id)) by {
            if has_id(before, id) {
                let k = choose|k: int| 0 <= k < before.len() && (#[trigger] before[k]).event_id == id;
                assert(fetched[k].event_id == id);
            }
        }
        lemma_united_keeps(existing, before, i);
        let p = choose|p: int| 0 <= p < acc.len() && acc[p] == existing[i];
        lemma_last_with_id(acc, id, acc.len() as int);
        let q = last_with_id(acc, id, acc.len() as int);
        assert(p == q) by {
            if p < q {
                assert(acc[p].event_id != acc[q].event_id);
            }
            if q < p && q >= 0 {
                assert(acc[q].event_id != acc[p].event_id);
            }
        }
        assert(next[p] == want);
    } else {
        assert(before[f] == fetched[f]);
        assert forall|j: int| 0 <= j < before.len() && j != f implies (#[trigger] before[j]).event_id
            != id by {
            assert(before[j] == fetched[j]);
        }
        lemma_united_overlays(existing, before, i, f);
        let p = choose|p: int| 0 <= p < acc.len() && acc[p] == want;
        assert(fetched[fetched.len() - 1].event_id != id);
        lemma_step_keeps(acc, m, next, p);
        assert(next[p] == want);
    }
}

proof fn lemma_united_adds(existing: Seq<MessageView>, fetched: Seq<MessageView>, f: int)
    requires
        0 <= f < fetched.len(),
        fetched[f].event_id.len() > 0,
        !has_id(existing, fetched[f].event_id),
        forall|j: int|
            0 <= j < fetched.len() && j != f ==> (#[trigger] fetched[j]).event_id
                != fetched[f].event_id,
    ensures
        united(existing, fetched).contains(fetched[f]),
    decreases fetched.len(),
{
    let before = fetched.drop_last();
    let acc = united(existing, before);
    let next = united(existing, fetched);
    let m = fetched.last();
    let id = fetched[f].event_id;
    lemma_united(existing, before);
    if f == fetched.len() - 1 {
        assert(!has_id(before, id)) by {
            if has_id(before, id) {
                let k = choose|k: int| 0 <= k < before.len() && (#[trigger] before[k]).event_id == id;
                assert(fetched[k].event_id == id);
            }
        }
        assert(!has_id(acc, id));
        lemma_last_with_id(acc, id, acc.len() as int);
        assert(next[acc.len() as int] == m);
    } else {
        assert(before[f] == fetched[f]);
        assert forall|j: int| 0 <= j < before.len() && j != f implies (#[trigger] before[j]).event_id
            != id by {
            assert(before[j] == fetched[j]);
        }
        lemma_united_adds(existing, before, f);
        let p = choose|p: int| 0 <= p < acc.len() && acc[p] == fetched[f];
        assert(fetched[fetched.len() - 1].event_id != id);
        lemma_step_keeps(acc, m, next, p);
    }
}

proof fn lemma_sorted_contains(messages: Seq<MessageView>, sorted: Seq<MessageView>, m: MessageView)
    requires
        sorted_by_time(messages, sorted),
        messages.contains(m),
    ensures
        sorted.contains(m),
{
    let perm = choose|perm: Seq<usize>| #[trigger]
        is_permutation(perm, messages.len()) && ascending(
            perm,
            messages.map_values(|m: MessageView| m.timestamp),
        ) && sorted == permute(messages, perm);
    let i = choose|i: int| 0 <= i < messages.len() && messages[i] == m;
    lemma_permutation_covers(perm, messages.len(), i);
    let k = choose|k: int| 0 <= k < perm.len() && (#[trigger] perm[k]) as int == i;
    assert(sorted[k] == m);
}

/// A fetch does not undo what is shown: a message that was in memory keeps its text,
/// its author and its time, but the reactions to it are those of the server, where the
/// server knows any.
pub proof fn law_merge_keeps_the_text(
    existing: Seq<MessageView>,
    fetched: Seq<MessageView>,
    merged: Seq<MessageView>,
    i: int,
)
    requires
        0 <= i < existing.len(),
        is_merge(existing, fetched, merged),
        existing[i].event_id.len() > 0,
        distinct_messages(existing),
        distinct_messages(fetched),
    ensures
        exists|k: int| {
            &&& 0 <= k < merged.len()
            &&& (#[trigger] merged[k]).event_id == existing[i].event_id
            &&& merged[k].body == existing[i].body
            &&& merged[k].formatted_body == existing[i].formatted_body
            &&& merged[k].sender == existing[i].sender
            &&& merged[k].timestamp == existing[i].timestamp
            &&& merged[k].media == existing[i].media
            &&& forall|f: int|
                0 <= f < fetched.len() && (#[trigger] fetched[f]).event_id == existing[i].event_id
                    && fetched[f].reactions.len() > 0 ==> merged[k].reactions == fetched[f].reactions
            &&& !has_id(fetched, existing[i].event_id) ==> merged[k] == existing[i]
        },
{
    let id = existing[i].event_id;
    assert forall|j: int| 0 <= j < existing.len() && j != i implies (#[trigger] existing[j]).event_id
        != id by {
        if j < i {
            assert(existing[j].event_id != existing[i].event_id);
        } else {
            assert(existing[i].event_id != existing[j].event_id);
        }
    }
    let want = if has_id(fetched, id) {
        let f = choose|f: int| 0 <= f < fetched.len() && (#[trigger] fetched[f]).event_id == id;
        refreshed_view(existing[i], fetched[f])
    } else {
        existing[i]
    };
    if has_id(fetched, id) {
        let f = choose|f: int| 0 <= f < fetched.len() && (#[trigger] fetched[f]).event_id == id;
        assert forall|j: int| 0 <= j < fetched.len() && j != f implies (#[trigger] fetched[j]).event_id
            != id by {
            if j < f {
                assert(fetched[j].event_id != fetched[f].event_id);
            } else {
                assert(fetched[f].event_id != fetched[j].event_id);
            }
        }
        lemma_united_overlays(existing, fetched, i, f);
    } else {
        lemma_united_keeps(existing, fetched, i);
    }
    lemma_sorted_contains(united(existing, fetched), merged, want);
    let k = choose|k: int| 0 <= k < merged.len() && merged[k] == want;
    assert(merged[k].event_id == id);
}

/// A message that is new to memory is taken over as the server has it; and where memory
/// is empty, so is all that was fetched.
pub proof fn law_merge_takes_the_new(
    existing: Seq<MessageView>,
    fetched: Seq<MessageView>,
    merged: Seq<MessageView>,
    f: int,
)
    requires
        0 <= f < fetched.len(),
        is_merge(existing, fetched, merged),
        fetched[f].event_id.len() > 0,
        distinct_messages(fetched),
    ensures
        !has_id(existing, fetched[f].event_id) ==> merged.contains(fetched[f]),
        existing.len() == 0 ==> merged == fetched,
{
    if existing.len() == 0 {
        assert(merged[f] == fetched[f]);
    } else if !has_id(existing, fetched[f].event_id) {
        assert forall|j: int| 0 <= j < fetched.len() && j != f implies (#[trigger] fetched[j]).event_id
            != fetched[f].event_id by {
            if j < f {
                assert(fetched[j].event_id != fetched[f].event_id);
            } else {
                assert(fetched[f].event_id != fetched[j].event_id);
            }
        }
        lemma_united_adds(existing, fetched, f);
        lemma_sorted_contains(united(existing, fetched), merged, fetched[f]);
    }
}

/// The author of a message that is replied to is found among known messages, and one
/// that is known already is kept.
pub proof fn law_reply_authors_are_found(others: Seq<MessageView>, m: MessageView, a: int)
    requires
        0 <= a < others.len(),
        m.reply_to == Some(others[a].event_id),
        others[a].event_id.len() > 0,
        distinct_messages(others),
    ensures
        m.reply_to_sender is None ==> with_reply_author(others, m).reply_to_sender == Some(
            others[a].sender,
        ),
        m.reply_to_sender is Some ==> with_reply_author(others, m) == m,
        with_reply_author(others, m).body == m.body,
        with_reply_author(others, m).event_id == m.event_id,
{
    let id = others[a].event_id;
    let p = last_with_id(others, id, others.len() as int);
    lemma_last_with_id(others, id, others.len() as int);
    if p < a && p >= 0 {
        assert(others[p].event_id != others[a].event_id);
    }
    if a < p {
        assert(others[a].event_id != others[p].event_id);
    }
}

/// Everybody who wrote is listed once, under the name of their latest message.
pub proof fn law_writers_are_listed(messages: Seq<MessageView>, n: int, i: int)
    requires
        0 < n <= messages.len(),
        messages.len() - n <= i < messages.len(),
        messages[i].sender_id.len() > 0,
    ensures
        lists(recent_writers(messages, n), messages[i].sender_id),
        forall|a: int, b: int|
            0 <= a < b < recent_writers(messages, n).len() ==> (#[trigger] recent_writers(
                messages,
                n,
            )[a]).0 != (#[trigger] recent_writers(messages, n)[b]).0,
        (forall|j: int|
            i < j < messages.len() ==> (#[trigger] messages[j]).sender_id != messages[i].sender_id)
            ==> recent_writers(messages, n).contains((messages[i].sender_id, messages[i].sender)),
    decreases n,
{
    let rest = recent_writers(messages, n - 1);
    let all = recent_writers(messages, n);
    let m = messages[messages.len() - n];
    lemma_writers(messages, n);
    lemma_writers(messages, n - 1);
    let entry = (messages[i].sender_id, messages[i].sender);
    if i > messages.len() - n {
        law_writers_are_listed(messages, n - 1, i);
        let k = choose|k: int| 0 <= k < rest.len() && (#[trigger] rest[k]).0 == messages[i].sender_id;
        assert(all[k].0 == messages[i].sender_id);
        if rest.contains(entry) {
            let q = choose|q: int| 0 <= q < rest.len() && rest[q] == entry;
            assert(all[q] == entry);
        }
    } else {
        if lists(rest, m.sender_id) {
            let k = choose|k: int| 0 <= k < rest.len() && (#[trigger] rest[k]).0 == m.sender_id;
            assert(all[k].0 == m.sender_id);
            let j = choose|j: int|
                messages.len() - (n - 1) <= j < messages.len() && (#[trigger] messages[j]).sender_id
                    == rest[k].0;
            assert(messages[j].sender_id == messages[i].sender_id);
        } else {
            assert(all[rest.len() as int] == entry);
        }
    }
}

proof fn lemma_writers(messages: Seq<MessageView>, n: int)
    requires
        0 <= n <= messages.len(),
    ensures
        forall|a: int, b: int|
            0 <= a < b < recent_writers(messages, n).len() ==> (#[trigger] recent_writers(
                messages,
                n,
            )[a]).0 != (#[trigger] recent_writers(messages, n)[b]).0,
        forall|k: int|
            0 <= k < recent_writers(messages, n).len() ==> exists|j: int|
                messages.len() - n <= j < messages.len() && (#[trigger] messages[j]).sender_id == (
                #[trigger] recent_writers(messages, n)[k]).0,
    decreases n,
{
    if n > 0 {
        lemma_writers(messages, n - 1);
        let rest = recent_writers(messages, n - 1);
        let all = recent_writers(messages, n);
        let m = messages[messages.len() - n];
        assert forall|a: int, b: int| 0 <= a < b < all.len() implies (#[trigger] all[a]).0 != (
        #[trigger] all[b]).0 by {
            assert(all[a] == rest[a]);
            if b < rest.len() {
                assert(all[b] == rest[b]);
            } else {
                assert(rest[a].0 != m.sender_id);
            }
        }
        assert forall|k: int| 0 <= k < all.len() implies exists|j: int|
            messages.len() - n <= j < messages.len() && (#[trigger] messages[j]).sender_id == (
            #[trigger] all[k]).0 by {
            if k < rest.len() {
                assert(all[k] == rest[k]);
                let j = choose|j: int|
                    messages.len() - (n - 1) <= j < messages.len() && (
                    #[trigger] messages[j]).sender_id == rest[k].0;
                assert(messages[j].sender_id == all[k].0);
            } else {
                assert(messages[messages.len() - n].sender_id == all[k].0);
            }
        }
    }
}

/// Every missing session is asked for, once.
pub proof fn law_sessions_are_asked_for_once(ids: Seq<Option<String>>, n: int, i: int)
    requires
        0 <= i < n <= ids.len(),
        ids[i] is Some,
    ensures
        distinct_ids(ids, n).contains(ids[i]->0@),
        distinct_ids(ids, n).no_duplicates(),
    decreases n,
{
    lemma_distinct_ids(ids, n);
    let rest = distinct_ids(ids, n - 1);
    let all = distinct_ids(ids, n);
    if i < n - 1 {
        law_sessions_are_asked_for_once(ids, n - 1, i);
        let k = choose|k: int| 0 <= k < rest.len() && rest[k] == ids[i]->0@;
        assert(all[k] == ids[i]->0@);
    } else if !rest.contains(ids[i]->0@) {
        assert(all[rest.len() as int] == ids[i]->0@);
    }
}

proof fn lemma_distinct_ids(ids: Seq<Option<String>>, n: int)
    requires
        0 <= n <= ids.len(),
    ensures
        distinct_ids(ids, n).no_duplicates(),
    decreases n,
{
    if n > 0 {
        lemma_distinct_ids(ids, n - 1);
    }
}

/// A member goes by their display name, or else by the local part of their id.
pub proof fn law_members_have_names(m: MemberRecord, local: Seq<char>, server: Seq<char>)
    requires
        m.user_id@ == seq!['@'] + local + seq![':'] + server,
        forall|i: int| 0 <= i < local.len() ==> (#[trigger] local[i]) != ':',
    ensures
        member_text(m).0 == m.user_id@,
        m.display_name matches Some(n) ==> member_text(m).1 == n@,
        m.display_name is None ==> member_text(m).1 == local,
{
    crate::matrix::ids::lemma_localpart(m.user_id@, local, server);
}

/// The avatars are those of the members that have one.
pub proof fn law_avatars_are_listed(members: Seq<MemberRecord>, n: int, i: int)
    requires
        0 <= i < n <= members.len(),
    ensures
        members[i].avatar_url matches Some(u) ==> avatar_texts(members, n).contains(
            (members[i].user_id@, u@),
        ),
        avatar_texts(members, n).len() <= n,
    decreases n,
{
    let rest = avatar_texts(members, n - 1);
    let all = avatar_texts(members, n);
    lemma_avatars_len(members, n);
    if members[i].avatar_url is Some {
        let entry = (members[i].user_id@, members[i].avatar_url->0@);
        if i < n - 1 {
            law_avatars_are_listed(members, n - 1, i);
            let k = choose|k: int| 0 <= k < rest.len() && rest[k] == entry;
            assert(all[k] == entry);
        } else {
            assert(all[rest.len() as int] == entry);
        }
    }
}

proof fn lemma_avatars_len(members: Seq<MemberRecord>, n: int)
    requires
        0 <= n <= members.len(),
    ensures
        avatar_texts(members, n).len() <= n,
    decreases n,
{
    if n > 0 {
        lemma_avatars_len(members, n - 1);
    }
}

/// The members of a room are listed by name: nobody stands before somebody whose
/// name comes first, capitals or not, and as many are listed as there are.
pub proof fn law_members_are_listed_by_name(
    members: Seq<MemberText>,
    sorted: Seq<MemberText>,
    i: int,
    j: int,
)
    requires
        sorted_by_name(members, sorted),
        0 <= i < j < sorted.len(),
    ensures
        sorted.len() == members.len(),
        lowercase(sorted[i].1) == lowercase(sorted[j].1) || text_less(
            lowercase(sorted[i].1),
            lowercase(sorted[j].1),
        ),
        members.contains(sorted[i]),
{
    let keys = members.map_values(|m: MemberText| lowercase(m.1));
    let perm = choose|perm: Seq<usize>| #[trigger]
        is_permutation(perm, members.len()) && text_ascending(
            perm,
            members.map_values(|m: MemberText| lowercase(m.1)),
        ) && sorted == permute(members, perm);
    assert(keys[perm[i] as int] == lowercase(members[perm[i] as int].1));
    assert(keys[perm[j] as int] == lowercase(members[perm[j] as int].1));
    assert(members[perm[i] as int] == sorted[i]);
}

/// An event that shows a room tells its id, all of its messages, where to go on, and
/// its header.
pub proof fn law_shown_rooms_tell_everything(
    event: MatrixEvent,
    room: Seq<char>,
    shown: Seq<MessageView>,
    token: Option<Seq<char>>,
    meta: MetaView,
    background: bool,
)
    requires
        shows_room(event, room, shown, token, meta, background),
    ensures
        event is RoomMessages,
        event->RoomMessages_room_id@ == room,
        messages_of(event->RoomMessages_messages@) == shown,
        text_of(event->RoomMessages_prev_batch_token) == token,
        event->RoomMessages_room_meta@ == meta,
        event->RoomMessages_is_background == background,
{
}

/// What is in memory of a room are its messages, and nothing for a room that is not
/// there.
pub proof fn law_memory_holds_the_messages(cache: &RoomCache, room: Seq<char>)
    ensures
        cache.memory().contains_key(room) ==> in_memory(cache, room) == cache.memory()[room].messages,
        !cache.memory().contains_key(room) ==> in_memory(cache, room).len() == 0,
{
}

} // verus!
