//! What the sync brings: new messages, edits, reactions, membership changes and
//! gaps.

use vstd::prelude::*;
use crate::json::text_of;
use crate::matrix::content::{
    extract_message_content, membership_line, membership_text, shown_body, shown_html, shown_media, Membership,
    MessageContent,
};
use crate::matrix::event::MatrixEvent;
use crate::matrix::history::{
    bare_message, links, links_of, locked_body, locked_text, member_message, plain_message,
    system_message, Relation,
};
use crate::matrix::ids::{localpart_of_user, user_localpart};
use crate::matrix::info::{clone_messages, messages_of, MessageInfo, MessageView};
use crate::matrix::refresh::has_id;
use crate::matrix::room_cache::{
    appended, edited, seen_recently, RoomCache, RoomTimelineView, DEDUP_WINDOW,
};
use crate::matrix::select::up_to_date;
use crate::models::message_object::reactions_view;
use crate::table::Table;
use crate::text::{contains, lowercase, same, str_contains, views};

verus! {

/// How long to wait before a failed sync is tried again.
pub const RETRY_SECS: u64 = 5;

/// Messages that arrived for rooms whose timelines were not in memory.
pub struct Pending {
    rooms: Table<Vec<MessageInfo>>,
}

/// The pending messages after one more was kept for a room.
pub open spec fn pending_after(
    pending: Map<Seq<char>, Seq<MessageView>>,
    room: Seq<char>,
    m: MessageView,
) -> Map<Seq<char>, Seq<MessageView>> {
    pending.insert(
        room,
        (if pending.contains_key(room) {
            pending[room]
        } else {
            Seq::empty()
        }).push(m),
    )
}

impl Pending {
    /// The pending messages by room.
    pub closed spec fn map(&self) -> Map<Seq<char>, Seq<MessageView>> {
        self.rooms.map().map_values(|v: Vec<MessageInfo>| messages_of(v@))
    }

    pub fn new() -> (r: Self)
        ensures
            r.map() == Map::<Seq<char>, Seq<MessageView>>::empty(),
    {
        let r = Pending { rooms: Table::new() };
        assert(r.map() =~= Map::<Seq<char>, Seq<MessageView>>::empty());
        r
    }

    /// Keeps a message for a room.
    pub fn push(&mut self, room_id: &str, m: MessageInfo)
        ensures
            final(self).map() == pending_after(old(self).map(), room_id@, m@),
    {
        let mut list: Vec<MessageInfo> = match self.rooms.get(room_id) {
            Some(v) => clone_messages(v),
            None => Vec::new(),
        };
        let ghost before = messages_of(list@);
        proof {
            assert(before =~= (if self.map().contains_key(room_id@) {
                self.map()[room_id@]
            } else {
                Seq::empty()
            }));
        }
        list.push(m);
        assert(messages_of(list@) =~= before.push(m@));
        self.rooms.insert(room_id.to_owned(), list);
        assert(self.map() =~= pending_after(old(self).map(), room_id@, m@));
    }

    /// Takes out the messages that were kept for a room.
    pub fn take(&mut self, room_id: &str) -> (r: Vec<MessageInfo>)
        ensures
            messages_of(r@) == (if old(self).map().contains_key(room_id@) {
                old(self).map()[room_id@]
            } else {
                Seq::empty()
            }),
            final(self).map() == old(self).map().remove(room_id@),
    {
        let r: Vec<MessageInfo> = match self.rooms.remove(room_id) {
            Some(v) => v,
            None => Vec::new(),
        };
        assert(self.map() =~= old(self).map().remove(room_id@));
        assert(messages_of(r@) =~= (if old(self).map().contains_key(room_id@) {
            old(self).map()[room_id@]
        } else {
            Seq::empty()
        }));
        r
    }
}

/// What the sync says of a new message.
pub struct LiveMessage {
    pub room_id: String,
    /// The name of the room, where one was set.
    pub room_name: Option<String>,
    pub is_dm: bool,
    pub event_id: String,
    pub sender: String,
    pub sender_name: String,
    pub timestamp: u64,
    pub content: MessageContent,
    pub relation: Relation,
    /// Who wrote the message that is replied to, or the root of the thread, where
    /// it could be fetched.
    pub answered: Option<String>,
    /// The name of who wrote the message that is replied to, if it is known.
    pub reply_author: Option<String>,
}

/// The name of a room, or its id where it has none.
pub open spec fn name_or_id(name: Option<String>, room: Seq<char>) -> Seq<char> {
    match name {
        Some(n) => n@,
        None => room,
    }
}

/// Whether a message mentions the user: by the user id, by the local part, or by
/// answering one of the user's messages.
pub open spec fn mentions_user(
    body: Seq<char>,
    relation: Relation,
    answered: Option<Seq<char>>,
    me: Option<Seq<char>>,
) -> bool {
    me is Some && (contains(body, me->0) || contains(
        lowercase(body),
        lowercase(user_localpart(me->0)),
    ) || ((relation is Reply || relation is Thread) && answered == me))
}

/// The message that is shown for a live one.
pub open spec fn live_view(m: LiveMessage) -> MessageView {
    let (reply_to, thread_root) = links(m.relation);
    MessageView {
        formatted_body: shown_html(m.content),
        reply_to,
        reply_to_sender: if reply_to is Some {
            text_of(m.reply_author)
        } else {
            None
        },
        thread_root,
        media: shown_media(m.content),
        ..bare_message(m.sender_name@, m.sender@, shown_body(m.content), m.timestamp, m.event_id@)
    }
}

/// Whether the event announces a message.
pub open spec fn announces(
    event: MatrixEvent,
    room: Seq<char>,
    name: Seq<char>,
    sender: Seq<char>,
    m: MessageView,
    mention: bool,
    dm: bool,
) -> bool {
    match event {
        MatrixEvent::NewMessage { room_id, room_name, sender_id, message, is_mention, is_dm } => {
            &&& room_id@ == room
            &&& room_name@ == name
            &&& sender_id@ == sender
            &&& message@ == m
            &&& is_mention == mention
            &&& is_dm == dm
        },
        _ => false,
    }
}

/// The timelines in memory after a message for a room arrived.
pub open spec fn memory_after(
    memory: Map<Seq<char>, RoomTimelineView>,
    room: Seq<char>,
    m: MessageView,
) -> Map<Seq<char>, RoomTimelineView> {
    if memory.contains_key(room) {
        memory.insert(
            room,
            RoomTimelineView { messages: appended(memory[room].messages, m), ..memory[room] },
        )
    } else {
        memory
    }
}

/// The timelines in memory after an edit arrived.
pub open spec fn memory_edited(
    memory: Map<Seq<char>, RoomTimelineView>,
    room: Seq<char>,
    id: Seq<char>,
    body: Seq<char>,
    html: Option<Seq<char>>,
) -> Map<Seq<char>, RoomTimelineView> {
    if memory.contains_key(room) {
        memory.insert(
            room,
            RoomTimelineView {
                messages: edited(memory[room].messages, id, body, html),
                ..memory[room]
            },
        )
    } else {
        memory
    }
}

/// Puts a message into the timeline in memory, or keeps it until the room is
/// opened.
fn deliver(cache: &mut RoomCache, pending: &mut Pending, room_id: &str, m: &MessageInfo)
    ensures
        final(cache).memory() == memory_after(old(cache).memory(), room_id@, m@),
        final(cache).refreshed() == old(cache).refreshed(),
        final(cache).members() == old(cache).members(),
        final(pending).map() == (if old(cache).memory().contains_key(room_id@) {
            old(pending).map()
        } else {
            pending_after(old(pending).map(), room_id@, m@)
        }),
{
    if !cache.append_memory(room_id, m.clone()) {
        pending.push(room_id, m.clone());
    }
}

fn user_mentioned(body: &str, relation: &Relation, answered: &Option<String>, me: Option<&str>) -> (r:
    bool)
    ensures
        r == mentions_user(
            body@,
            *relation,
            text_of(*answered),
            (match me {
                Some(u) => Some(u@),
                None => None,
            }),
        ),
{
    let Some(uid) = me else {
        return false;
    };
    if str_contains(body, uid) {
        return true;
    }
    let local = localpart_of_user(uid);
    if str_contains(&body.to_lowercase(), &local.as_str().to_lowercase()) {
        return true;
    }
    let is_answer: bool = match relation {
        Relation::Reply { .. } => true,
        Relation::Thread { .. } => true,
        _ => false,
    };
    match answered {
        Some(a) => is_answer && same(a, uid),
        None => false,
    }
}

/// What becomes of a message that the sync brought: the timelines in memory and the
/// pending messages before and after it, and what is reported.
pub open spec fn message_effect(
    m: LiveMessage,
    me: Option<Seq<char>>,
    memory: Map<Seq<char>, RoomTimelineView>,
    pending: Map<Seq<char>, Seq<MessageView>>,
    memory_then: Map<Seq<char>, RoomTimelineView>,
    pending_then: Map<Seq<char>, Seq<MessageView>>,
    r: Option<MatrixEvent>,
) -> bool {
    match m.relation {
        Relation::Replacement { event_id: target, content } => {
            let body = shown_body(content);
            let html = shown_html(content);
            &&& pending_then == pending
            &&& memory_then == (if body.len() > 0 {
                memory_edited(memory, m.room_id@, target@, body, html)
            } else {
                memory
            })
            &&& body.len() == 0 ==> r is None
            &&& body.len() > 0 ==> (r matches Some(
                MatrixEvent::MessageEdited { room_id, event_id, new_body, formatted_body },
            ) && room_id@ == m.room_id@ && event_id@ == target@ && new_body@ == body && text_of(
                formatted_body,
            ) == html)
        },
        _ => {
            &&& memory_then == memory_after(memory, m.room_id@, live_view(m))
            &&& pending_then == (if memory.contains_key(m.room_id@) {
                pending
            } else {
                pending_after(pending, m.room_id@, live_view(m))
            })
            &&& r is Some
            &&& announces(
                r->0,
                m.room_id@,
                name_or_id(m.room_name, m.room_id@),
                m.sender@,
                live_view(m),
                mentions_user(shown_body(m.content), m.relation, text_of(m.answered), me),
                m.is_dm,
            )
        },
    }
}

/// Takes in a message that the sync brought.
///
/// An edit changes the message that it edits and is reported as such; the text of
/// the edit event itself is never shown. Any other message goes into the timeline
/// and is announced.
pub fn on_message(
    cache: &mut RoomCache,
    pending: &mut Pending,
    me: Option<&str>,
    m: LiveMessage,
) -> (r: Option<MatrixEvent>)
    ensures
        final(cache).refreshed() == old(cache).refreshed(),
        final(cache).members() == old(cache).members(),
        message_effect(
            m,
            (match me {
                Some(u) => Some(u@),
                None => None,
            }),
            old(cache).memory(),
            old(pending).map(),
            final(cache).memory(),
            final(pending).map(),
            r,
        ),
{
    if let Relation::Replacement { event_id, content } = &m.relation {
        if let Some((body, html, _)) = extract_message_content(content) {
            if body.as_str().is_empty() {
                return None;
            }
            let formatted: Option<&str> = match &html {
                Some(h) => Some(h.as_str()),
                None => None,
            };
            let _ = cache.update_message_body_in_cache(&m.room_id, event_id, &body, formatted);
            return Some(
                MatrixEvent::MessageEdited {
                    room_id: m.room_id.clone(),
                    event_id: event_id.clone(),
                    new_body: body,
                    formatted_body: html,
                },
            );
        }
        return None;
    }
    let Some((body, html, media)) = extract_message_content(&m.content) else {
        return None;
    };
    let is_mention: bool = user_mentioned(&body, &m.relation, &m.answered, me);
    let (reply_to, thread_root) = links_of(&m.relation);
    let reply_to_sender: Option<String> = if reply_to.is_some() {
        crate::matrix::info::clone_option(&m.reply_author)
    } else {
        None
    };
    let mut message = plain_message(
        m.sender_name.clone(),
        m.sender.clone(),
        body,
        m.timestamp,
        m.event_id.clone(),
    );
    message.formatted_body = html;
    message.reply_to = reply_to;
    message.reply_to_sender = reply_to_sender;
    message.thread_root = thread_root;
    message.media = media;
    assert(message@ == live_view(m));
    deliver(cache, pending, &m.room_id, &message);
    let room_name: String = match &m.room_name {
        Some(n) => n.clone(),
        None => m.room_id.clone(),
    };
    Some(
        MatrixEvent::NewMessage {
            room_id: m.room_id.clone(),
            room_name,
            sender_id: m.sender.clone(),
            message,
            is_mention,
            is_dm: m.is_dm,
        },
    )
}

/// What the sync says of a message that could not be decrypted.
pub struct LockedMessage {
    pub room_id: String,
    pub room_name: Option<String>,
    pub is_dm: bool,
    pub event_id: String,
    pub sender: String,
    pub sender_name: String,
    pub timestamp: u64,
}

/// The message that is shown for one that could not be decrypted.
pub open spec fn locked_view(m: LockedMessage) -> MessageView {
    bare_message(m.sender_name@, m.sender@, locked_text(), m.timestamp, m.event_id@)
}

/// Takes in a message that could not be decrypted.
pub fn on_encrypted(cache: &mut RoomCache, pending: &mut Pending, m: LockedMessage) -> (r: MatrixEvent)
    ensures
        final(cache).memory() == memory_after(old(cache).memory(), m.room_id@, locked_view(m)),
        final(cache).refreshed() == old(cache).refreshed(),
        final(cache).members() == old(cache).members(),
        final(pending).map() == (if old(cache).memory().contains_key(m.room_id@) {
            old(pending).map()
        } else {
            pending_after(old(pending).map(), m.room_id@, locked_view(m))
        }),
        announces(
            r,
            m.room_id@,
            name_or_id(m.room_name, m.room_id@),
            m.sender@,
            locked_view(m),
            false,
            m.is_dm,
        ),
{
    let message = plain_message(
        m.sender_name,
        m.sender.clone(),
        locked_body(),
        m.timestamp,
        m.event_id,
    );
    deliver(cache, pending, &m.room_id, &message);
    let room_name: String = match m.room_name {
        Some(n) => n,
        None => m.room_id.clone(),
    };
    MatrixEvent::NewMessage {
        room_id: m.room_id,
        room_name,
        sender_id: m.sender,
        message,
        is_mention: false,
        is_dm: m.is_dm,
    }
}

/// What the sync says of a membership change.
pub struct LiveMember {
    pub room_id: String,
    pub room_name: Option<String>,
    pub event_id: String,
    pub sender: String,
    pub sender_name: String,
    pub target: String,
    pub target_name: String,
    pub timestamp: u64,
    pub membership: Membership,
    pub reason: Option<String>,
}

/// The line for a membership change; the user's own joining is not shown.
pub open spec fn member_line(m: LiveMember, me: Option<Seq<char>>) -> Option<Seq<char>> {
    if m.membership == Membership::Join && me == Some(m.sender@) {
        None
    } else {
        membership_line(
            m.membership,
            m.sender@ != m.target@,
            m.sender_name@,
            m.target_name@,
            text_of(m.reason),
        )
    }
}

/// What becomes of a membership change: the timelines in memory before and after it,
/// and what is reported.
pub open spec fn member_effect(
    m: LiveMember,
    me: Option<Seq<char>>,
    memory: Map<Seq<char>, RoomTimelineView>,
    memory_then: Map<Seq<char>, RoomTimelineView>,
    r: Option<MatrixEvent>,
) -> bool {
    match member_line(m, me) {
        None => r is None && memory_then == memory,
        Some(line) => {
            let view = system_message(line, m.timestamp, m.event_id@);
            &&& memory_then == memory_after(memory, m.room_id@, view)
            &&& r is Some
            &&& announces(
                r->0,
                m.room_id@,
                name_or_id(m.room_name, m.room_id@),
                Seq::empty(),
                view,
                false,
                false,
            )
        },
    }
}

/// Takes in a membership change. It goes into the timeline of a room that is in
/// memory, and is announced.
pub fn on_member(cache: &mut RoomCache, me: Option<&str>, m: LiveMember) -> (r: Option<MatrixEvent>)
    ensures
        final(cache).refreshed() == old(cache).refreshed(),
        final(cache).members() == old(cache).members(),
        member_effect(
            m,
            (match me {
                Some(u) => Some(u@),
                None => None,
            }),
            old(cache).memory(),
            final(cache).memory(),
            r,
        ),
{
    let own: bool = match me {
        Some(u) => same(u, &m.sender),
        None => false,
    };
    if own {
        if let Membership::Join = m.membership {
            return None;
        }
    }
    let why: Option<&str> = match &m.reason {
        Some(t) => Some(t.as_str()),
        None => None,
    };
    let by_other: bool = !same(&m.sender, &m.target);
    match membership_text(m.membership, by_other, &m.sender_name, &m.target_name, why) {
        None => None,
        Some(body) => {
            let message = member_message(body, m.timestamp, m.event_id.clone());
            let _ = cache.append_memory(&m.room_id, message.clone());
            let room_name: String = match m.room_name {
                Some(n) => n,
                None => m.room_id.clone(),
            };
            Some(
                MatrixEvent::NewMessage {
                    room_id: m.room_id,
                    room_name,
                    sender_id: String::new(),
                    message,
                    is_mention: false,
                    is_dm: false,
                },
            )
        },
    }
}

/// What the sync says of a reaction.
pub struct LiveReaction {
    pub room_id: String,
    /// The display name of the room, where it can be computed.
    pub room_name: Option<String>,
    pub target: String,
    pub emoji: String,
    pub sender: String,
    pub sender_name: String,
    /// Who wrote the message that was reacted to, where it could be fetched.
    pub target_author: Option<String>,
}

/// Takes in a reaction: it is shown on the message, and a reaction of somebody
/// else to one of the user's messages is notified.
pub fn on_reaction(me: Option<&str>, m: LiveReaction) -> (r: (MatrixEvent, Option<MatrixEvent>))
    ensures
        ({
            let user = match me {
                Some(u) => Some(u@),
                None => None,
            };
            let own = user == Some(m.sender@);
            &&& r.0 matches MatrixEvent::ReactionUpdate { room_id, event_id, reactions } && room_id@
                == m.room_id@ && event_id@ == m.target@ && reactions_view(reactions@) == seq![
                (
                    m.emoji@,
                    1u64,
                    seq![
                        if own {
                            "You"@
                        } else {
                            m.sender_name@
                        },
                    ],
                ),
            ]
            &&& r.1 is Some <==> !own && user is Some && text_of(m.target_author) == user
            &&& r.1 matches Some(event) ==> (
            event matches MatrixEvent::ReactionNotification { room_id, room_name, reactor, emoji }
                && room_id@ == m.room_id@ && room_name@ == name_or_id(m.room_name, m.room_id@)
                && reactor@ == m.sender_name@ && emoji@ == m.emoji@)
        }),
{
    let own: bool = match me {
        Some(u) => same(u, &m.sender),
        None => false,
    };
    let shown: String = if own {
        "You".to_owned()
    } else {
        m.sender_name.clone()
    };
    let mut names: Vec<String> = Vec::new();
    names.push(shown);
    let mut reactions: Vec<(String, u64, Vec<String>)> = Vec::new();
    reactions.push((m.emoji.clone(), 1, names));
    proof {
        assert(names@.map_values(|n: String| n@) =~= seq![shown@]);
        assert(reactions_view(reactions@) =~= seq![(m.emoji@, 1u64, seq![shown@])]);
    }
    let update = MatrixEvent::ReactionUpdate {
        room_id: m.room_id.clone(),
        event_id: m.target,
        reactions,
    };
    let ours: bool = match (me, &m.target_author) {
        (Some(u), Some(a)) => same(a, u),
        _ => false,
    };
    if !own && ours {
        let room_name: String = match m.room_name {
            Some(n) => n,
            None => m.room_id.clone(),
        };
        (
            update,
            Some(
                MatrixEvent::ReactionNotification {
                    room_id: m.room_id,
                    room_name,
                    reactor: m.sender_name,
                    emoji: m.emoji,
                },
            ),
        )
    } else {
        (update, None)
    }
}

/// Takes in a redaction.
pub fn on_redaction(room_id: &str, redacts: Option<String>) -> (r: Option<MatrixEvent>)
    ensures
        r is Some <==> redacts is Some,
        r matches Some(event) ==> (event matches MatrixEvent::MessageRedacted {
            room_id: id,
            event_id,
        } && id@ == room_id@ && Some(event_id) == redacts),
{
    match redacts {
        Some(event_id) => Some(
            MatrixEvent::MessageRedacted { room_id: room_id.to_owned(), event_id },
        ),
        None => None,
    }
}

/// Takes in a membership change of a room that the user is not in. An invitation
/// of the user is reported.
pub fn on_invite(
    membership: Membership,
    target: &str,
    me: Option<&str>,
    room_id: &str,
    room_name: Option<String>,
    inviter: &str,
) -> (r: Option<MatrixEvent>)
    ensures
        r is Some <==> membership == Membership::Invite && me is Some && me->0@ == target@,
        r matches Some(event) ==> (event matches MatrixEvent::RoomInvited {
            room_id: id,
            room_name: name,
            inviter_name,
        } && id@ == room_id@ && name@ == name_or_id(room_name, room_id@) && inviter_name@
            == user_localpart(inviter@)),
{
    let invited: bool = match membership {
        Membership::Invite => true,
        _ => false,
    };
    let is_me: bool = match me {
        Some(u) => same(target, u),
        None => false,
    };
    if !invited || !is_me {
        return None;
    }
    let name: String = match room_name {
        Some(n) => n,
        None => room_id.to_owned(),
    };
    Some(
        MatrixEvent::RoomInvited {
            room_id: room_id.to_owned(),
            room_name: name,
            inviter_name: localpart_of_user(inviter),
        },
    )
}

/// The users among the first `n` other than the user.
pub open spec fn others(ids: Seq<Seq<char>>, me: Option<Seq<char>>, n: int) -> Seq<Seq<char>>
    decreases n,
{
    if n <= 0 {
        Seq::empty()
    } else if me == Some(ids[n - 1]) {
        others(ids, me, n - 1)
    } else {
        others(ids, me, n - 1).push(ids[n - 1])
    }
}

/// Who else is typing.
pub fn typing_others(ids: &Vec<String>, me: Option<&str>) -> (r: Vec<String>)
    ensures
        views(r@) == others(
            views(ids@),
            (match me {
                Some(u) => Some(u@),
                None => None,
            }),
            ids@.len() as int,
        ),
{
    let ghost all = views(ids@);
    let ghost user = match me {
        Some(u) => Some(u@),
        None => None,
    };
    let mut out: Vec<String> = Vec::new();
    let mut i: usize = 0;
    assert(views(out@) =~= Seq::<Seq<char>>::empty());
    while i < ids.len()
        invariant
            i <= ids@.len(),
            all == views(ids@),
            user == (match me {
                Some(u) => Some(u@),
                None => None,
            }),
            views(out@) == others(all, user, i as int),
        decreases ids@.len() - i,
    {
        let ghost before = views(out@);
        assert(all[i as int] == ids@[i as int]@);
        let own: bool = match me {
            Some(u) => same(u, &ids[i]),
            None => false,
        };
        if !own {
            out.push(ids[i].clone());
            assert(views(out@) =~= before.push(ids@[i as int]@));
        }
        i = i + 1;
    }
    out
}

/// A timeline that is to be written to disk.
pub struct Flush {
    pub room_id: String,
    pub messages: Vec<MessageInfo>,
    pub token: Option<String>,
}

/// What is kept by room, without the rooms of the first `n` gaps.
pub open spec fn without_rooms<V>(m: Map<Seq<char>, V>, gaps: Seq<String>, n: int) -> Map<
    Seq<char>,
    V,
>
    decreases n,
{
    if n <= 0 {
        m
    } else {
        without_rooms(m, gaps, n - 1).remove(gaps[n - 1]@)
    }
}

/// What is written to disk for the first `n` gaps.
pub open spec fn flushed(memory: Map<Seq<char>, RoomTimelineView>, gaps: Seq<String>, n: int) -> Seq<
    (Seq<char>, Seq<MessageView>, Option<Seq<char>>),
>
    decreases n,
{
    if n <= 0 {
        Seq::empty()
    } else {
        let before = flushed(memory, gaps, n - 1);
        let left = without_rooms(memory, gaps, n - 1);
        let room = gaps[n - 1]@;
        if left.contains_key(room) && left[room].messages.len() > 0 {
            before.push((room, left[room].messages, left[room].prev_batch_token))
        } else {
            before
        }
    }
}

/// Handles rooms whose events the server cut short. Their timelines leave memory and
/// it is forgotten when they were fetched, so that they are fetched anew whatever
/// their age, but what was there is written to disk first.
pub fn on_gaps(cache: &mut RoomCache, gaps: &Vec<String>) -> (r: Vec<Flush>)
    ensures
        final(cache).memory() == without_rooms(
            old(cache).memory(),
            gaps@,
            gaps@.len() as int,
        ),
        final(cache).refreshed() == without_rooms(
            old(cache).refreshed(),
            gaps@,
            gaps@.len() as int,
        ),
        final(cache).members() == old(cache).members(),
        r@.map_values(|f: Flush| (f.room_id@, messages_of(f.messages@), text_of(f.token)))
            == flushed(old(cache).memory(), gaps@, gaps@.len() as int),
{
    let ghost start = cache.memory();
    let ghost times = cache.refreshed();
    let mut out: Vec<Flush> = Vec::new();
    let mut i: usize = 0;
    assert(out@.map_values(|f: Flush| (f.room_id@, messages_of(f.messages@), text_of(f.token)))
        =~= Seq::empty());
    while i < gaps.len()
        invariant
            i <= gaps@.len(),
            start == old(cache).memory(),
            times == old(cache).refreshed(),
            cache.memory() == without_rooms(start, gaps@, i as int),
            cache.refreshed() == without_rooms(times, gaps@, i as int),
            cache.members() == old(cache).members(),
            out@.map_values(|f: Flush| (f.room_id@, messages_of(f.messages@), text_of(f.token)))
                == flushed(start, gaps@, i as int),
        decreases gaps@.len() - i,
    {
        let ghost before = out@.map_values(
            |f: Flush| (f.room_id@, messages_of(f.messages@), text_of(f.token)),
        );
        if let Some(e) = cache.get_memory(&gaps[i]) {
            if e.messages.len() > 0 {
                let f = Flush {
                    room_id: gaps[i].clone(),
                    messages: e.messages,
                    token: e.prev_batch_token,
                };
                out.push(f);
                assert(out@.map_values(
                    |f: Flush| (f.room_id@, messages_of(f.messages@), text_of(f.token)),
                ) =~= before.push((f.room_id@, messages_of(f.messages@), text_of(f.token))));
            }
        }
        cache.invalidate_room(&gaps[i]);
        i = i + 1;
    }
    out
}

/// The event whose author decides whether a message answers the user: the message
/// that is replied to, or the root of the thread.
pub fn answered_event(relation: &Relation) -> (r: Option<String>)
    ensures
        text_of(r) == (match *relation {
            Relation::Reply { event_id } => Some(event_id@),
            Relation::Thread { root, .. } => Some(root@),
            _ => None,
        }),
{
    match relation {
        Relation::Reply { event_id } => Some(event_id.clone()),
        Relation::Thread { root, .. } => Some(root.clone()),
        _ => None,
    }
}

/// How a sync ended.
#[derive(Debug, Clone, Copy, PartialEq, Eq, Structural)]
pub enum SyncEnd {
    /// It ended by itself.
    Finished,
    /// It failed.
    Failed,
    /// The program is closing.
    Shutdown,
}

/// Whether the sync is started again after it ended. It is only after a failure,
/// and not while the program is closing.
pub fn retry_sync(end: SyncEnd, shutting_down: bool) -> (r: bool)
    ensures
        r == (end == SyncEnd::Failed && !shutting_down),
{
    match end {
        SyncEnd::Failed => !shutting_down,
        _ => false,
    }
}

// ---- laws ---------------------------------------------------------------------

/// A message that arrives is not lost: its room holds a message with its id in
/// memory, or it is kept until the room is opened. Nothing is lost that was kept
/// before, and no other room is touched.
pub proof fn law_live_message_is_kept(
    memory: Map<Seq<char>, RoomTimelineView>,
    pending: Map<Seq<char>, Seq<MessageView>>,
    room: Seq<char>,
    m: MessageView,
    other: Seq<char>,
)
    ensures
        memory.contains_key(room) ==> {
            let after = memory_after(memory, room, m);
            after.contains_key(room) && has_id(after[room].messages, m.event_id)
        },
        !memory.contains_key(room) ==> {
            let after = pending_after(pending, room, m);
            &&& after.contains_key(room) && after[room].last() == m
            &&& pending.contains_key(room) ==> after[room].drop_last() == pending[room]
        },
        other != room ==> {
            let kept = pending_after(pending, room, m);
            let held = memory_after(memory, room, m);
            &&& held.contains_key(other) == memory.contains_key(other)
            &&& held.contains_key(other) ==> held[other] == memory[other]
            &&& kept.contains_key(other) == pending.contains_key(other)
            &&& kept.contains_key(other) ==> kept[other] == pending[other]
        },
{
    if memory.contains_key(room) {
        let before = memory[room].messages;
        let after = appended(before, m);
        if m.event_id.len() > 0 && seen_recently(before, m.event_id) {
            let p = choose|p: int|
                0 <= p < before.len() && before.len() - DEDUP_WINDOW <= p && (
                #[trigger] before[p]).event_id == m.event_id;
            assert(after[p].event_id == m.event_id);
        } else {
            assert(after[after.len() - 1] == m);
        }
    } else if pending.contains_key(room) {
        assert(pending[room].push(m).drop_last() =~= pending[room]);
    }
}

proof fn lemma_without_rooms<V>(
    m: Map<Seq<char>, V>,
    gaps: Seq<String>,
    n: int,
    room: Seq<char>,
)
    requires
        0 <= n <= gaps.len(),
    ensures
        ({
            let left = without_rooms(m, gaps, n);
            let cut = exists|i: int| 0 <= i < n && (#[trigger] gaps[i])@ == room;
            &&& cut ==> !left.contains_key(room)
            &&& !cut ==> left.contains_key(room) == m.contains_key(room)
            &&& !cut && m.contains_key(room) ==> left[room] == m[room]
        }),
    decreases n,
{
    if n > 0 {
        lemma_without_rooms(m, gaps, n - 1, room);
        if exists|i: int| 0 <= i < n && (#[trigger] gaps[i])@ == room {
            let i = choose|i: int| 0 <= i < n && (#[trigger] gaps[i])@ == room;
            if i < n - 1 {
                assert(gaps[i]@ == room);
            }
        } else {
            assert(gaps[n - 1]@ != room);
        }
    }
}

proof fn lemma_flushed(
    memory: Map<Seq<char>, RoomTimelineView>,
    gaps: Seq<String>,
    n: int,
    room: Seq<char>,
)
    requires
        0 <= n <= gaps.len(),
        memory.contains_key(room),
        memory[room].messages.len() > 0,
        exists|i: int| 0 <= i < n && (#[trigger] gaps[i])@ == room,
    ensures
        flushed(memory, gaps, n).contains(
            (room, memory[room].messages, memory[room].prev_batch_token),
        ),
    decreases n,
{
    let entry = (room, memory[room].messages, memory[room].prev_batch_token);
    let before = flushed(memory, gaps, n - 1);
    let all = flushed(memory, gaps, n);
    if exists|i: int| 0 <= i < n - 1 && (#[trigger] gaps[i])@ == room {
        lemma_flushed(memory, gaps, n - 1, room);
        let p = before.index_of(entry);
        assert(all[p] == entry);
    } else {
        let i = choose|i: int| 0 <= i < n && (#[trigger] gaps[i])@ == room;
        assert(i == n - 1);
        lemma_without_rooms(memory, gaps, n - 1, room);
        assert(all[all.len() - 1] == entry);
    }
}

/// A gap loses nothing that was in memory: the timeline of a room with a gap
/// leaves memory, but its messages, as far as there are any, are written to disk
/// with the token of their history. No other room leaves memory.
pub proof fn law_gap_is_flushed(
    memory: Map<Seq<char>, RoomTimelineView>,
    gaps: Seq<String>,
    room: Seq<char>,
)
    ensures
        ({
            let left = without_rooms(memory, gaps, gaps.len() as int);
            let cut = exists|i: int| 0 <= i < gaps.len() && (#[trigger] gaps[i])@ == room;
            &&& cut ==> !left.contains_key(room)
            &&& cut && memory.contains_key(room) && memory[room].messages.len() > 0 ==> flushed(
                memory,
                gaps,
                gaps.len() as int,
            ).contains((room, memory[room].messages, memory[room].prev_batch_token))
            &&& !cut ==> left.contains_key(room) == memory.contains_key(room)
            &&& !cut && memory.contains_key(room) ==> left[room] == memory[room]
        }),
{
    lemma_without_rooms(memory, gaps, gaps.len() as int, room);
    if memory.contains_key(room) && memory[room].messages.len() > 0 && exists|i: int|
        0 <= i < gaps.len() && (#[trigger] gaps[i])@ == room {
        lemma_flushed(memory, gaps, gaps.len() as int, room);
    }
}

/// A room with a gap is fetched when it is opened next, whatever its age: also where
/// its timeline came back into memory from disk meanwhile. The other rooms are fetched
/// as they would have been.
pub proof fn law_gap_forces_a_fetch(
    before: RoomCache,
    opened: RoomCache,
    gaps: Seq<String>,
    room: Seq<char>,
    now_ms: u64,
)
    requires
        opened.refreshed() == without_rooms(before.refreshed(), gaps, gaps.len() as int),
    ensures
        ({
            let cut = exists|i: int| 0 <= i < gaps.len() && (#[trigger] gaps[i])@ == room;
            &&& cut ==> !up_to_date(opened, room, now_ms)
            &&& !cut && opened.memory().contains_key(room) == before.memory().contains_key(room)
                ==> up_to_date(opened, room, now_ms) == up_to_date(before, room, now_ms)
        }),
{
    lemma_without_rooms(before.refreshed(), gaps, gaps.len() as int, room);
}

/// A message that answers one of the user's messages, or goes on in a thread of
/// theirs, is announced as a mention, whatever it says.
pub proof fn law_answers_are_mentions(
    m: LiveMessage,
    me: Option<Seq<char>>,
    memory: Map<Seq<char>, RoomTimelineView>,
    pending: Map<Seq<char>, Seq<MessageView>>,
    memory_then: Map<Seq<char>, RoomTimelineView>,
    pending_then: Map<Seq<char>, Seq<MessageView>>,
    r: Option<MatrixEvent>,
)
    requires
        message_effect(m, me, memory, pending, memory_then, pending_then, r),
        m.relation is Reply || m.relation is Thread,
        m.answered is Some,
        me == Some(m.answered->0@),
    ensures
        r matches Some(MatrixEvent::NewMessage { is_mention, .. }) && is_mention,
{
}

/// A text that names the user, by their id or by its local part in whatever case, is
/// announced as a mention.
pub proof fn law_names_are_mentions(
    m: LiveMessage,
    me: Seq<char>,
    local: Seq<char>,
    memory: Map<Seq<char>, RoomTimelineView>,
    pending: Map<Seq<char>, Seq<MessageView>>,
    memory_then: Map<Seq<char>, RoomTimelineView>,
    pending_then: Map<Seq<char>, Seq<MessageView>>,
    r: Option<MatrixEvent>,
    server: Seq<char>,
)
    requires
        message_effect(m, Some(me), memory, pending, memory_then, pending_then, r),
        !(m.relation is Replacement),
        m.content.kind == crate::matrix::content::MessageKind::Text,
        me == seq!['@'] + local + seq![':'] + server,
        forall|i: int| 0 <= i < local.len() ==> (#[trigger] local[i]) != ':',
        contains(m.content.body@, me) || contains(lowercase(m.content.body@), lowercase(local)),
    ensures
        r matches Some(MatrixEvent::NewMessage { is_mention, .. }) && is_mention,
{
    crate::text::lemma_find_char(me, ':', 0);
    let c = crate::text::find_char(me, ':', 0);
    assert(me[local.len() as int + 1] == ':');
    assert forall|j: int| 0 <= j < local.len() + 1 implies (#[trigger] me[j]) != ':' by {
        if j > 0 {
            assert(me[j] == local[j - 1]);
        }
    }
    assert(c == local.len() + 1);
    assert(me.subrange(1, c) =~= local);
}

/// Nobody is told of a mention that is none: nothing is one while nobody is logged in,
/// and else the text names the user or the message answers theirs.
pub proof fn law_no_mention_without_reason(
    m: LiveMessage,
    me: Option<Seq<char>>,
    memory: Map<Seq<char>, RoomTimelineView>,
    pending: Map<Seq<char>, Seq<MessageView>>,
    memory_then: Map<Seq<char>, RoomTimelineView>,
    pending_then: Map<Seq<char>, Seq<MessageView>>,
    r: Option<MatrixEvent>,
)
    requires
        message_effect(m, me, memory, pending, memory_then, pending_then, r),
        m.content.kind == crate::matrix::content::MessageKind::Text,
        r matches Some(MatrixEvent::NewMessage { is_mention, .. }) && is_mention,
    ensures
        me is Some,
        contains(m.content.body@, me->0) || contains(
            lowercase(m.content.body@),
            lowercase(user_localpart(me->0)),
        ) || (m.answered is Some && m.answered->0@ == me->0 && !(m.relation is Unrelated)),
{
}

/// A message that is no edit is announced with all that it says: where, by whom and
/// when, its text, its attachment, and what it answers.
pub proof fn law_live_message_is_announced(
    m: LiveMessage,
    me: Option<Seq<char>>,
    memory: Map<Seq<char>, RoomTimelineView>,
    pending: Map<Seq<char>, Seq<MessageView>>,
    memory_then: Map<Seq<char>, RoomTimelineView>,
    pending_then: Map<Seq<char>, Seq<MessageView>>,
    r: Option<MatrixEvent>,
)
    requires
        message_effect(m, me, memory, pending, memory_then, pending_then, r),
        !(m.relation is Replacement),
    ensures
        r matches Some(
            MatrixEvent::NewMessage { room_id, room_name, sender_id, message, is_mention, is_dm },
        ) && {
            &&& room_id@ == m.room_id@
            &&& m.room_name matches Some(n) ==> room_name@ == n@
            &&& m.room_name is None ==> room_name@ == m.room_id@
            &&& sender_id@ == m.sender@
            &&& is_dm == m.is_dm
            &&& message@.event_id == m.event_id@
            &&& message@.sender == m.sender_name@
            &&& message@.sender_id == m.sender@
            &&& message@.timestamp == m.timestamp
            &&& !message@.is_system_event
            &&& m.content.kind == crate::matrix::content::MessageKind::Text || m.content.kind
                == crate::matrix::content::MessageKind::Notice ==> message@.body == m.content.body@
                && message@.media is None && message@.formatted_body == (if m.content.formatted is Some
                && m.content.formatted->0.is_html {
                Some(m.content.formatted->0.body@)
            } else {
                None
            })
            &&& m.content.kind == crate::matrix::content::MessageKind::Image || m.content.kind
                == crate::matrix::content::MessageKind::Video || m.content.kind
                == crate::matrix::content::MessageKind::Audio || m.content.kind
                == crate::matrix::content::MessageKind::File ==> message@.media is Some
                && message@.media->0.url == m.content.url@ && message@.media->0.size
                == m.content.size && message@.media->0.source_json == m.content.source_json@
            &&& m.relation matches Relation::Reply { event_id } ==> message@.reply_to == Some(
                event_id@,
            ) && message@.reply_to_sender == text_of(m.reply_author)
            &&& m.relation matches Relation::Thread { root, .. } ==> message@.thread_root == Some(
                root@,
            )
            &&& m.relation is Unrelated ==> message@.reply_to is None && message@.thread_root is None
        },
{
}

/// What is announced is what the timeline holds: a message goes to the end of its
/// room's timeline, unless a recent one there has its id, or waits for the room to be
/// opened.
pub proof fn law_announced_is_kept(
    m: LiveMessage,
    me: Option<Seq<char>>,
    memory: Map<Seq<char>, RoomTimelineView>,
    pending: Map<Seq<char>, Seq<MessageView>>,
    memory_then: Map<Seq<char>, RoomTimelineView>,
    pending_then: Map<Seq<char>, Seq<MessageView>>,
    r: Option<MatrixEvent>,
)
    requires
        message_effect(m, me, memory, pending, memory_then, pending_then, r),
        !(m.relation is Replacement),
    ensures
        r matches Some(MatrixEvent::NewMessage { message, .. }) && {
            let room = m.room_id@;
            if memory.contains_key(room) {
                &&& memory_then.contains_key(room)
                &&& pending_then == pending
                &&& memory_then[room].messages.len() > 0
                &&& (forall|i: int|
                    0 <= i < memory[room].messages.len() ==> (
                    #[trigger] memory[room].messages[i]).event_id != message@.event_id)
                    ==> memory_then[room].messages.last() == message@
                &&& memory_then[room].meta == memory[room].meta
                &&& memory_then[room].prev_batch_token == memory[room].prev_batch_token
            } else {
                &&& memory_then == memory
                &&& pending_then.contains_key(room)
                &&& pending_then[room].last() == message@
            }
        },
{
}

/// An edit changes the text of the message that it is for, in place, and nothing else;
/// it is reported with the new text.
pub proof fn law_live_edit_changes_the_text(
    m: LiveMessage,
    me: Option<Seq<char>>,
    memory: Map<Seq<char>, RoomTimelineView>,
    pending: Map<Seq<char>, Seq<MessageView>>,
    memory_then: Map<Seq<char>, RoomTimelineView>,
    pending_then: Map<Seq<char>, Seq<MessageView>>,
    r: Option<MatrixEvent>,
    k: int,
)
    requires
        message_effect(m, me, memory, pending, memory_then, pending_then, r),
        m.relation is Replacement,
        m.relation->content.kind == crate::matrix::content::MessageKind::Text,
        m.relation->content.body@.len() > 0,
        memory.contains_key(m.room_id@),
        0 <= k < memory[m.room_id@].messages.len(),
        memory[m.room_id@].messages[k].event_id == m.relation->Replacement_event_id@,
        forall|i: int|
            0 <= i < k ==> (#[trigger] memory[m.room_id@].messages[i]).event_id
                != m.relation->Replacement_event_id@,
    ensures
        pending_then == pending,
        memory_then.contains_key(m.room_id@),
        ({
            let before = memory[m.room_id@].messages;
            let after = memory_then[m.room_id@].messages;
            &&& after.len() == before.len()
            &&& after[k].body == m.relation->content.body@
            &&& after[k].event_id == before[k].event_id
            &&& after[k].timestamp == before[k].timestamp
            &&& after[k].sender == before[k].sender
            &&& after[k].reactions == before[k].reactions
            &&& forall|i: int| 0 <= i < before.len() && i != k ==> #[trigger] after[i] == before[i]
        }),
        r matches Some(MatrixEvent::MessageEdited { room_id, event_id, new_body, .. }) && room_id@
            == m.room_id@ && event_id@ == m.relation->Replacement_event_id@ && new_body@
            == m.relation->content.body@,
{
    crate::matrix::room_cache::lemma_message_position_is(
        memory[m.room_id@].messages,
        m.relation->Replacement_event_id@,
        0,
        k,
    );
}

/// Nothing that concerns one room changes another one.
pub proof fn law_live_message_stays_in_its_room(
    m: LiveMessage,
    me: Option<Seq<char>>,
    memory: Map<Seq<char>, RoomTimelineView>,
    pending: Map<Seq<char>, Seq<MessageView>>,
    memory_then: Map<Seq<char>, RoomTimelineView>,
    pending_then: Map<Seq<char>, Seq<MessageView>>,
    r: Option<MatrixEvent>,
    other: Seq<char>,
)
    requires
        message_effect(m, me, memory, pending, memory_then, pending_then, r),
        other != m.room_id@,
    ensures
        memory_then.contains_key(other) == memory.contains_key(other),
        memory.contains_key(other) ==> memory_then[other] == memory[other],
        pending_then.contains_key(other) == pending.contains_key(other),
        pending.contains_key(other) ==> pending_then[other] == pending[other],
{
}

/// Who comes, goes, is invited, kicked or banned is announced in a line of its own;
/// only the user's own joining is not.
pub proof fn law_membership_is_announced(
    m: LiveMember,
    me: Option<Seq<char>>,
    memory: Map<Seq<char>, RoomTimelineView>,
    memory_then: Map<Seq<char>, RoomTimelineView>,
    r: Option<MatrixEvent>,
)
    requires
        member_effect(m, me, memory, memory_then, r),
        m.reason is None,
    ensures
        m.membership == Membership::Join && me == Some(m.sender@) ==> r is None && memory_then == memory,
        m.membership == Membership::Other ==> r is None && memory_then == memory,
        m.membership != Membership::Other && !(m.membership == Membership::Join && me == Some(
            m.sender@,
        )) ==> (r matches Some(
            MatrixEvent::NewMessage { room_id, message, is_mention, is_dm, .. },
        ) && {
            &&& room_id@ == m.room_id@
            &&& !is_mention
            &&& !is_dm
            &&& message@.is_system_event
            &&& message@.event_id == m.event_id@
            &&& message@.timestamp == m.timestamp
            &&& m.membership == Membership::Join ==> message@.body == m.target_name@ + " joined"@
            &&& m.membership == Membership::Leave && m.sender@ == m.target@ ==> message@.body
                == m.target_name@ + " left"@
            &&& m.membership == Membership::Leave && m.sender@ != m.target@ ==> message@.body
                == m.sender_name@ + " kicked "@ + m.target_name@
            &&& m.membership == Membership::Invite ==> message@.body == m.sender_name@ + " invited "@
                + m.target_name@
            &&& m.membership == Membership::Ban ==> message@.body == m.sender_name@ + " banned "@
                + m.target_name@
        }),
{
    crate::matrix::content::law_membership_is_told(m.sender_name@, m.target_name@, Seq::empty());
    let none = Seq::<char>::empty();
    assert(m.sender_name@ + " kicked "@ + m.target_name@ + none =~= m.sender_name@ + " kicked "@
        + m.target_name@);
    assert(m.sender_name@ + " banned "@ + m.target_name@ + none =~= m.sender_name@ + " banned "@
        + m.target_name@);
}

/// Everybody who types is told but the user.
pub proof fn law_typing_leaves_out_the_user(ids: Seq<Seq<char>>, me: Option<Seq<char>>, n: int, i: int)
    requires
        0 <= i < n <= ids.len(),
    ensures
        me != Some(ids[i]) ==> others(ids, me, n).contains(ids[i]),
        me is Some ==> !others(ids, me, n).contains(me->0),
        me is None ==> others(ids, me, n) == ids.take(n),
    decreases n,
{
    let rest = others(ids, me, n - 1);
    let all = others(ids, me, n);
    lemma_others(ids, me, n);
    if i < n - 1 {
        law_typing_leaves_out_the_user(ids, me, n - 1, i);
        if rest.contains(ids[i]) {
            let k = choose|k: int| 0 <= k < rest.len() && rest[k] == ids[i];
            assert(all[k] == ids[i]);
        }
    } else if me != Some(ids[i]) {
        assert(all[rest.len() as int] == ids[i]);
    }
}

proof fn lemma_others(ids: Seq<Seq<char>>, me: Option<Seq<char>>, n: int)
    requires
        0 <= n <= ids.len(),
    ensures
        forall|k: int| 0 <= k < others(ids, me, n).len() ==> me != Some(#[trigger] others(ids, me, n)[k]),
        me is None ==> others(ids, me, n) == ids.take(n),
    decreases n,
{
    if n > 0 {
        lemma_others(ids, me, n - 1);
        let rest = others(ids, me, n - 1);
        let all = others(ids, me, n);
        assert forall|k: int| 0 <= k < all.len() implies me != Some(#[trigger] all[k]) by {
            if k < rest.len() {
                assert(all[k] == rest[k]);
            }
        }
        assert(ids.take(n) =~= ids.take(n - 1).push(ids[n - 1]));
    } else {
        assert(ids.take(0) =~= Seq::<Seq<char>>::empty());
    }
}

/// A message that cannot be read yet stands in its place: under its id, with its
/// sender and its time.
pub proof fn law_locked_messages_keep_their_place(m: LockedMessage)
    ensures
        locked_view(m).event_id == m.event_id@,
        locked_view(m).sender_id == m.sender@,
        locked_view(m).sender == m.sender_name@,
        locked_view(m).timestamp == m.timestamp,
        locked_view(m).body == locked_text(),
        !locked_view(m).is_system_event && !locked_view(m).is_highlight,
{
}

proof fn lemma_rooms_left<V>(m: Map<Seq<char>, V>, gaps: Seq<String>, n: int, room: Seq<char>)
    requires
        0 <= n <= gaps.len(),
    ensures
        without_rooms(m, gaps, n).contains_key(room) ==> m.contains_key(room) && without_rooms(
            m,
            gaps,
            n,
        )[room] == m[room],
    decreases n,
{
    if n > 0 {
        lemma_rooms_left(m, gaps, n - 1, room);
    }
}

/// Nothing is written to disk but the messages of rooms that were cut short, as they
/// were in memory, and no empty timeline is.
pub proof fn law_only_cut_rooms_are_flushed(
    memory: Map<Seq<char>, RoomTimelineView>,
    gaps: Seq<String>,
    n: int,
    k: int,
)
    requires
        0 <= n <= gaps.len(),
        0 <= k < flushed(memory, gaps, n).len(),
    ensures
        ({
            let f = flushed(memory, gaps, n)[k];
            &&& f.1.len() > 0
            &&& memory.contains_key(f.0)
            &&& f.1 == memory[f.0].messages
            &&& f.2 == memory[f.0].prev_batch_token
            &&& exists|i: int| 0 <= i < n && (#[trigger] gaps[i])@ == f.0
        }),
    decreases n,
{
    if n > 0 {
        let before = flushed(memory, gaps, n - 1);
        let all = flushed(memory, gaps, n);
        lemma_rooms_left(memory, gaps, n - 1, gaps[n - 1]@);
        if k < before.len() {
            assert(all[k] == before[k]);
            law_only_cut_rooms_are_flushed(memory, gaps, n - 1, k);
        } else {
            assert(all[k].0 == gaps[n - 1]@);
        }
    }
}

} // verus!
