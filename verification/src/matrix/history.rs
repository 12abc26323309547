//! From timeline events to the messages of a room.

use vstd::prelude::*;
use crate::json::{json_str_at, json_string, text_of};
use crate::matrix::content::{
    aggregate_reactions, extract_message_content, grouped, membership_line, membership_text,
    shown_body, shown_html, shown_media, Membership, MessageContent,
};
use crate::matrix::event::MatrixEvent;
use crate::matrix::info::{clone_option, messages_of, MessageInfo, MessageView};
use crate::matrix::refresh::{in_time_order, sorted_by_time};
use crate::models::message_object::reactions_view;
use crate::table::Table;
use crate::text::same;

verus! {

/// How a message relates to another one.
#[derive(Debug)]
pub enum Relation {
    /// No relation, or one that is not shown.
    Unrelated,
    Reply { event_id: String },
    Thread { root: String, in_reply_to: Option<String> },
    /// An edit of another message, with its new content.
    Replacement { event_id: String, content: MessageContent },
}

/// One event of a room's timeline.
#[derive(Debug)]
pub enum TimelineItem {
    Reaction { sender: String, target: String, key: String },
    Message {
        event_id: String,
        sender: String,
        timestamp: u64,
        content: MessageContent,
        relation: Relation,
    },
    /// A message that could not be decrypted, with the event as JSON.
    Encrypted { event_id: String, sender: String, raw: String },
    Member {
        event_id: String,
        sender: String,
        target: String,
        timestamp: u64,
        membership: Membership,
        reason: Option<String>,
    },
    /// An event that is not shown: redacted, unreadable, or of another type.
    Other,
}

/// What is shown for a message that could not be decrypted.
pub open spec fn locked_text() -> Seq<char> {
    "\u{1f512} Unable to decrypt message"@
}

/// The message that this event edits, if it is an edit.
pub open spec fn edits(item: TimelineItem) -> Option<Seq<char>> {
    match item {
        TimelineItem::Message { relation: Relation::Replacement { event_id, .. }, .. } => Some(
            event_id@,
        ),
        _ => None,
    }
}

/// The last, in the order of the page, of the first `n` events that edits the message;
/// -1 if none does.
pub open spec fn edit_position(items: Seq<TimelineItem>, id: Seq<char>, n: int) -> int
    decreases n,
{
    if n <= 0 {
        -1
    } else if edits(items[n - 1]) == Some(id) {
        n - 1
    } else {
        edit_position(items, id, n - 1)
    }
}

/// The new content that an edit brings.
pub open spec fn new_content(item: TimelineItem) -> MessageContent
    recommends
        edits(item) is Some,
{
    match item {
        TimelineItem::Message { relation: Relation::Replacement { content, .. }, .. } => content,
        _ => arbitrary(),
    }
}

/// The content that is shown for a message: its own, or that of the edit that stands
/// last in the page. In a page that comes newest first that is the oldest of its edits.
pub open spec fn current_content(
    items: Seq<TimelineItem>,
    id: Seq<char>,
    content: MessageContent,
) -> (Seq<char>, Option<Seq<char>>) {
    let p = edit_position(items, id, items.len() as int);
    if p >= 0 {
        (shown_body(new_content(items[p])), shown_html(new_content(items[p])))
    } else {
        (shown_body(content), shown_html(content))
    }
}

/// Whether the event is an edit that goes by this id.
pub open spec fn is_edit_event(item: TimelineItem, id: Seq<char>) -> bool {
    match item {
        TimelineItem::Message { event_id, relation: Relation::Replacement { .. }, .. } => event_id@
            == id,
        _ => false,
    }
}

/// Whether one of the events is an edit that goes by this id.
pub open spec fn names_an_edit(items: Seq<TimelineItem>, id: Seq<char>) -> bool {
    exists|i: int| 0 <= i < items.len() && is_edit_event(#[trigger] items[i], id)
}

/// The reactions to a message among the events, in their order.
pub open spec fn reactions_to(items: Seq<TimelineItem>, id: Seq<char>) -> Seq<(String, String)>
    decreases items.len(),
{
    if items.len() == 0 {
        Seq::empty()
    } else {
        let rest = reactions_to(items.drop_last(), id);
        match items.last() {
            TimelineItem::Reaction { sender, target, key } => if target@ == id {
                rest.push((key, sender))
            } else {
                rest
            },
            _ => rest,
        }
    }
}

/// The name that is shown for a user: the resolved one, or the user id.
pub open spec fn shown_name(names: &Table<String>, id: Seq<char>) -> Seq<char> {
    match names.lookup(id) {
        Some(n) => n@,
        None => id,
    }
}

/// The message replied to, and the root of the thread.
pub open spec fn links(relation: Relation) -> (Option<Seq<char>>, Option<Seq<char>>) {
    match relation {
        Relation::Reply { event_id } => (Some(event_id@), None),
        Relation::Thread { root, in_reply_to } => (text_of(in_reply_to), Some(root@)),
        _ => (None, None),
    }
}

/// A message that says only what somebody wrote when.
pub open spec fn bare_message(
    sender: Seq<char>,
    sender_id: Seq<char>,
    body: Seq<char>,
    timestamp: u64,
    event_id: Seq<char>,
) -> MessageView {
    MessageView {
        sender,
        sender_id,
        body,
        formatted_body: None,
        timestamp,
        event_id,
        reply_to: None,
        reply_to_sender: None,
        thread_root: None,
        reactions: Seq::empty(),
        media: None,
        is_highlight: false,
        is_system_event: false,
    }
}

/// A membership change as a message.
pub open spec fn system_message(body: Seq<char>, timestamp: u64, event_id: Seq<char>) -> MessageView {
    MessageView {
        is_system_event: true,
        ..bare_message(Seq::empty(), Seq::empty(), body, timestamp, event_id)
    }
}

/// The message that is shown for an event; None where none is.
pub open spec fn item_message(
    items: Seq<TimelineItem>,
    item: TimelineItem,
    names: &Table<String>,
) -> Option<MessageView> {
    match item {
        TimelineItem::Message { event_id, sender, timestamp, content, relation } => if names_an_edit(
            items,
            event_id@,
        ) || relation is Replacement {
            None
        } else {
            let (body, html) = current_content(items, event_id@, content);
            Some(
                MessageView {
                    formatted_body: html,
                    reply_to: links(relation).0,
                    thread_root: links(relation).1,
                    reactions: grouped(reactions_to(items, event_id@)),
                    media: shown_media(content),
                    ..bare_message(shown_name(names, sender@), sender@, body, timestamp, event_id@)
                },
            )
        },
        TimelineItem::Encrypted { event_id, sender, raw } => if names_an_edit(items, event_id@)
            || event_id@.len() == 0 || json_string(raw@, "/content/m.relates_to/rel_type"@)
            == Some("m.replace"@) {
            None
        } else {
            Some(
                bare_message(shown_name(names, sender@), sender@, locked_text(), 0, event_id@),
            )
        },
        TimelineItem::Member { event_id, sender, target, timestamp, membership, reason } => match membership_line(
            membership,
            sender@ != target@,
            shown_name(names, sender@),
            shown_name(names, target@),
            text_of(reason),
        ) {
            Some(body) => Some(system_message(body, timestamp, event_id@)),
            None => None,
        },
        _ => None,
    }
}

/// The messages of the first `n` events in reading order.
pub open spec fn collected(
    items: Seq<TimelineItem>,
    reverse: bool,
    names: &Table<String>,
    n: int,
) -> Seq<MessageView>
    decreases n,
{
    if n <= 0 {
        Seq::empty()
    } else {
        let rest = collected(items, reverse, names, n - 1);
        let item = if reverse {
            items[items.len() - n]
        } else {
            items[n - 1]
        };
        match item_message(items, item, names) {
            Some(m) => rest.push(m),
            None => rest,
        }
    }
}

/// The last of the first `n` messages with the id; -1 if there is none.
pub open spec fn last_with_id(messages: Seq<MessageView>, id: Seq<char>, n: int) -> int
    decreases n,
{
    if n <= 0 {
        -1
    } else if messages[n - 1].event_id == id {
        n - 1
    } else {
        last_with_id(messages, id, n - 1)
    }
}

/// Who wrote the message with the id, if it is among the messages.
pub open spec fn author_of(messages: Seq<MessageView>, id: Seq<char>) -> Option<Seq<char>> {
    let p = last_with_id(messages, id, messages.len() as int);
    if id.len() > 0 && p >= 0 {
        Some(messages[p].sender)
    } else {
        None
    }
}

/// Whether the user wrote a message with the id.
pub open spec fn wrote(messages: Seq<MessageView>, user: Option<Seq<char>>, id: Seq<char>) -> bool {
    user is Some && exists|i: int|
        0 <= i < messages.len() && (#[trigger] messages[i]).sender_id == user->0
            && messages[i].event_id == id
}

/// A message with the author of what it replies to, and marked where it answers
/// the user.
pub open spec fn linked(messages: Seq<MessageView>, user: Option<Seq<char>>, m: MessageView) -> MessageView {
    MessageView {
        reply_to_sender: match m.reply_to {
            Some(id) => match author_of(messages, id) {
                Some(name) => Some(name),
                None => m.reply_to_sender,
            },
            None => m.reply_to_sender,
        },
        is_highlight: m.is_highlight || (m.reply_to is Some && wrote(
            messages,
            user,
            m.reply_to->0,
        )) || (m.thread_root is Some && wrote(messages, user, m.thread_root->0)),
        ..m
    }
}

/// The messages of a batch of timeline events.
pub open spec fn messages_in(
    items: Seq<TimelineItem>,
    reverse: bool,
    user: Option<Seq<char>>,
    names: &Table<String>,
) -> Seq<MessageView> {
    let found = collected(items, reverse, names, items.len() as int);
    found.map_values(|m: MessageView| linked(found, user, m))
}

proof fn lemma_edit_position(items: Seq<TimelineItem>, id: Seq<char>, n: int)
    requires
        0 <= n <= items.len(),
    ensures
        -1 <= edit_position(items, id, n) < n,
        edit_position(items, id, n) >= 0 ==> edits(items[edit_position(items, id, n)]) == Some(id),
    decreases n,
{
    if n > 0 && edits(items[n - 1]) != Some(id) {
        lemma_edit_position(items, id, n - 1);
    }
}

/// The edit of a message that stands last among the events.
fn last_edit<'a>(items: &'a Vec<TimelineItem>, id: &str) -> (r: Option<&'a MessageContent>)
    ensures
        ({
            let p = edit_position(items@, id@, items@.len() as int);
            r == (if p >= 0 {
                Some(&new_content(items@[p]))
            } else {
                None
            })
        }),
{
    let mut n: usize = items.len();
    while n > 0
        invariant
            n <= items@.len(),
            edit_position(items@, id@, items@.len() as int) == edit_position(
                items@,
                id@,
                n as int,
            ),
        decreases n,
    {
        if let TimelineItem::Message { relation: Relation::Replacement { event_id, content }, .. } = &items[n
            - 1] {
            if same(event_id, id) {
                return Some(content);
            }
        }
        n = n - 1;
    }
    None
}

fn has_edit_named(items: &Vec<TimelineItem>, id: &str) -> (r: bool)
    ensures
        r == names_an_edit(items@, id@),
{
    let mut i: usize = 0;
    while i < items.len()
        invariant
            i <= items@.len(),
            forall|j: int| 0 <= j < i ==> !is_edit_event(#[trigger] items@[j], id@),
        decreases items@.len() - i,
    {
        if let TimelineItem::Message { event_id, relation: Relation::Replacement { .. }, .. } = &items[i] {
            if same(event_id, id) {
                assert(is_edit_event(items@[i as int], id@));
                return true;
            }
        }
        i = i + 1;
    }
    false
}

fn reactions_for(items: &Vec<TimelineItem>, id: &str) -> (r: Vec<(String, String)>)
    ensures
        r@ == reactions_to(items@, id@),
{
    let mut out: Vec<(String, String)> = Vec::new();
    let mut i: usize = 0;
    assert(items@.take(0) =~= Seq::<TimelineItem>::empty());
    while i < items.len()
        invariant
            i <= items@.len(),
            out@ == reactions_to(items@.take(i as int), id@),
        decreases items@.len() - i,
    {
        assert(items@.take(i + 1).drop_last() =~= items@.take(i as int));
        if let TimelineItem::Reaction { sender, target, key } = &items[i] {
            if same(target, id) {
                out.push((key.clone(), sender.clone()));
            }
        }
        i = i + 1;
    }
    assert(items@.take(i as int) =~= items@);
    out
}

fn name_for(names: &Table<String>, id: &str) -> (r: String)
    ensures
        r@ == shown_name(names, id@),
{
    match names.get(id) {
        Some(n) => n.clone(),
        None => id.to_owned(),
    }
}

/// A message without links, reactions or attachment.
pub fn plain_message(
    sender: String,
    sender_id: String,
    body: String,
    timestamp: u64,
    event_id: String,
) -> (r: MessageInfo)
    ensures
        r@ == bare_message(sender@, sender_id@, body@, timestamp, event_id@),
{
    let r = MessageInfo {
        sender,
        sender_id,
        body,
        formatted_body: None,
        timestamp,
        event_id,
        reply_to: None,
        reply_to_sender: None,
        thread_root: None,
        reactions: Vec::new(),
        media: None,
        is_highlight: false,
        is_system_event: false,
    };
    assert(reactions_view(r.reactions@) =~= Seq::empty());
    r
}

/// What a message shows when it could not be decrypted.
pub fn locked_body() -> (r: String)
    ensures
        r@ == locked_text(),
{
    "\u{1f512} Unable to decrypt message".to_owned()
}

/// The message replied to, and the root of the thread.
pub fn links_of(relation: &Relation) -> (r: (Option<String>, Option<String>))
    ensures
        text_of(r.0) == links(*relation).0,
        text_of(r.1) == links(*relation).1,
{
    match relation {
        Relation::Reply { event_id } => (Some(event_id.clone()), None),
        Relation::Thread { root, in_reply_to } => (clone_option(in_reply_to), Some(root.clone())),
        _ => (None, None),
    }
}

fn message_for(items: &Vec<TimelineItem>, item: &TimelineItem, names: &Table<String>) -> (r: Option<
    MessageInfo,
>)
    ensures
        (match r {
            Some(m) => Some(m@),
            None => None,
        }) == item_message(items@, *item, names),
{
    match item {
        TimelineItem::Message { event_id, sender, timestamp, content, relation } => {
            if has_edit_named(items, event_id) {
                return None;
            }
            if let Relation::Replacement { .. } = relation {
                return None;
            }
            let Some((own_body, own_html, media)) = extract_message_content(content) else {
                return None;
            };
            proof {
                lemma_edit_position(items@, event_id@, items@.len() as int);
            }
            let (body, html) = match last_edit(items, event_id) {
                Some(edit) => match extract_message_content(edit) {
                    Some((b, h, _)) => (b, h),
                    None => (own_body, own_html),
                },
                None => (own_body, own_html),
            };
            let (reply_to, thread_root) = links_of(relation);
            let pairs = reactions_for(items, event_id);
            let reactions = aggregate_reactions(Some(&pairs));
            Some(
                MessageInfo {
                    sender: name_for(names, sender),
                    sender_id: sender.clone(),
                    body,
                    formatted_body: html,
                    timestamp: *timestamp,
                    event_id: event_id.clone(),
                    reply_to,
                    reply_to_sender: None,
                    thread_root,
                    reactions,
                    media,
                    is_highlight: false,
                    is_system_event: false,
                },
            )
        },
        TimelineItem::Encrypted { event_id, sender, raw } => {
            if has_edit_named(items, event_id) || same(event_id, "") {
                proof {
                    reveal_strlit("");
                    assert(event_id@.len() == 0 ==> event_id@ =~= ""@);
                }
                return None;
            }
            proof {
                reveal_strlit("");
                assert(event_id@.len() == 0 ==> event_id@ =~= ""@);
            }
            if let Some(kind) = json_str_at(raw, "/content/m.relates_to/rel_type") {
                if same(&kind, "m.replace") {
                    return None;
                }
            }
            Some(
                plain_message(
                    name_for(names, sender),
                    sender.clone(),
                    locked_body(),
                    0,
                    event_id.clone(),
                ),
            )
        },
        TimelineItem::Member { event_id, sender, target, timestamp, membership, reason } => {
            let sender_name = name_for(names, sender);
            let target_name = name_for(names, target);
            let why: Option<&str> = match reason {
                Some(t) => Some(t.as_str()),
                None => None,
            };
            match membership_text(*membership, !same(sender, target), &sender_name, &target_name, why) {
                Some(body) => Some(member_message(body, *timestamp, event_id.clone())),
                None => None,
            }
        },
        _ => None,
    }
}

/// A membership change as a message.
pub fn member_message(body: String, timestamp: u64, event_id: String) -> (r: MessageInfo)
    ensures
        r@ == system_message(body@, timestamp, event_id@),
{
    let mut m = plain_message(String::new(), String::new(), body, timestamp, event_id);
    m.is_system_event = true;
    m
}

fn author_name(messages: &Vec<MessageInfo>, id: &str) -> (r: Option<String>)
    ensures
        text_of(r) == author_of(messages_of(messages@), id@),
{
    let ghost views = messages_of(messages@);
    proof {
        reveal_strlit("");
        assert(id@.len() == 0 ==> id@ =~= ""@);
    }
    if same(id, "") {
        return None;
    }
    let mut n: usize = messages.len();
    while n > 0
        invariant
            n <= messages@.len(),
            views == messages_of(messages@),
            id@.len() > 0,
            last_with_id(views, id@, views.len() as int) == last_with_id(views, id@, n as int),
        decreases n,
    {
        assert(views[n - 1] == messages@[n - 1]@);
        if same(&messages[n - 1].event_id, id) {
            return Some(messages[n - 1].sender.clone());
        }
        n = n - 1;
    }
    None
}

fn user_wrote(messages: &Vec<MessageInfo>, user: Option<&str>, id: &str) -> (r: bool)
    ensures
        r == wrote(
            messages_of(messages@),
            (match user {
                Some(u) => Some(u@),
                None => None,
            }),
            id@,
        ),
{
    let Some(me) = user else {
        return false;
    };
    let ghost views = messages_of(messages@);
    let mut i: usize = 0;
    while i < messages.len()
        invariant
            i <= messages@.len(),
            views == messages_of(messages@),
            user == Some(me),
            forall|j: int|
                0 <= j < i ==> !((#[trigger] views[j]).sender_id == me@ && views[j].event_id
                    == id@),
        decreases messages@.len() - i,
    {
        assert(views[i as int] == messages@[i as int]@);
        if same(&messages[i].sender_id, me) && same(&messages[i].event_id, id) {
            return true;
        }
        i = i + 1;
    }
    false
}

/// Fills in whom each message replies to, and marks the messages that answer one
/// of the user's.
fn link_messages(messages: &mut Vec<MessageInfo>, user: Option<&str>)
    ensures
        ({
            let found = messages_of(old(messages)@);
            let me = match user {
                Some(u) => Some(u@),
                None => None,
            };
            messages_of(final(messages)@) == found.map_values(
                |m: MessageView| linked(found, me, m),
            )
        }),
{
    let ghost found = messages_of(messages@);
    let ghost me = match user {
        Some(u) => Some(u@),
        None => None,
    };
    let mut names: Vec<Option<String>> = Vec::new();
    let mut marks: Vec<bool> = Vec::new();
    let mut i: usize = 0;
    while i < messages.len()
        invariant
            i <= messages@.len(),
            names@.len() == i,
            marks@.len() == i,
            found == messages_of(messages@),
            me == (match user {
                Some(u) => Some(u@),
                None => None,
            }),
            forall|j: int|
                0 <= j < i ==> text_of(#[trigger] names@[j]) == linked(
                    found,
                    me,
                    found[j],
                ).reply_to_sender,
            forall|j: int|
                0 <= j < i ==> (#[trigger] marks@[j]) == linked(found, me, found[j]).is_highlight,
        decreases messages@.len() - i,
    {
        let m: &MessageInfo = &messages[i];
        assert(found[i as int] == messages@[i as int]@);
        let mut name: Option<String> = clone_option(&m.reply_to_sender);
        let mut mark: bool = m.is_highlight;
        if let Some(id) = &m.reply_to {
            if let Some(author) = author_name(&*messages, id) {
                name = Some(author);
            }
            if user_wrote(&*messages, user, id) {
                mark = true;
            }
        }
        if let Some(root) = &m.thread_root {
            if user_wrote(&*messages, user, root) {
                mark = true;
            }
        }
        names.push(name);
        marks.push(mark);
        i = i + 1;
    }
    let ghost count = messages@.len();
    let mut k: usize = messages.len();
    while k > 0
        invariant
            k <= count,
            messages@.len() == count,
            found.len() == count,
            names@.len() == k,
            marks@.len() == count,
            forall|j: int| 0 <= j < k ==> (#[trigger] messages@[j])@ == found[j],
            forall|j: int|
                k <= j < count ==> (#[trigger] messages@[j])@ == linked(found, me, found[j]),
            forall|j: int|
                0 <= j < k ==> text_of(#[trigger] names@[j]) == linked(
                    found,
                    me,
                    found[j],
                ).reply_to_sender,
            forall|j: int|
                0 <= j < k ==> (#[trigger] marks@[j]) == linked(found, me, found[j]).is_highlight,
        decreases k,
    {
        k = k - 1;
        let name = match names.pop() {
            Some(n) => n,
            None => None,
        };
        let mark: bool = marks[k];
        let m: &mut MessageInfo = &mut messages[k];
        m.reply_to_sender = name;
        m.is_highlight = mark;
    }
    assert(messages_of(messages@) =~= found.map_values(|m: MessageView| linked(found, me, m)));
}

/// The messages of a batch of timeline events.
///
/// Edits replace the text of what they edit and are not shown themselves,
/// reactions are attached to their messages, and membership changes become
/// lines of their own. `names` holds the display names that could be resolved.
pub fn extract_messages(
    items: &Vec<TimelineItem>,
    reverse: bool,
    my_user_id: Option<&str>,
    names: &Table<String>,
) -> (r: Vec<MessageInfo>)
    ensures
        messages_of(r@) == messages_in(
            items@,
            reverse,
            (match my_user_id {
                Some(u) => Some(u@),
                None => None,
            }),
            names,
        ),
{
    let mut out: Vec<MessageInfo> = Vec::new();
    let mut n: usize = 0;
    assert(messages_of(out@) =~= Seq::<MessageView>::empty());
    while n < items.len()
        invariant
            n <= items@.len(),
            messages_of(out@) == collected(items@, reverse, names, n as int),
        decreases items@.len() - n,
    {
        let i: usize = if reverse {
            items.len() - (n + 1)
        } else {
            n
        };
        let ghost before = messages_of(out@);
        if let Some(m) = message_for(items, &items[i], names) {
            out.push(m);
            assert(messages_of(out@) =~= before.push(m@));
        }
        n = n + 1;
    }
    link_messages(&mut out, my_user_id);
    out
}

/// The entries of pinned messages: who wrote them, their text, and their HTML.
pub open spec fn pinned_view(items: Seq<TimelineItem>, names: &Table<String>, n: int) -> Seq<
    (Seq<char>, Seq<char>, Option<Seq<char>>),
>
    decreases n,
{
    if n <= 0 {
        Seq::empty()
    } else {
        let rest = pinned_view(items, names, n - 1);
        match items[n - 1] {
            TimelineItem::Message { sender, content, .. } => rest.push(
                (shown_name(names, sender@), shown_body(content), shown_html(content)),
            ),
            _ => rest,
        }
    }
}

/// The entries of pinned messages, from the events that could be fetched.
pub fn pinned_entries(items: &Vec<TimelineItem>, names: &Table<String>) -> (r: Vec<
    (String, String, Option<String>),
>)
    ensures
        r@.map_values(|e: (String, String, Option<String>)| (e.0@, e.1@, text_of(e.2)))
            == pinned_view(items@, names, items@.len() as int),
{
    let mut out: Vec<(String, String, Option<String>)> = Vec::new();
    let mut i: usize = 0;
    assert(out@.map_values(|e: (String, String, Option<String>)| (e.0@, e.1@, text_of(e.2)))
        =~= Seq::empty());
    while i < items.len()
        invariant
            i <= items@.len(),
            out@.map_values(|e: (String, String, Option<String>)| (e.0@, e.1@, text_of(e.2)))
                == pinned_view(items@, names, i as int),
        decreases items@.len() - i,
    {
        let ghost before = out@.map_values(
            |e: (String, String, Option<String>)| (e.0@, e.1@, text_of(e.2)),
        );
        if let TimelineItem::Message { sender, content, .. } = &items[i] {
            if let Some((body, html, _)) = extract_message_content(content) {
                let name = name_for(names, sender);
                let ghost entry = (name@, body@, text_of(html));
                out.push((name, body, html));
                assert(out@.map_values(
                    |e: (String, String, Option<String>)| (e.0@, e.1@, text_of(e.2)),
                ) =~= before.push(entry));
            }
        }
        i = i + 1;
    }
    out
}

/// The replies among the first `n` events of a thread.
pub open spec fn reply_views(
    items: Seq<TimelineItem>,
    root: Seq<char>,
    names: &Table<String>,
    n: int,
) -> Seq<MessageView>
    decreases n,
{
    if n <= 0 {
        Seq::empty()
    } else {
        let rest = reply_views(items, root, names, n - 1);
        match items[n - 1] {
            TimelineItem::Message { event_id, sender, timestamp, content, .. } => rest.push(
                MessageView {
                    formatted_body: shown_html(content),
                    thread_root: Some(root),
                    media: shown_media(content),
                    ..bare_message(
                        shown_name(names, sender@),
                        sender@,
                        shown_body(content),
                        timestamp,
                        event_id@,
                    )
                },
            ),
            _ => rest,
        }
    }
}

/// The replies of a thread, oldest first.
pub fn thread_replies(items: &Vec<TimelineItem>, root: &str, names: &Table<String>) -> (r: Vec<
    MessageInfo,
>)
    ensures
        sorted_by_time(
            reply_views(items@, root@, names, items@.len() as int),
            messages_of(r@),
        ),
{
    let mut out: Vec<MessageInfo> = Vec::new();
    let mut i: usize = 0;
    assert(messages_of(out@) =~= Seq::<MessageView>::empty());
    while i < items.len()
        invariant
            i <= items@.len(),
            messages_of(out@) == reply_views(items@, root@, names, i as int),
        decreases items@.len() - i,
    {
        let ghost before = messages_of(out@);
        if let TimelineItem::Message { event_id, sender, timestamp, content, .. } = &items[i] {
            if let Some((body, html, media)) = extract_message_content(content) {
                let mut m = plain_message(
                    name_for(names, sender),
                    sender.clone(),
                    body,
                    *timestamp,
                    event_id.clone(),
                );
                m.formatted_body = html;
                m.thread_root = Some(root.to_owned());
                m.media = media;
                out.push(m);
                assert(messages_of(out@) =~= before.push(m@));
            }
        }
        i = i + 1;
    }
    in_time_order(&out)
}

/// Events around one event in the order of time: those before it come newest
/// first.
pub fn in_context<T>(before: Vec<T>, event: Option<T>, after: Vec<T>) -> (r: Vec<T>)
    ensures
        r@ == before@.reverse() + (match event {
            Some(e) => seq![e],
            None => Seq::empty(),
        }) + after@,
{
    let ghost earlier = before@;
    let ghost later = after@;
    let mut rest = before;
    let mut tail = after;
    let mut out: Vec<T> = Vec::new();
    while rest.len() > 0
        invariant
            rest@ == earlier.take(rest@.len() as int),
            rest@.len() <= earlier.len(),
            out@ == earlier.skip(rest@.len() as int).reverse(),
        decreases rest@.len(),
    {
        let ghost n = rest@.len() as int;
        match rest.pop() {
            Some(x) => {
                out.push(x);
            },
            None => {},
        }
        proof {
            assert(rest@ =~= earlier.take(n - 1));
            assert(out@ =~= earlier.skip(n - 1).reverse());
        }
    }
    assert(earlier.skip(0) =~= earlier);
    if let Some(e) = event {
        out.push(e);
    }
    out.append(&mut tail);
    assert(out@ =~= earlier.reverse() + (match event {
        Some(e) => seq![e],
        None => Seq::empty(),
    }) + later);
    out
}

/// How many events one page of older messages holds.
pub const OLDER_LIMIT: u32 = 50;

/// How many events are fetched around an event.
pub const SEEK_LIMIT: u32 = 40;

/// How many replies of a thread are fetched.
pub const THREAD_LIMIT: u32 = 50;

/// The user as text.
pub open spec fn user_text(me: Option<&str>) -> Option<Seq<char>> {
    match me {
        Some(u) => Some(u@),
        None => None,
    }
}

/// What is shown of a page of older events, which come newest first. None for a
/// page that could not be fetched.
pub fn older_messages(
    room_id: &str,
    page: Option<(Vec<TimelineItem>, Option<String>)>,
    me: Option<&str>,
    names: &Table<String>,
) -> (r: MatrixEvent)
    ensures
        match r {
            MatrixEvent::OlderMessages { room_id: id, messages, prev_batch_token } => {
                &&& id@ == room_id@
                &&& match page {
                    Some((items, token)) => messages_of(messages@) == messages_in(
                        items@,
                        true,
                        user_text(me),
                        names,
                    ) && prev_batch_token == token,
                    None => messages@.len() == 0 && prev_batch_token is None,
                }
            },
            _ => false,
        },
{
    match page {
        Some((items, token)) => MatrixEvent::OlderMessages {
            room_id: room_id.to_owned(),
            messages: extract_messages(&items, true, me, names),
            prev_batch_token: token,
        },
        None => MatrixEvent::OlderMessages {
            room_id: room_id.to_owned(),
            messages: Vec::new(),
            prev_batch_token: None,
        },
    }
}

/// What is shown of an event and the events around it. Those before it come newest
/// first.
pub fn seek_result(
    room_id: &str,
    event_id: &str,
    before: Vec<TimelineItem>,
    event: Option<TimelineItem>,
    after: Vec<TimelineItem>,
    before_token: Option<String>,
    me: Option<&str>,
    names: &Table<String>,
) -> (r: MatrixEvent)
    ensures
        match r {
            MatrixEvent::SeekResult { room_id: id, target_event_id, messages, before_token: token } => {
                &&& id@ == room_id@
                &&& target_event_id@ == event_id@
                &&& messages_of(messages@) == messages_in(
                    before@.reverse() + (match event {
                        Some(e) => seq![e],
                        None => Seq::empty(),
                    }) + after@,
                    false,
                    user_text(me),
                    names,
                )
                &&& token == before_token
            },
            _ => false,
        },
{
    let items = in_context(before, event, after);
    MatrixEvent::SeekResult {
        room_id: room_id.to_owned(),
        target_event_id: event_id.to_owned(),
        messages: extract_messages(&items, false, me, names),
        before_token,
    }
}

/// What is shown of a thread: the message it started from, where that could be
/// fetched, and the replies.
pub fn thread_event(
    room_id: &str,
    root_id: &str,
    root: Option<TimelineItem>,
    replies: &Vec<TimelineItem>,
    me: Option<&str>,
    names: &Table<String>,
) -> (r: MatrixEvent)
    ensures
        match r {
            MatrixEvent::ThreadReplies { room_id: id, thread_root_id, root_message, replies: shown } => {
                let found = match root {
                    Some(e) => messages_in(seq![e], false, user_text(me), names),
                    None => Seq::empty(),
                };
                &&& id@ == room_id@
                &&& thread_root_id@ == root_id@
                &&& match root_message {
                    Some(m) => found.len() > 0 && m@ == found.last(),
                    None => found.len() == 0,
                }
                &&& sorted_by_time(
                    reply_views(replies@, root_id@, names, replies@.len() as int),
                    messages_of(shown@),
                )
            },
            _ => false,
        },
{
    let root_message: Option<MessageInfo> = match root {
        Some(e) => {
            let mut items: Vec<TimelineItem> = Vec::new();
            items.push(e);
            assert(items@ =~= seq![e]);
            let mut found = extract_messages(&items, false, me, names);
            let ghost all = messages_of(found@);
            let last = found.pop();
            assert(last matches Some(m) ==> all.last() == m@);
            last
        },
        None => None,
    };
    MatrixEvent::ThreadReplies {
        room_id: room_id.to_owned(),
        thread_root_id: root_id.to_owned(),
        root_message,
        replies: thread_replies(replies, root_id, names),
    }
}


/// Whether every message that is no membership line goes by an id that no edit
/// has.
pub open spec fn hides_edits(items: Seq<TimelineItem>, messages: Seq<MessageView>) -> bool {
    forall|i: int|
        0 <= i < messages.len() ==> (#[trigger] messages[i]).is_system_event || !names_an_edit(
            items,
            messages[i].event_id,
        )
}

/// Edits are never shown as messages of their own.
pub proof fn law_edits_are_hidden(
    items: Seq<TimelineItem>,
    reverse: bool,
    user: Option<Seq<char>>,
    names: &Table<String>,
)
    ensures
        hides_edits(items, messages_in(items, reverse, user, names)),
{
    lemma_collected_hides_edits(items, reverse, names, items.len() as int);
    let found = collected(items, reverse, names, items.len() as int);
    assert forall|i: int| 0 <= i < found.len() implies (#[trigger] messages_in(
        items,
        reverse,
        user,
        names,
    )[i]).is_system_event || !names_an_edit(
        items,
        messages_in(items, reverse, user, names)[i].event_id,
    ) by {
        assert(found[i].is_system_event || !names_an_edit(items, found[i].event_id));
    }
}

proof fn lemma_collected_hides_edits(
    items: Seq<TimelineItem>,
    reverse: bool,
    names: &Table<String>,
    n: int,
)
    requires
        0 <= n <= items.len(),
    ensures
        hides_edits(items, collected(items, reverse, names, n)),
    decreases n,
{
    if n > 0 {
        lemma_collected_hides_edits(items, reverse, names, n - 1);
    }
}

/// How many events are read before the `i`-th one.
spec fn turn(items: Seq<TimelineItem>, reverse: bool, i: int) -> int {
    if reverse {
        items.len() - 1 - i
    } else {
        i
    }
}

/// Where the message of the `i`-th event stands.
spec fn place(items: Seq<TimelineItem>, reverse: bool, names: &Table<String>, i: int) -> int {
    collected(items, reverse, names, turn(items, reverse, i)).len() as int
}

proof fn lemma_place(items: Seq<TimelineItem>, reverse: bool, names: &Table<String>, i: int, n: int)
    requires
        0 <= i < items.len(),
        turn(items, reverse, i) < n <= items.len(),
        item_message(items, items[i], names) is Some,
    ensures
        ({
            let p = place(items, reverse, names, i);
            &&& 0 <= p < collected(items, reverse, names, n).len()
            &&& collected(items, reverse, names, n)[p] == item_message(items, items[i], names)->0
        }),
    decreases n,
{
    if turn(items, reverse, i) < n - 1 {
        lemma_place(items, reverse, names, i, n - 1);
    }
}

/// The message of an event stands in its place, linked to the others.
proof fn lemma_shown(
    items: Seq<TimelineItem>,
    reverse: bool,
    user: Option<Seq<char>>,
    names: &Table<String>,
    i: int,
)
    requires
        0 <= i < items.len(),
        item_message(items, items[i], names) is Some,
    ensures
        ({
            let out = messages_in(items, reverse, user, names);
            let m = item_message(items, items[i], names)->0;
            let p = place(items, reverse, names, i);
            &&& 0 <= p < out.len()
            &&& out[p] == (MessageView {
                reply_to_sender: out[p].reply_to_sender,
                is_highlight: out[p].is_highlight,
                ..m
            })
        }),
{
    lemma_place(items, reverse, names, i, items.len() as int);
}

/// Whether the event is a message that is shown in its own right: no edit, and none
/// of the edits goes by its id.
pub open spec fn own_message(items: Seq<TimelineItem>, i: int) -> bool {
    &&& items[i] is Message
    &&& !(items[i]->relation is Replacement)
    &&& forall|j: int|
        0 <= j < items.len() && (#[trigger] items[j]) is Message && items[j]->relation is Replacement
            ==> items[j]->Message_event_id@ != items[i]->Message_event_id@
}

proof fn lemma_own_message(items: Seq<TimelineItem>, i: int, names: &Table<String>)
    requires
        0 <= i < items.len(),
        own_message(items, i),
    ensures
        !names_an_edit(items, items[i]->Message_event_id@),
        item_message(items, items[i], names) is Some,
{
    if names_an_edit(items, items[i]->Message_event_id@) {
        let j = choose|j: int|
            0 <= j < items.len() && is_edit_event(
                #[trigger] items[j],
                items[i]->Message_event_id@,
            );
        assert(items[j] is Message && items[j]->relation is Replacement);
    }
}

/// Every message of a page is shown, by whom and when it was written, and with the
/// message that it replies to and the thread that it belongs to.
pub proof fn law_messages_are_shown(
    items: Seq<TimelineItem>,
    reverse: bool,
    user: Option<Seq<char>>,
    names: &Table<String>,
    i: int,
)
    requires
        0 <= i < items.len(),
        own_message(items, i),
    ensures
        ({
            let out = messages_in(items, reverse, user, names);
            exists|k: int| {
                &&& 0 <= k < out.len()
                &&& (#[trigger] out[k]).event_id == items[i]->Message_event_id@
                &&& out[k].sender_id == items[i]->Message_sender@
                &&& names.lookup(items[i]->Message_sender@) matches Some(n) ==> out[k].sender == n@
                &&& names.lookup(items[i]->Message_sender@) is None ==> out[k].sender
                    == items[i]->Message_sender@
                &&& out[k].timestamp == items[i]->Message_timestamp
                &&& !out[k].is_system_event
                &&& items[i]->relation matches Relation::Reply { event_id } ==> out[k].reply_to == Some(
                    event_id@,
                ) && out[k].thread_root is None
                &&& items[i]->relation matches Relation::Thread { root, in_reply_to }
                    ==> out[k].thread_root == Some(root@) && (match in_reply_to {
                    Some(id) => out[k].reply_to == Some(id@),
                    None => out[k].reply_to is None,
                })
                &&& items[i]->relation is Unrelated ==> out[k].reply_to is None && out[k].thread_root is None
            }
        }),
{
    lemma_own_message(items, i, names);
    lemma_shown(items, reverse, user, names, i);
    let out = messages_in(items, reverse, user, names);
    let k = place(items, reverse, names, i);
    assert(out[k].event_id == items[i]->Message_event_id@);
}

/// A picture, film, sound or file of a page is shown with its attachment: where it is,
/// how large it is, its source and its name.
pub proof fn law_attachments_are_shown(
    items: Seq<TimelineItem>,
    reverse: bool,
    user: Option<Seq<char>>,
    names: &Table<String>,
    i: int,
)
    requires
        0 <= i < items.len(),
        own_message(items, i),
    ensures
        ({
            let out = messages_in(items, reverse, user, names);
            let c = items[i]->Message_content;
            exists|k: int| {
                &&& 0 <= k < out.len()
                &&& (#[trigger] out[k]).event_id == items[i]->Message_event_id@
                &&& c.kind == crate::matrix::content::MessageKind::Image ==> (
                out[k].media matches Some(m) && m.kind == crate::matrix::info::MediaKind::Image)
                &&& c.kind == crate::matrix::content::MessageKind::Video ==> (
                out[k].media matches Some(m) && m.kind == crate::matrix::info::MediaKind::Video)
                &&& c.kind == crate::matrix::content::MessageKind::Audio ==> (
                out[k].media matches Some(m) && m.kind == crate::matrix::info::MediaKind::Audio
                    && m.filename == c.body@)
                &&& c.kind == crate::matrix::content::MessageKind::File ==> (
                out[k].media matches Some(m) && m.kind == crate::matrix::info::MediaKind::File)
                &&& out[k].media matches Some(m) ==> {
                    &&& m.url == c.url@
                    &&& m.size == c.size
                    &&& m.source_json == c.source_json@
                    &&& c.kind != crate::matrix::content::MessageKind::Audio ==> (match c.filename {
                        Some(f) => m.filename == f@,
                        None => m.filename == c.body@,
                    })
                }
                &&& c.kind == crate::matrix::content::MessageKind::Text || c.kind
                    == crate::matrix::content::MessageKind::Notice || c.kind
                    == crate::matrix::content::MessageKind::Emote ==> out[k].media is None
            }
        }),
{
    lemma_own_message(items, i, names);
    lemma_shown(items, reverse, user, names, i);
    let out = messages_in(items, reverse, user, names);
    let k = place(items, reverse, names, i);
    assert(out[k].event_id == items[i]->Message_event_id@);
}

/// A text of a page that nobody edited is shown as it was written.
pub proof fn law_texts_are_shown(
    items: Seq<TimelineItem>,
    reverse: bool,
    user: Option<Seq<char>>,
    names: &Table<String>,
    i: int,
)
    requires
        0 <= i < items.len(),
        own_message(items, i),
        forall|j: int|
            0 <= j < items.len() && (#[trigger] items[j]) is Message && items[j]->relation is Replacement
                ==> items[j]->relation->Replacement_event_id@ != items[i]->Message_event_id@,
    ensures
        ({
            let out = messages_in(items, reverse, user, names);
            let c = items[i]->Message_content;
            exists|k: int| {
                &&& 0 <= k < out.len()
                &&& (#[trigger] out[k]).event_id == items[i]->Message_event_id@
                &&& c.kind == crate::matrix::content::MessageKind::Text || c.kind
                    == crate::matrix::content::MessageKind::Notice ==> out[k].body == c.body@ && (
                match c.formatted {
                    Some(f) => out[k].formatted_body == (if f.is_html {
                        Some(f.body@)
                    } else {
                        None
                    }),
                    None => out[k].formatted_body is None,
                })
                &&& c.kind == crate::matrix::content::MessageKind::Emote ==> out[k].body == "* "@ + c.body@
            }
        }),
{
    lemma_own_message(items, i, names);
    lemma_shown(items, reverse, user, names, i);
    let out = messages_in(items, reverse, user, names);
    let k = place(items, reverse, names, i);
    let id = items[i]->Message_event_id@;
    lemma_edit_position(items, id, items.len() as int);
    let p = edit_position(items, id, items.len() as int);
    if p >= 0 {
        assert(edits(items[p]) == Some(id));
        assert(items[p] is Message);
    }
    assert(out[k].event_id == id);
}

proof fn lemma_edit_position_is(items: Seq<TimelineItem>, id: Seq<char>, n: int, p: int)
    requires
        0 <= p < n <= items.len(),
        edits(items[p]) == Some(id),
        forall|j: int| p < j < n ==> edits(#[trigger] items[j]) != Some(id),
    ensures
        edit_position(items, id, n) == p,
    decreases n,
{
    if p < n - 1 {
        lemma_edit_position_is(items, id, n - 1, p);
    }
}

/// An edited message is shown with the text of the edit that stands last in the page,
/// at its own place and by its own id.
pub proof fn law_edits_replace_the_text(
    items: Seq<TimelineItem>,
    reverse: bool,
    user: Option<Seq<char>>,
    names: &Table<String>,
    i: int,
    e: int,
)
    requires
        0 <= i < items.len(),
        0 <= e < items.len(),
        own_message(items, i),
        items[e] is Message,
        items[e]->relation matches Relation::Replacement { event_id, content } && event_id@
            == items[i]->Message_event_id@ && content.kind
            == crate::matrix::content::MessageKind::Text,
        forall|j: int|
            e < j < items.len() && (#[trigger] items[j]) is Message && items[j]->relation is Replacement
                ==> items[j]->relation->Replacement_event_id@ != items[i]->Message_event_id@,
    ensures
        ({
            let out = messages_in(items, reverse, user, names);
            let c = items[e]->relation->content;
            exists|k: int| {
                &&& 0 <= k < out.len()
                &&& (#[trigger] out[k]).event_id == items[i]->Message_event_id@
                &&& out[k].timestamp == items[i]->Message_timestamp
                &&& out[k].body == c.body@
                &&& match c.formatted {
                    Some(f) => out[k].formatted_body == (if f.is_html {
                        Some(f.body@)
                    } else {
                        None
                    }),
                    None => out[k].formatted_body is None,
                }
            }
        }),
{
    lemma_own_message(items, i, names);
    lemma_shown(items, reverse, user, names, i);
    let out = messages_in(items, reverse, user, names);
    let k = place(items, reverse, names, i);
    let id = items[i]->Message_event_id@;
    assert forall|j: int| e < j < items.len() implies edits(#[trigger] items[j]) != Some(id) by {
        assert(items[j] is Message && items[j]->relation is Replacement
            ==> items[j]->relation->Replacement_event_id@ != id);
    }
    lemma_edit_position_is(items, id, items.len() as int, e);
    assert(out[k].event_id == id);
}

/// The messages of a page keep their order, or come the other way round.
pub proof fn law_history_keeps_order(
    items: Seq<TimelineItem>,
    user: Option<Seq<char>>,
    names: &Table<String>,
    i: int,
    j: int,
)
    requires
        0 <= i < j < items.len(),
        own_message(items, i),
        own_message(items, j),
    ensures
        ({
            let out = messages_in(items, false, user, names);
            exists|p: int, q: int| {
                &&& 0 <= p < q < out.len()
                &&& (#[trigger] out[p]).event_id == items[i]->Message_event_id@
                &&& (#[trigger] out[q]).event_id == items[j]->Message_event_id@
            }
        }),
        ({
            let out = messages_in(items, true, user, names);
            exists|p: int, q: int| {
                &&& 0 <= p < q < out.len()
                &&& (#[trigger] out[p]).event_id == items[j]->Message_event_id@
                &&& (#[trigger] out[q]).event_id == items[i]->Message_event_id@
            }
        }),
{
    lemma_own_message(items, i, names);
    lemma_own_message(items, j, names);
    lemma_shown(items, false, user, names, i);
    lemma_shown(items, false, user, names, j);
    lemma_shown(items, true, user, names, i);
    lemma_shown(items, true, user, names, j);
    lemma_place(items, false, names, i, turn(items, false, j));
    lemma_place(items, true, names, j, turn(items, true, i));
    let a = messages_in(items, false, user, names);
    let b = messages_in(items, true, user, names);
    assert(a[place(items, false, names, i)].event_id == items[i]->Message_event_id@);
    assert(a[place(items, false, names, j)].event_id == items[j]->Message_event_id@);
    assert(b[place(items, true, names, i)].event_id == items[i]->Message_event_id@);
    assert(b[place(items, true, names, j)].event_id == items[j]->Message_event_id@);
}

/// A message that could not be decrypted is shown as locked, and a membership change
/// as a line of its own.
pub proof fn law_other_events_are_told(
    items: Seq<TimelineItem>,
    reverse: bool,
    user: Option<Seq<char>>,
    names: &Table<String>,
    i: int,
)
    requires
        0 <= i < items.len(),
        items[i] matches TimelineItem::Encrypted { event_id, raw, .. } ==> event_id@.len() > 0
            && !names_an_edit(items, event_id@) && json_string(
            raw@,
            "/content/m.relates_to/rel_type"@,
        ) != Some("m.replace"@),
    ensures
        items[i] matches TimelineItem::Encrypted { event_id, sender, .. } ==> ({
            let out = messages_in(items, reverse, user, names);
            exists|k: int| {
                &&& 0 <= k < out.len()
                &&& (#[trigger] out[k]).event_id == event_id@
                &&& out[k].sender_id == sender@
                &&& out[k].body == "\u{1f512} Unable to decrypt message"@
            }
        }),
        items[i] matches TimelineItem::Member { event_id, timestamp, membership, .. } ==> (
        membership != Membership::Other ==> ({
            let out = messages_in(items, reverse, user, names);
            exists|k: int| {
                &&& 0 <= k < out.len()
                &&& (#[trigger] out[k]).event_id == event_id@
                &&& out[k].timestamp == timestamp
                &&& out[k].is_system_event
            }
        })),
{
    if item_message(items, items[i], names) is Some {
        lemma_shown(items, reverse, user, names, i);
        let out = messages_in(items, reverse, user, names);
        let k = place(items, reverse, names, i);
        if let TimelineItem::Encrypted { event_id, .. } = items[i] {
            assert(out[k].event_id == event_id@);
        }
        if let TimelineItem::Member { event_id, .. } = items[i] {
            assert(out[k].event_id == event_id@);
        }
    }
}

proof fn lemma_last_with_id(messages: Seq<MessageView>, id: Seq<char>, n: int)
    requires
        0 <= n <= messages.len(),
    ensures
        -1 <= last_with_id(messages, id, n) < n,
        last_with_id(messages, id, n) >= 0 ==> messages[last_with_id(messages, id, n)].event_id
            == id,
        forall|j: int| last_with_id(messages, id, n) < j < n ==> (#[trigger] messages[j]).event_id != id,
    decreases n,
{
    if n > 0 && messages[n - 1].event_id != id {
        lemma_last_with_id(messages, id, n - 1);
    }
}

/// A reply says whom it answers, where the answered message is on the page, and a
/// message that answers the user, or goes on in a thread of theirs, is marked. No
/// other message is.
pub proof fn law_replies_are_linked(
    items: Seq<TimelineItem>,
    reverse: bool,
    user: Option<Seq<char>>,
    names: &Table<String>,
    k: int,
    a: int,
)
    requires
        ({
            let out = messages_in(items, reverse, user, names);
            &&& 0 <= k < out.len()
            &&& 0 <= a < out.len()
            &&& forall|j: int| 0 <= j < out.len() && j != a ==> (#[trigger] out[j]).event_id
                != out[a].event_id
            &&& out[a].event_id.len() > 0
        }),
    ensures
        ({
            let out = messages_in(items, reverse, user, names);
            &&& out[k].reply_to == Some(out[a].event_id) ==> out[k].reply_to_sender == Some(
                out[a].sender,
            )
            &&& user == Some(out[a].sender_id) && (out[k].reply_to == Some(out[a].event_id)
                || out[k].thread_root == Some(out[a].event_id)) ==> out[k].is_highlight
            &&& out[k].is_highlight ==> user is Some && exists|j: int|
                0 <= j < out.len() && (#[trigger] out[j]).sender_id == user->0 && (out[k].reply_to
                    == Some(out[j].event_id) || out[k].thread_root == Some(out[j].event_id))
        }),
{
    let n = items.len() as int;
    let found = collected(items, reverse, names, n);
    let out = messages_in(items, reverse, user, names);
    let id = out[a].event_id;
    assert(found[a].event_id == id);
    lemma_last_with_id(found, id, found.len() as int);
    let p = last_with_id(found, id, found.len() as int);
    assert(p == a) by {
        if p >= 0 && p != a {
            assert(out[p].event_id != id);
        }
    }
    lemma_collected_unmarked(items, reverse, names, n);
    assert(!found[k].is_highlight);
    if user == Some(out[a].sender_id) {
        assert(found[a].sender_id == user->0);
        assert(wrote(found, user, id));
    }
    if out[k].is_highlight {
        if found[k].reply_to is Some && wrote(found, user, found[k].reply_to->0) {
            let j = choose|j: int|
                0 <= j < found.len() && (#[trigger] found[j]).sender_id == user->0
                    && found[j].event_id == found[k].reply_to->0;
            assert(out[j].sender_id == user->0);
        } else {
            let j = choose|j: int|
                0 <= j < found.len() && (#[trigger] found[j]).sender_id == user->0
                    && found[j].event_id == found[k].thread_root->0;
            assert(out[j].sender_id == user->0);
        }
    }
}

proof fn lemma_collected_unmarked(
    items: Seq<TimelineItem>,
    reverse: bool,
    names: &Table<String>,
    n: int,
)
    ensures
        forall|i: int|
            0 <= i < collected(items, reverse, names, n).len() ==> !(#[trigger] collected(
                items,
                reverse,
                names,
                n,
            )[i]).is_highlight,
    decreases n,
{
    if n > 0 {
        lemma_collected_unmarked(items, reverse, names, n - 1);
    }
}

proof fn lemma_reactions_to(items: Seq<TimelineItem>, id: Seq<char>, r: int)
    requires
        0 <= r < items.len(),
        items[r] matches TimelineItem::Reaction { target, .. } && target@ == id,
    ensures
        exists|p: int|
            0 <= p < reactions_to(items, id).len() && #[trigger] reactions_to(items, id)[p] == (
                items[r]->key,
                items[r]->Reaction_sender,
            ),
    decreases items.len(),
{
    let list = reactions_to(items, id);
    let rest = reactions_to(items.drop_last(), id);
    if r == items.len() - 1 {
        assert(list[rest.len() as int] == (items[r]->key, items[r]->Reaction_sender));
    } else {
        assert(items.drop_last()[r] == items[r]);
        lemma_reactions_to(items.drop_last(), id, r);
        let p = choose|p: int|
            0 <= p < rest.len() && #[trigger] rest[p] == (items[r]->key, items[r]->Reaction_sender);
        assert(list[p] == rest[p]);
    }
}

/// A reaction is shown on the message that it is for, under its emoji and with who
/// reacted.
pub proof fn law_reactions_are_shown(
    items: Seq<TimelineItem>,
    reverse: bool,
    user: Option<Seq<char>>,
    names: &Table<String>,
    i: int,
    r: int,
)
    requires
        0 <= i < items.len(),
        0 <= r < items.len(),
        own_message(items, i),
        items[r] matches TimelineItem::Reaction { target, .. } && target@
            == items[i]->Message_event_id@,
    ensures
        ({
            let out = messages_in(items, reverse, user, names);
            exists|k: int, g: int| {
                &&& 0 <= k < out.len()
                &&& out[k].event_id == items[i]->Message_event_id@
                &&& 0 <= g < out[k].reactions.len()
                &&& (#[trigger] out[k].reactions[g]).0 == items[r]->key@
                &&& out[k].reactions[g].2.contains(items[r]->Reaction_sender@)
            }
        }),
{
    lemma_own_message(items, i, names);
    lemma_shown(items, reverse, user, names, i);
    let out = messages_in(items, reverse, user, names);
    let k = place(items, reverse, names, i);
    let id = items[i]->Message_event_id@;
    lemma_reactions_to(items, id, r);
    let list = reactions_to(items, id);
    let p = choose|p: int|
        0 <= p < list.len() && #[trigger] list[p] == (items[r]->key, items[r]->Reaction_sender);
    crate::matrix::content::law_reaction_is_grouped(list, p);
    let g = choose|g: int|
        0 <= g < grouped(list).len() && (#[trigger] grouped(list)[g]).0 == list[p].0@ && grouped(
            list,
        )[g].2.contains(list[p].1@);
    assert(out[k].reactions[g] == grouped(list)[g]);
}

/// Only messages of the page are shown: each goes by the id of one of its events.
pub proof fn law_history_adds_nothing(
    items: Seq<TimelineItem>,
    reverse: bool,
    user: Option<Seq<char>>,
    names: &Table<String>,
)
    ensures
        messages_in(items, reverse, user, names).len() <= items.len(),
        forall|k: int|
            0 <= k < messages_in(items, reverse, user, names).len() ==> exists|i: int|
                0 <= i < items.len() && (match #[trigger] items[i] {
                    TimelineItem::Message { event_id, .. } => event_id@,
                    TimelineItem::Encrypted { event_id, .. } => event_id@,
                    TimelineItem::Member { event_id, .. } => event_id@,
                    _ => Seq::empty(),
                }) == (#[trigger] messages_in(items, reverse, user, names)[k]).event_id,
{
    let n = items.len() as int;
    lemma_collected_from(items, reverse, names, n);
    let found = collected(items, reverse, names, n);
    let out = messages_in(items, reverse, user, names);
    assert forall|k: int| 0 <= k < out.len() implies exists|i: int|
        0 <= i < items.len() && (match #[trigger] items[i] {
            TimelineItem::Message { event_id, .. } => event_id@,
            TimelineItem::Encrypted { event_id, .. } => event_id@,
            TimelineItem::Member { event_id, .. } => event_id@,
            _ => Seq::empty(),
        }) == (#[trigger] out[k]).event_id by {
        let i = choose|i: int|
            0 <= i < items.len() && item_message(items, #[trigger] items[i], names) == Some(found[k]);
        assert(out[k].event_id == found[k].event_id);
    }
}

proof fn lemma_collected_from(
    items: Seq<TimelineItem>,
    reverse: bool,
    names: &Table<String>,
    n: int,
)
    requires
        0 <= n <= items.len(),
    ensures
        collected(items, reverse, names, n).len() <= n,
        forall|k: int|
            0 <= k < collected(items, reverse, names, n).len() ==> exists|i: int|
                0 <= i < items.len() && item_message(items, #[trigger] items[i], names) == Some(
                    #[trigger] collected(items, reverse, names, n)[k],
                ),
    decreases n,
{
    if n > 0 {
        lemma_collected_from(items, reverse, names, n - 1);
        let rest = collected(items, reverse, names, n - 1);
        let all = collected(items, reverse, names, n);
        let at = if reverse {
            items.len() - n
        } else {
            n - 1
        };
        assert forall|k: int| 0 <= k < all.len() implies exists|i: int|
            0 <= i < items.len() && item_message(items, #[trigger] items[i], names) == Some(
                #[trigger] all[k],
            ) by {
            if k < rest.len() {
                assert(all[k] == rest[k]);
                let i = choose|i: int|
                    0 <= i < items.len() && item_message(items, #[trigger] items[i], names) == Some(
                        rest[k],
                    );
                assert(item_message(items, items[i], names) == Some(all[k]));
            } else {
                assert(item_message(items, items[at], names) == Some(all[k]));
            }
        }
    }
}

/// Every pinned message that could be fetched is listed, in its order, with the name
/// of its sender and its text; nothing else is.
pub proof fn law_pinned_messages_are_listed(items: Seq<TimelineItem>, names: &Table<String>, n: int)
    requires
        0 <= n < items.len(),
    ensures
        items[n] is Message ==> pinned_view(items, names, n + 1) == pinned_view(items, names, n).push(
            (
                shown_name(names, items[n]->Message_sender@),
                shown_body(items[n]->Message_content),
                shown_html(items[n]->Message_content),
            ),
        ),
        !(items[n] is Message) ==> pinned_view(items, names, n + 1) == pinned_view(items, names, n),
        pinned_view(items, names, 0).len() == 0,
{
}

/// Every message of a thread is shown as a reply to its root, in its order, with its
/// sender, text, time and attachment; nothing else is.
pub proof fn law_thread_shows_its_replies(
    items: Seq<TimelineItem>,
    root: Seq<char>,
    names: &Table<String>,
    n: int,
)
    requires
        0 <= n < items.len(),
    ensures
        ({
            let before = reply_views(items, root, names, n);
            let then = reply_views(items, root, names, n + 1);
            &&& items[n] is Message ==> {
                &&& then.len() == before.len() + 1
                &&& then.drop_last() == before
                &&& then.last().thread_root == Some(root)
                &&& then.last().event_id == items[n]->Message_event_id@
                &&& then.last().sender_id == items[n]->Message_sender@
                &&& then.last().sender == shown_name(names, items[n]->Message_sender@)
                &&& then.last().timestamp == items[n]->Message_timestamp
                &&& then.last().body == shown_body(items[n]->Message_content)
                &&& then.last().formatted_body == shown_html(items[n]->Message_content)
                &&& then.last().media == shown_media(items[n]->Message_content)
            }
            &&& !(items[n] is Message) ==> then == before
        }),
{
    let before = reply_views(items, root, names, n);
    let then = reply_views(items, root, names, n + 1);
    if items[n] is Message {
        assert(then.drop_last() == before);
    }
}

/// An edit is no message of its own, and neither is an edit that cannot be read: no
/// message that somebody wrote goes by its id.
pub proof fn law_edits_are_no_messages(
    items: Seq<TimelineItem>,
    reverse: bool,
    user: Option<Seq<char>>,
    names: &Table<String>,
    k: int,
    e: int,
)
    requires
        0 <= k < messages_in(items, reverse, user, names).len(),
        0 <= e < items.len(),
    ensures
        ({
            let m = messages_in(items, reverse, user, names)[k];
            &&& items[e] is Message && items[e]->relation is Replacement && !m.is_system_event
                ==> m.event_id != items[e]->Message_event_id@
            &&& items[e] is Encrypted && json_string(
                items[e]->raw@,
                "/content/m.relates_to/rel_type"@,
            ) == Some("m.replace"@) && m.body == locked_text() && !m.is_system_event && (forall|j: int|
                0 <= j < items.len() && j != e ==> item_id(#[trigger] items[j])
                    != items[e]->Encrypted_event_id@) ==> m.event_id != items[e]->Encrypted_event_id@
        }),
{
    let n = items.len() as int;
    lemma_collected_from(items, reverse, names, n);
    let found = collected(items, reverse, names, n);
    let out = messages_in(items, reverse, user, names);
    let i = choose|i: int|
        0 <= i < items.len() && item_message(items, #[trigger] items[i], names) == Some(found[k]);
    assert(out[k].event_id == found[k].event_id);
    assert(out[k].is_system_event == found[k].is_system_event);
    if items[e] is Message && items[e]->relation is Replacement && !out[k].is_system_event {
        let id = items[e]->Message_event_id@;
        assert(is_edit_event(items[e], id));
        assert(names_an_edit(items, id));
    }
    if items[e] is Encrypted && out[k].event_id == items[e]->Encrypted_event_id@ {
        assert(item_id(items[i]) == out[k].event_id);
    }
}

/// The id that a message of an event goes by.
pub open spec fn item_id(item: TimelineItem) -> Seq<char> {
    match item {
        TimelineItem::Message { event_id, .. } => event_id@,
        TimelineItem::Encrypted { event_id, .. } => event_id@,
        TimelineItem::Member { event_id, .. } => event_id@,
        _ => Seq::empty(),
    }
}

/// A page of older messages belongs to its room and tells where to go on; a page that
/// could not be fetched brings no messages and ends there.
pub proof fn law_older_pages_tell_where_to_go_on(
    room_id: &str,
    page: Option<(Vec<TimelineItem>, Option<String>)>,
    me: Option<&str>,
    names: &Table<String>,
    event: MatrixEvent,
)
    requires
        call_ensures(older_messages, (room_id, page, me, names), event),
    ensures
        event is OlderMessages,
        event->OlderMessages_room_id@ == room_id@,
        page is Some ==> event->OlderMessages_prev_batch_token == (page->0).1,
        page is None ==> event->OlderMessages_messages@.len() == 0
            && event->OlderMessages_prev_batch_token is None,
{
}

} // verus!
