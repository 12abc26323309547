//! The records that the protocol thread and the user interface exchange.

use vstd::prelude::*;
use crate::json::text_of;
use crate::models::message_object::reactions_view;

verus! {

/// What kind of room this is.
#[derive(Debug, Clone, Copy, PartialEq, Eq, Structural)]
pub enum RoomKind {
    /// A regular room.
    Room,
    /// A direct message.
    DirectMessage,
    /// A container for other rooms.
    Space,
}

impl Default for RoomKind {
    fn default() -> (r: Self)
        ensures
            r == RoomKind::Room,
    {
        RoomKind::Room
    }
}

/// A snapshot of one room for the room list.
#[derive(Debug)]
pub struct RoomInfo {
    pub room_id: String,
    pub name: String,
    pub last_activity_ts: u64,
    pub kind: RoomKind,
    pub is_encrypted: bool,
    /// Display name of the space that the room belongs to.
    pub parent_space: Option<String>,
    /// Room id of the parent space, or empty.
    pub parent_space_id: String,
    /// Whether the user has pinned this room.
    pub is_pinned: bool,
    /// Messages since the last read receipt.
    pub unread_count: u64,
    /// Mentions and keyword matches since then.
    pub highlight_count: u64,
    /// Whether the user has administrator power in this room.
    pub is_admin: bool,
    /// Whether the room was replaced by another one.
    pub is_tombstoned: bool,
    /// Whether the room carries the favourite tag.
    pub is_favourite: bool,
    /// mxc:// URL of the avatar, or empty.
    pub avatar_url: String,
    /// Current topic, or empty.
    pub topic: String,
}

impl Clone for RoomInfo {
    fn clone(&self) -> (r: Self)
        ensures
            r == *self,
    {
        RoomInfo {
            room_id: self.room_id.clone(),
            name: self.name.clone(),
            last_activity_ts: self.last_activity_ts,
            kind: self.kind,
            is_encrypted: self.is_encrypted,
            parent_space: clone_option(&self.parent_space),
            parent_space_id: self.parent_space_id.clone(),
            is_pinned: self.is_pinned,
            unread_count: self.unread_count,
            highlight_count: self.highlight_count,
            is_admin: self.is_admin,
            is_tombstoned: self.is_tombstoned,
            is_favourite: self.is_favourite,
            avatar_url: self.avatar_url.clone(),
            topic: self.topic.clone(),
        }
    }
}

/// A room of the room list as text.
pub struct RoomView {
    pub room_id: Seq<char>,
    pub name: Seq<char>,
    pub last_activity_ts: u64,
    pub kind: RoomKind,
    pub is_encrypted: bool,
    pub parent_space: Option<Seq<char>>,
    pub parent_space_id: Seq<char>,
    pub is_pinned: bool,
    pub unread_count: u64,
    pub highlight_count: u64,
    pub is_admin: bool,
    pub is_tombstoned: bool,
    pub is_favourite: bool,
    pub avatar_url: Seq<char>,
    pub topic: Seq<char>,
}

impl View for RoomInfo {
    type V = RoomView;

    open spec fn view(&self) -> RoomView {
        RoomView {
            room_id: self.room_id@,
            name: self.name@,
            last_activity_ts: self.last_activity_ts,
            kind: self.kind,
            is_encrypted: self.is_encrypted,
            parent_space: text_of(self.parent_space),
            parent_space_id: self.parent_space_id@,
            is_pinned: self.is_pinned,
            unread_count: self.unread_count,
            highlight_count: self.highlight_count,
            is_admin: self.is_admin,
            is_tombstoned: self.is_tombstoned,
            is_favourite: self.is_favourite,
            avatar_url: self.avatar_url@,
            topic: self.topic@,
        }
    }
}

/// A copy of an optional string.
pub fn clone_option(s: &Option<String>) -> (r: Option<String>)
    ensures
        r == *s,
{
    match s {
        Some(t) => Some(t.clone()),
        None => None,
    }
}

/// A copy of an optional string slice.
pub fn own_option(s: Option<&str>) -> (r: Option<String>)
    ensures
        text_of(r) == (match s {
            Some(t) => Some(t@),
            None => None,
        }),
{
    match s {
        Some(t) => Some(t.to_owned()),
        None => None,
    }
}

#[derive(Debug, Clone, Copy, PartialEq, Eq, Structural)]
pub enum MediaKind {
    Image,
    Video,
    Audio,
    File,
}

/// An attachment of a message.
#[derive(Debug)]
pub struct MediaInfo {
    pub kind: MediaKind,
    pub filename: String,
    pub size: Option<u64>,
    /// Matrix content URI, or file:// for local files.
    pub url: String,
    /// The media source as JSON, for encrypted downloads; empty otherwise.
    pub source_json: String,
}

impl Clone for MediaInfo {
    fn clone(&self) -> (r: Self)
        ensures
            r == *self,
    {
        MediaInfo {
            kind: self.kind,
            filename: self.filename.clone(),
            size: self.size,
            url: self.url.clone(),
            source_json: self.source_json.clone(),
        }
    }
}

/// An attachment as text.
pub struct MediaView {
    pub kind: MediaKind,
    pub filename: Seq<char>,
    pub size: Option<u64>,
    pub url: Seq<char>,
    pub source_json: Seq<char>,
}

impl View for MediaInfo {
    type V = MediaView;

    open spec fn view(&self) -> MediaView {
        MediaView {
            kind: self.kind,
            filename: self.filename@,
            size: self.size,
            url: self.url@,
            source_json: self.source_json@,
        }
    }
}

/// An optional attachment as text.
pub open spec fn media_of(m: Option<MediaInfo>) -> Option<MediaView> {
    match m {
        Some(i) => Some(i@),
        None => None,
    }
}

/// One message.
#[derive(Debug)]
pub struct MessageInfo {
    pub sender: String,
    pub sender_id: String,
    pub body: String,
    /// HTML body, if there is one.
    pub formatted_body: Option<String>,
    /// Unix time in seconds.
    pub timestamp: u64,
    pub event_id: String,
    /// Event id of the message this replies to.
    pub reply_to: Option<String>,
    /// Display name of who this message replies to, if known.
    pub reply_to_sender: Option<String>,
    /// Event id of the thread root.
    pub thread_root: Option<String>,
    /// Reactions: emoji, how often, and by whom.
    pub reactions: Vec<(String, u64, Vec<String>)>,
    pub media: Option<MediaInfo>,
    /// Whether the message concerns the user.
    pub is_highlight: bool,
    /// Whether this is a membership event shown as an inline row.
    pub is_system_event: bool,
}

/// One message as text.
pub struct MessageView {
    pub sender: Seq<char>,
    pub sender_id: Seq<char>,
    pub body: Seq<char>,
    pub formatted_body: Option<Seq<char>>,
    pub timestamp: u64,
    pub event_id: Seq<char>,
    pub reply_to: Option<Seq<char>>,
    pub reply_to_sender: Option<Seq<char>>,
    pub thread_root: Option<Seq<char>>,
    pub reactions: Seq<(Seq<char>, u64, Seq<Seq<char>>)>,
    pub media: Option<MediaView>,
    pub is_highlight: bool,
    pub is_system_event: bool,
}

impl View for MessageInfo {
    type V = MessageView;

    open spec fn view(&self) -> MessageView {
        MessageView {
            sender: self.sender@,
            sender_id: self.sender_id@,
            body: self.body@,
            formatted_body: text_of(self.formatted_body),
            timestamp: self.timestamp,
            event_id: self.event_id@,
            reply_to: text_of(self.reply_to),
            reply_to_sender: text_of(self.reply_to_sender),
            thread_root: text_of(self.thread_root),
            reactions: reactions_view(self.reactions@),
            media: media_of(self.media),
            is_highlight: self.is_highlight,
            is_system_event: self.is_system_event,
        }
    }
}

/// A copy of a list of strings.
pub fn clone_strings(v: &Vec<String>) -> (r: Vec<String>)
    ensures
        r@ == v@,
{
    let mut out: Vec<String> = Vec::new();
    let mut i: usize = 0;
    while i < v.len()
        invariant
            i <= v.len(),
            out@ == v@.subrange(0, i as int),
        decreases v.len() - i,
    {
        out.push(v[i].clone());
        i = i + 1;
        assert(out@ == v@.subrange(0, i as int));
    }
    assert(v@.subrange(0, i as int) == v@);
    out
}

/// A copy of a list of pairs of strings.
pub fn clone_pairs(v: &Vec<(String, String)>) -> (r: Vec<(String, String)>)
    ensures
        r@ == v@,
{
    let mut out: Vec<(String, String)> = Vec::new();
    let mut i: usize = 0;
    while i < v.len()
        invariant
            i <= v.len(),
            out@ == v@.subrange(0, i as int),
        decreases v.len() - i,
    {
        out.push((v[i].0.clone(), v[i].1.clone()));
        i = i + 1;
        assert(out@ == v@.subrange(0, i as int));
    }
    assert(v@.subrange(0, i as int) == v@);
    out
}

/// A copy of a list of reactions.
pub fn clone_reactions(v: &Vec<(String, u64, Vec<String>)>) -> (r: Vec<(String, u64, Vec<String>)>)
    ensures
        reactions_view(r@) == reactions_view(v@),
        r@.len() == v@.len(),
{
    let mut out: Vec<(String, u64, Vec<String>)> = Vec::new();
    let mut i: usize = 0;
    while i < v.len()
        invariant
            i <= v.len(),
            out@.len() == i,
            forall|j: int|
                0 <= j < i ==> (#[trigger] reactions_view(out@)[j]) == reactions_view(v@)[j],
        decreases v.len() - i,
    {
        let ghost out0 = out@;
        let names = clone_strings(&v[i].2);
        out.push((v[i].0.clone(), v[i].1, names));
        proof {
            assert forall|j: int| 0 <= j < i + 1 implies (#[trigger] reactions_view(out@)[j])
                == reactions_view(v@)[j] by {
                if j < i {
                    assert(out@[j] == out0[j]);
                    assert(reactions_view(out@)[j] == reactions_view(out0)[j]);
                } else {
                    assert(out@[j].2@ == v@[j].2@);
                }
            }
        }
        i = i + 1;
    }
    assert(reactions_view(out@) =~= reactions_view(v@));
    out
}

impl Clone for MessageInfo {
    fn clone(&self) -> (r: Self)
        ensures
            r@ == self@,
    {
        MessageInfo {
            sender: self.sender.clone(),
            sender_id: self.sender_id.clone(),
            body: self.body.clone(),
            formatted_body: clone_option(&self.formatted_body),
            timestamp: self.timestamp,
            event_id: self.event_id.clone(),
            reply_to: clone_option(&self.reply_to),
            reply_to_sender: clone_option(&self.reply_to_sender),
            thread_root: clone_option(&self.thread_root),
            reactions: clone_reactions(&self.reactions),
            media: match &self.media {
                Some(m) => Some(m.clone()),
                None => None,
            },
            is_highlight: self.is_highlight,
            is_system_event: self.is_system_event,
        }
    }
}

/// Messages as text.
pub open spec fn messages_of(v: Seq<MessageInfo>) -> Seq<MessageView> {
    v.map_values(|m: MessageInfo| m@)
}

/// A copy of a list of messages.
pub fn clone_messages(v: &Vec<MessageInfo>) -> (r: Vec<MessageInfo>)
    ensures
        messages_of(r@) == messages_of(v@),
        r@.len() == v@.len(),
{
    let mut out: Vec<MessageInfo> = Vec::new();
    let mut i: usize = 0;
    while i < v.len()
        invariant
            i <= v.len(),
            out@.len() == i,
            forall|j: int| 0 <= j < i ==> (#[trigger] out@[j])@ == v@[j]@,
        decreases v.len() - i,
    {
        out.push(v[i].clone());
        i = i + 1;
    }
    assert(messages_of(out@) =~= messages_of(v@));
    out
}

/// What the header of a room shows, sent along with its messages.
#[derive(Debug)]
pub struct RoomMeta {
    pub topic: String,
    pub is_tombstoned: bool,
    /// Room id of the replacement, if the room was replaced.
    pub replacement_room: Option<String>,
    /// Name of the replacement, if it can be resolved.
    pub replacement_room_name: Option<String>,
    /// Pinned messages: sender, plain body, formatted body.
    pub pinned_messages: Vec<(String, String, Option<String>)>,
    pub is_encrypted: bool,
    /// Number of joined members.
    pub member_count: u64,
    pub is_favourite: bool,
    /// Members: user id and display name.
    pub members: Vec<(String, String)>,
    /// Avatars: user id and mxc:// URL.
    pub member_avatars: Vec<(String, String)>,
    /// Whether the whole member list was fetched this session.
    pub members_fetched: bool,
    /// Unread notifications according to the server.
    pub unread_count: u32,
    /// The event up to which the room was read, if known.
    pub fully_read_event_id: Option<String>,
}

/// The header of a room, by sequences.
pub struct MetaView {
    pub topic: Seq<char>,
    pub is_tombstoned: bool,
    pub replacement_room: Option<Seq<char>>,
    pub replacement_room_name: Option<Seq<char>>,
    pub pinned_messages: Seq<(String, String, Option<String>)>,
    pub is_encrypted: bool,
    pub member_count: u64,
    pub is_favourite: bool,
    pub members: Seq<(String, String)>,
    pub member_avatars: Seq<(String, String)>,
    pub members_fetched: bool,
    pub unread_count: u32,
    pub fully_read_event_id: Option<Seq<char>>,
}

impl View for RoomMeta {
    type V = MetaView;

    open spec fn view(&self) -> MetaView {
        MetaView {
            topic: self.topic@,
            is_tombstoned: self.is_tombstoned,
            replacement_room: text_of(self.replacement_room),
            replacement_room_name: text_of(self.replacement_room_name),
            pinned_messages: self.pinned_messages@,
            is_encrypted: self.is_encrypted,
            member_count: self.member_count,
            is_favourite: self.is_favourite,
            members: self.members@,
            member_avatars: self.member_avatars@,
            members_fetched: self.members_fetched,
            unread_count: self.unread_count,
            fully_read_event_id: text_of(self.fully_read_event_id),
        }
    }
}

fn clone_pinned(v: &Vec<(String, String, Option<String>)>) -> (r: Vec<
    (String, String, Option<String>),
>)
    ensures
        r@ == v@,
{
    let mut out: Vec<(String, String, Option<String>)> = Vec::new();
    let mut i: usize = 0;
    while i < v.len()
        invariant
            i <= v.len(),
            out@ == v@.subrange(0, i as int),
        decreases v.len() - i,
    {
        out.push((v[i].0.clone(), v[i].1.clone(), clone_option(&v[i].2)));
        i = i + 1;
        assert(out@ == v@.subrange(0, i as int));
    }
    assert(v@.subrange(0, i as int) == v@);
    out
}

impl Clone for RoomMeta {
    fn clone(&self) -> (r: Self)
        ensures
            r@ == self@,
    {
        RoomMeta {
            topic: self.topic.clone(),
            is_tombstoned: self.is_tombstoned,
            replacement_room: clone_option(&self.replacement_room),
            replacement_room_name: clone_option(&self.replacement_room_name),
            pinned_messages: clone_pinned(&self.pinned_messages),
            is_encrypted: self.is_encrypted,
            member_count: self.member_count,
            is_favourite: self.is_favourite,
            members: clone_pairs(&self.members),
            member_avatars: clone_pairs(&self.member_avatars),
            members_fetched: self.members_fetched,
            unread_count: self.unread_count,
            fully_read_event_id: clone_option(&self.fully_read_event_id),
        }
    }
}

impl Default for RoomMeta {
    fn default() -> (r: Self)
        ensures
            r@ == blank_meta(),
    {
        RoomMeta {
            topic: String::new(),
            is_tombstoned: false,
            replacement_room: None,
            replacement_room_name: None,
            pinned_messages: Vec::new(),
            is_encrypted: false,
            member_count: 0,
            is_favourite: false,
            members: Vec::new(),
            member_avatars: Vec::new(),
            members_fetched: false,
            unread_count: 0,
            fully_read_event_id: None,
        }
    }
}

/// The header of a room of which nothing is known.
pub open spec fn blank_meta() -> MetaView {
    MetaView {
        topic: Seq::empty(),
        is_tombstoned: false,
        replacement_room: None,
        replacement_room_name: None,
        pinned_messages: Seq::empty(),
        is_encrypted: false,
        member_count: 0,
        is_favourite: false,
        members: Seq::empty(),
        member_avatars: Seq::empty(),
        members_fetched: false,
        unread_count: 0,
        fully_read_event_id: None,
    }
}

/// A room of a directory listing.
#[derive(Debug, Clone)]
pub struct SpaceDirectoryRoom {
    pub room_id: String,
    /// Canonical alias, which is better for joining than the room id: resolving
    /// it names servers that are in the room now.
    pub canonical_alias: Option<String>,
    pub name: String,
    pub topic: String,
    pub member_count: u64,
    pub already_joined: bool,
    /// The server that listed the room, as a hint for joining.
    pub via_server: Option<String>,
}

/// One emoji of an interactive verification.
#[derive(Debug, Clone)]
pub struct VerificationEmoji {
    pub symbol: String,
    pub description: String,
}

} // verus!
