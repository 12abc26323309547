//! One message as the message view shows it.

use vstd::prelude::*;
use crate::json::json_literal;
use crate::text::decimal;

verus! {

/// A message together with what is computed once for showing it.
#[derive(Debug)]
pub struct MessageObject {
    /// Display name of the sender.
    pub sender: String,
    /// Matrix user id of the sender.
    pub sender_id: String,
    /// Plain text body.
    pub body: String,
    /// Unix time of the message in seconds.
    pub timestamp: u64,
    /// Whether the message mentions the user.
    pub is_highlight: bool,
    /// Matrix event id; empty for a local echo that the server has not acknowledged.
    pub event_id: String,
    /// Event id of the message this replies to, or empty.
    pub reply_to: String,
    /// Display name of who this message replies to.
    pub reply_to_sender: String,
    /// Event id of the thread root, or empty.
    pub thread_root: String,
    /// Reactions as JSON: `[["emoji", count, [names]], ...]`.
    pub reactions_json: String,
    /// Media information as JSON, or empty.
    pub media_json: String,
    /// HTML body, or empty.
    pub formatted_body: String,
    /// Whether the flash animation is active.
    pub is_flashing: bool,
    /// Whether the message arrived since the user last read the room.
    pub is_new_message: bool,
    /// Whether this is a membership event shown as compact inline text.
    pub is_system_event: bool,
    /// Whether the "New messages" divider stands above this message.
    pub is_first_unread: bool,
    /// The timestamp as shown.
    pub formatted_timestamp: String,
    /// Pango markup of the body, once rendered.
    pub rendered_markup: String,
    /// Hash of the body, to skip rendering it again.
    pub body_hash: u64,
    /// Markup of the sender label.
    pub sender_markup: String,
    /// Hash of `reactions_json`.
    pub reactions_hash: u64,
    /// Image URL found in the body, or empty.
    pub image_url: String,
    /// Label of the reply indicator, or empty.
    pub reply_label: String,
    /// Icon of the attachment.
    pub media_icon_name: String,
    /// Label of the attachment.
    pub media_display_label: String,
    /// Accessible label of the attachment.
    pub media_a11y_label: String,
    /// URL of the attachment.
    pub media_url_str: String,
    /// File name of the attachment.
    pub media_filename_str: String,
    /// Media source of the attachment as JSON.
    pub media_source_json_str: String,
}

impl Clone for MessageObject {
    fn clone(&self) -> (r: Self)
        ensures
            r == *self,
    {
        MessageObject {
            sender: self.sender.clone(),
            sender_id: self.sender_id.clone(),
            body: self.body.clone(),
            timestamp: self.timestamp,
            is_highlight: self.is_highlight,
            event_id: self.event_id.clone(),
            reply_to: self.reply_to.clone(),
            reply_to_sender: self.reply_to_sender.clone(),
            thread_root: self.thread_root.clone(),
            reactions_json: self.reactions_json.clone(),
            media_json: self.media_json.clone(),
            formatted_body: self.formatted_body.clone(),
            is_flashing: self.is_flashing,
            is_new_message: self.is_new_message,
            is_system_event: self.is_system_event,
            is_first_unread: self.is_first_unread,
            formatted_timestamp: self.formatted_timestamp.clone(),
            rendered_markup: self.rendered_markup.clone(),
            body_hash: self.body_hash,
            sender_markup: self.sender_markup.clone(),
            reactions_hash: self.reactions_hash,
            image_url: self.image_url.clone(),
            reply_label: self.reply_label.clone(),
            media_icon_name: self.media_icon_name.clone(),
            media_display_label: self.media_display_label.clone(),
            media_a11y_label: self.media_a11y_label.clone(),
            media_url_str: self.media_url_str.clone(),
            media_filename_str: self.media_filename_str.clone(),
            media_source_json_str: self.media_source_json_str.clone(),
        }
    }
}

/// Reactions as text: the emoji, how often, and by whom.
pub open spec fn reactions_view(reactions: Seq<(String, u64, Vec<String>)>) -> Seq<
    (Seq<char>, u64, Seq<Seq<char>>),
> {
    reactions.map_values(
        |r: (String, u64, Vec<String>)| (r.0@, r.1, r.2@.map_values(|n: String| n@)),
    )
}

/// JSON values with a comma between two.
pub open spec fn json_joined(values: Seq<Seq<char>>) -> Seq<char>
    decreases values.len(),
{
    if values.len() == 0 {
        Seq::empty()
    } else if values.len() == 1 {
        values[0]
    } else {
        json_joined(values.drop_last()) + ","@ + values.last()
    }
}

/// A JSON array of values.
pub open spec fn json_array(values: Seq<Seq<char>>) -> Seq<char> {
    "["@ + json_joined(values) + "]"@
}

/// A reaction as JSON: an array of the emoji, the count and the array of the names.
pub open spec fn reaction_to_json(r: (Seq<char>, u64, Seq<Seq<char>>)) -> Seq<char> {
    json_array(
        seq![
            json_literal(r.0),
            decimal(r.1 as nat),
            json_array(r.2.map_values(|n: Seq<char>| json_literal(n))),
        ],
    )
}

/// A list of reactions as JSON.
pub open spec fn reactions_to_json(reactions: Seq<(Seq<char>, u64, Seq<Seq<char>>)>) -> Seq<char> {
    json_array(reactions.map_values(|r: (Seq<char>, u64, Seq<Seq<char>>)| reaction_to_json(r)))
}

/// `serde_json::to_string` on a list of reactions: arrays without white space, in
/// which a text stands as the literal that the same function gives for it alone,
/// and a count in decimal.
#[verifier::external_body]
fn write_reactions(reactions: &[(String, u64, Vec<String>)]) -> (r: String)
    ensures
        r@ == reactions_to_json(reactions_view(reactions@)),
{
    serde_json::to_string(reactions).unwrap_or_default()
}

/// The 64-bit FNV-1a hash.
pub open spec fn fnv1a(bytes: Seq<u8>) -> u64
    decreases bytes.len(),
{
    if bytes.len() == 0 {
        14695981039346656037
    } else {
        (fnv1a(bytes.drop_last()) ^ (bytes.last() as u64)).wrapping_mul(1099511628211)
    }
}

/// The hash of the UTF-8 bytes of `s`.
pub fn fnv1a_str(s: &str) -> (r: u64)
    ensures
        r == fnv1a(vstd::utf8::encode_utf8(s@)),
{
    let bytes = s.as_bytes();
    let mut h: u64 = 14695981039346656037;
    let mut i: usize = 0;
    while i < bytes.len()
        invariant
            i <= bytes.len(),
            bytes@ == vstd::utf8::encode_utf8(s@),
            h == fnv1a(bytes@.subrange(0, i as int)),
        decreases bytes.len() - i,
    {
        assert(bytes@.subrange(0, i + 1).drop_last() == bytes@.subrange(0, i as int));
        h = (h ^ (bytes[i] as u64)).wrapping_mul(1099511628211);
        i = i + 1;
    }
    assert(bytes@.subrange(0, i as int) == bytes@);
    h
}

/// `m` is a message with these parts and nothing else set.
pub open spec fn assembled(
    m: MessageObject,
    sender: Seq<char>,
    sender_id: Seq<char>,
    body: Seq<char>,
    formatted_body: Seq<char>,
    timestamp: u64,
    event_id: Seq<char>,
    reply_to: Seq<char>,
    thread_root: Seq<char>,
    reactions_json: Seq<char>,
    media_json: Seq<char>,
) -> bool {
    &&& m.sender@ == sender
    &&& m.sender_id@ == sender_id
    &&& m.body@ == body
    &&& m.formatted_body@ == formatted_body
    &&& m.timestamp == timestamp
    &&& m.event_id@ == event_id
    &&& m.reply_to@ == reply_to
    &&& m.thread_root@ == thread_root
    &&& m.reactions_json@ == reactions_json
    &&& m.media_json@ == media_json
    &&& !m.is_highlight
    &&& m.reply_to_sender@.len() == 0
    &&& !m.is_flashing
    &&& !m.is_new_message
    &&& !m.is_system_event
    &&& !m.is_first_unread
    &&& m.formatted_timestamp@.len() == 0
    &&& m.rendered_markup@.len() == 0
    &&& m.body_hash == 0
    &&& m.sender_markup@.len() == 0
    &&& m.reactions_hash == 0
    &&& m.image_url@.len() == 0
    &&& m.reply_label@.len() == 0
    &&& m.media_icon_name@.len() == 0
    &&& m.media_display_label@.len() == 0
    &&& m.media_a11y_label@.len() == 0
    &&& m.media_url_str@.len() == 0
    &&& m.media_filename_str@.len() == 0
    &&& m.media_source_json_str@.len() == 0
}

impl MessageObject {
    pub fn new(
        sender: &str,
        sender_id: &str,
        body: &str,
        formatted_body: &str,
        timestamp: u64,
        event_id: &str,
        reply_to: &str,
        thread_root: &str,
        reactions: &[(String, u64, Vec<String>)],
        media_json: &str,
    ) -> (r: Self)
        ensures
            assembled(
                r,
                sender@,
                sender_id@,
                body@,
                formatted_body@,
                timestamp,
                event_id@,
                reply_to@,
                thread_root@,
                reactions_to_json(reactions_view(reactions@)),
                media_json@,
            ),
    {
        let reactions_json = write_reactions(reactions);
        MessageObject::with_reactions_json(
            sender,
            sender_id,
            body,
            formatted_body,
            timestamp,
            event_id,
            reply_to,
            thread_root,
            reactions_json,
            media_json,
        )
    }

    /// A message whose reactions are JSON text already.
    pub fn with_reactions_json(
        sender: &str,
        sender_id: &str,
        body: &str,
        formatted_body: &str,
        timestamp: u64,
        event_id: &str,
        reply_to: &str,
        thread_root: &str,
        reactions_json: String,
        media_json: &str,
    ) -> (r: Self)
        ensures
            assembled(
                r,
                sender@,
                sender_id@,
                body@,
                formatted_body@,
                timestamp,
                event_id@,
                reply_to@,
                thread_root@,
                reactions_json@,
                media_json@,
            ),
    {
        MessageObject {
            sender: sender.to_owned(),
            sender_id: sender_id.to_owned(),
            body: body.to_owned(),
            timestamp,
            is_highlight: false,
            event_id: event_id.to_owned(),
            reply_to: reply_to.to_owned(),
            reply_to_sender: String::new(),
            thread_root: thread_root.to_owned(),
            reactions_json,
            media_json: media_json.to_owned(),
            formatted_body: formatted_body.to_owned(),
            is_flashing: false,
            is_new_message: false,
            is_system_event: false,
            is_first_unread: false,
            formatted_timestamp: String::new(),
            rendered_markup: String::new(),
            body_hash: 0,
            sender_markup: String::new(),
            reactions_hash: 0,
            image_url: String::new(),
            reply_label: String::new(),
            media_icon_name: String::new(),
            media_display_label: String::new(),
            media_a11y_label: String::new(),
            media_url_str: String::new(),
            media_filename_str: String::new(),
            media_source_json_str: String::new(),
        }
    }

    pub fn sender(&self) -> (r: String)
        ensures
            r == self.sender,
    {
        self.sender.clone()
    }

    pub fn set_sender(&mut self, v: String)
        ensures
            *final(self) == (MessageObject { sender: v, ..*old(self) }),
    {
        self.sender = v;
    }

    pub fn sender_id(&self) -> (r: String)
        ensures
            r == self.sender_id,
    {
        self.sender_id.clone()
    }

    pub fn set_sender_id(&mut self, v: String)
        ensures
            *final(self) == (MessageObject { sender_id: v, ..*old(self) }),
    {
        self.sender_id = v;
    }

    pub fn body(&self) -> (r: String)
        ensures
            r == self.body,
    {
        self.body.clone()
    }

    pub fn set_body(&mut self, v: String)
        ensures
            *final(self) == (MessageObject { body: v, ..*old(self) }),
    {
        self.body = v;
    }

    pub fn timestamp(&self) -> (r: u64)
        ensures
            r == self.timestamp,
    {
        self.timestamp
    }

    pub fn set_timestamp(&mut self, v: u64)
        ensures
            *final(self) == (MessageObject { timestamp: v, ..*old(self) }),
    {
        self.timestamp = v;
    }

    pub fn is_highlight(&self) -> (r: bool)
        ensures
            r == self.is_highlight,
    {
        self.is_highlight
    }

    pub fn set_is_highlight(&mut self, v: bool)
        ensures
            *final(self) == (MessageObject { is_highlight: v, ..*old(self) }),
    {
        self.is_highlight = v;
    }

    pub fn event_id(&self) -> (r: String)
        ensures
            r == self.event_id,
    {
        self.event_id.clone()
    }

    pub fn set_event_id(&mut self, v: String)
        ensures
            *final(self) == (MessageObject { event_id: v, ..*old(self) }),
    {
        self.event_id = v;
    }

    pub fn reply_to(&self) -> (r: String)
        ensures
            r == self.reply_to,
    {
        self.reply_to.clone()
    }

    pub fn set_reply_to(&mut self, v: String)
        ensures
            *final(self) == (MessageObject { reply_to: v, ..*old(self) }),
    {
        self.reply_to = v;
    }

    pub fn reply_to_sender(&self) -> (r: String)
        ensures
            r == self.reply_to_sender,
    {
        self.reply_to_sender.clone()
    }

    pub fn set_reply_to_sender(&mut self, v: String)
        ensures
            *final(self) == (MessageObject { reply_to_sender: v, ..*old(self) }),
    {
        self.reply_to_sender = v;
    }

    pub fn thread_root(&self) -> (r: String)
        ensures
            r == self.thread_root,
    {
        self.thread_root.clone()
    }

    pub fn set_thread_root(&mut self, v: String)
        ensures
            *final(self) == (MessageObject { thread_root: v, ..*old(self) }),
    {
        self.thread_root = v;
    }

    pub fn reactions_json(&self) -> (r: String)
        ensures
            r == self.reactions_json,
    {
        self.reactions_json.clone()
    }

    pub fn media_json(&self) -> (r: String)
        ensures
            r == self.media_json,
    {
        self.media_json.clone()
    }

    pub fn set_media_json(&mut self, v: String)
        ensures
            *final(self) == (MessageObject { media_json: v, ..*old(self) }),
    {
        self.media_json = v;
    }

    pub fn formatted_body(&self) -> (r: String)
        ensures
            r == self.formatted_body,
    {
        self.formatted_body.clone()
    }

    pub fn set_formatted_body(&mut self, v: String)
        ensures
            *final(self) == (MessageObject { formatted_body: v, ..*old(self) }),
    {
        self.formatted_body = v;
    }

    pub fn is_flashing(&self) -> (r: bool)
        ensures
            r == self.is_flashing,
    {
        self.is_flashing
    }

    pub fn set_is_flashing(&mut self, v: bool)
        ensures
            *final(self) == (MessageObject { is_flashing: v, ..*old(self) }),
    {
        self.is_flashing = v;
    }

    pub fn is_new_message(&self) -> (r: bool)
        ensures
            r == self.is_new_message,
    {
        self.is_new_message
    }

    pub fn set_is_new_message(&mut self, v: bool)
        ensures
            *final(self) == (MessageObject { is_new_message: v, ..*old(self) }),
    {
        self.is_new_message = v;
    }

    pub fn is_system_event(&self) -> (r: bool)
        ensures
            r == self.is_system_event,
    {
        self.is_system_event
    }

    pub fn set_is_system_event(&mut self, v: bool)
        ensures
            *final(self) == (MessageObject { is_system_event: v, ..*old(self) }),
    {
        self.is_system_event = v;
    }

    pub fn is_first_unread(&self) -> (r: bool)
        ensures
            r == self.is_first_unread,
    {
        self.is_first_unread
    }

    pub fn set_is_first_unread(&mut self, v: bool)
        ensures
            *final(self) == (MessageObject { is_first_unread: v, ..*old(self) }),
    {
        self.is_first_unread = v;
    }

    pub fn formatted_timestamp(&self) -> (r: String)
        ensures
            r == self.formatted_timestamp,
    {
        self.formatted_timestamp.clone()
    }

    pub fn set_formatted_timestamp(&mut self, v: String)
        ensures
            *final(self) == (MessageObject { formatted_timestamp: v, ..*old(self) }),
    {
        self.formatted_timestamp = v;
    }

    pub fn rendered_markup(&self) -> (r: String)
        ensures
            r == self.rendered_markup,
    {
        self.rendered_markup.clone()
    }

    pub fn set_rendered_markup(&mut self, v: String)
        ensures
            *final(self) == (MessageObject { rendered_markup: v, ..*old(self) }),
    {
        self.rendered_markup = v;
    }

    pub fn body_hash(&self) -> (r: u64)
        ensures
            r == self.body_hash,
    {
        self.body_hash
    }

    pub fn set_body_hash(&mut self, v: u64)
        ensures
            *final(self) == (MessageObject { body_hash: v, ..*old(self) }),
    {
        self.body_hash = v;
    }

    pub fn sender_markup(&self) -> (r: String)
        ensures
            r == self.sender_markup,
    {
        self.sender_markup.clone()
    }

    pub fn set_sender_markup(&mut self, v: String)
        ensures
            *final(self) == (MessageObject { sender_markup: v, ..*old(self) }),
    {
        self.sender_markup = v;
    }

    pub fn reactions_hash(&self) -> (r: u64)
        ensures
            r == self.reactions_hash,
    {
        self.reactions_hash
    }

    pub fn set_reactions_hash(&mut self, v: u64)
        ensures
            *final(self) == (MessageObject { reactions_hash: v, ..*old(self) }),
    {
        self.reactions_hash = v;
    }

    pub fn image_url(&self) -> (r: String)
        ensures
            r == self.image_url,
    {
        self.image_url.clone()
    }

    pub fn set_image_url(&mut self, v: String)
        ensures
            *final(self) == (MessageObject { image_url: v, ..*old(self) }),
    {
        self.image_url = v;
    }

    pub fn reply_label(&self) -> (r: String)
        ensures
            r == self.reply_label,
    {
        self.reply_label.clone()
    }

    pub fn set_reply_label(&mut self, v: String)
        ensures
            *final(self) == (MessageObject { reply_label: v, ..*old(self) }),
    {
        self.reply_label = v;
    }

    pub fn media_icon_name(&self) -> (r: String)
        ensures
            r == self.media_icon_name,
    {
        self.media_icon_name.clone()
    }

    pub fn set_media_icon_name(&mut self, v: String)
        ensures
            *final(self) == (MessageObject { media_icon_name: v, ..*old(self) }),
    {
        self.media_icon_name = v;
    }

    pub fn media_display_label(&self) -> (r: String)
        ensures
            r == self.media_display_label,
    {
        self.media_display_label.clone()
    }

    pub fn set_media_display_label(&mut self, v: String)
        ensures
            *final(self) == (MessageObject { media_display_label: v, ..*old(self) }),
    {
        self.media_display_label = v;
    }

    pub fn media_a11y_label(&self) -> (r: String)
        ensures
            r == self.media_a11y_label,
    {
        self.media_a11y_label.clone()
    }

    pub fn set_media_a11y_label(&mut self, v: String)
        ensures
            *final(self) == (MessageObject { media_a11y_label: v, ..*old(self) }),
    {
        self.media_a11y_label = v;
    }

    pub fn media_url_str(&self) -> (r: String)
        ensures
            r == self.media_url_str,
    {
        self.media_url_str.clone()
    }

    pub fn set_media_url_str(&mut self, v: String)
        ensures
            *final(self) == (MessageObject { media_url_str: v, ..*old(self) }),
    {
        self.media_url_str = v;
    }

    pub fn media_filename_str(&self) -> (r: String)
        ensures
            r == self.media_filename_str,
    {
        self.media_filename_str.clone()
    }

    pub fn set_media_filename_str(&mut self, v: String)
        ensures
            *final(self) == (MessageObject { media_filename_str: v, ..*old(self) }),
    {
        self.media_filename_str = v;
    }

    pub fn media_source_json_str(&self) -> (r: String)
        ensures
            r == self.media_source_json_str,
    {
        self.media_source_json_str.clone()
    }

    pub fn set_media_source_json_str(&mut self, v: String)
        ensures
            *final(self) == (MessageObject { media_source_json_str: v, ..*old(self) }),
    {
        self.media_source_json_str = v;
    }

    /// Sets the reactions and their hash together, so that the hash always
    /// belongs to the JSON.
    pub fn update_reactions_json(&mut self, json: String)
        ensures
            *final(self) == (MessageObject {
                reactions_json: json,
                reactions_hash: fnv1a(vstd::utf8::encode_utf8(json@)),
                ..*old(self)
            }),
    {
        let h: u64 = fnv1a_str(json.as_str());
        self.reactions_json = json;
        self.reactions_hash = h;
    }
}

/// A message holds the parts that it was made of.
pub proof fn law_parts_are_kept(
    m: MessageObject,
    sender: Seq<char>,
    sender_id: Seq<char>,
    body: Seq<char>,
    formatted_body: Seq<char>,
    timestamp: u64,
    event_id: Seq<char>,
    reply_to: Seq<char>,
    thread_root: Seq<char>,
    reactions_json: Seq<char>,
    media_json: Seq<char>,
)
    requires
        assembled(
            m,
            sender,
            sender_id,
            body,
            formatted_body,
            timestamp,
            event_id,
            reply_to,
            thread_root,
            reactions_json,
            media_json,
        ),
    ensures
        m.sender@ == sender && m.sender_id@ == sender_id,
        m.body@ == body && m.formatted_body@ == formatted_body,
        m.timestamp == timestamp && m.event_id@ == event_id,
        m.reply_to@ == reply_to && m.thread_root@ == thread_root,
        m.reactions_json@ == reactions_json && m.media_json@ == media_json,
        !m.is_highlight && !m.is_flashing && !m.is_new_message,
        !m.is_system_event && !m.is_first_unread,
{
}

} // verus!
