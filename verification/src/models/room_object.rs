//! One row of the room list.

use vstd::prelude::*;

verus! {

/// A room, or a section header, as the room list shows it.
#[derive(Debug)]
pub struct RoomObject {
    pub room_id: String,
    pub name: String,
    pub unread_count: u32,
    pub last_activity_ts: u64,
    pub topic_summary: String,
    /// "dm", "room" or "space".
    pub kind: String,
    pub is_encrypted: bool,
    /// Name of the parent space, or empty.
    pub parent_space: String,
    pub is_pinned: bool,
    /// Whether this row is a section header and no room.
    pub is_header: bool,
}

impl RoomObject {
    pub fn new(
        room_id: &str,
        name: &str,
        kind: &str,
        is_encrypted: bool,
        parent_space: &str,
        is_pinned: bool,
    ) -> (r: Self)
        ensures
            r.room_id@ == room_id@,
            r.name@ == name@,
            r.kind@ == kind@,
            r.is_encrypted == is_encrypted,
            r.parent_space@ == parent_space@,
            r.is_pinned == is_pinned,
            r.unread_count == 0,
            r.last_activity_ts == 0,
            r.topic_summary@.len() == 0,
            !r.is_header,
    {
        RoomObject {
            room_id: room_id.to_owned(),
            name: name.to_owned(),
            unread_count: 0,
            last_activity_ts: 0,
            topic_summary: String::new(),
            kind: kind.to_owned(),
            is_encrypted,
            parent_space: parent_space.to_owned(),
            is_pinned,
            is_header: false,
        }
    }

    /// A section header with the given title.
    pub fn new_header(title: &str) -> (r: Self)
        ensures
            r.name@ == title@,
            r.is_header,
            r.room_id@.len() == 0,
            r.kind@.len() == 0,
            !r.is_encrypted,
            r.parent_space@.len() == 0,
            !r.is_pinned,
            r.unread_count == 0,
            r.last_activity_ts == 0,
            r.topic_summary@.len() == 0,
    {
        RoomObject {
            room_id: String::new(),
            name: title.to_owned(),
            unread_count: 0,
            last_activity_ts: 0,
            topic_summary: String::new(),
            kind: String::new(),
            is_encrypted: false,
            parent_space: String::new(),
            is_pinned: false,
            is_header: true,
        }
    }
}

} // verus!
