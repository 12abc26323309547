//! One entry of the notification list.

use vstd::prelude::*;

verus! {

/// A mention or a direct message that the user was notified of.
#[derive(Debug)]
pub struct NotificationObject {
    pub room_id: String,
    pub event_id: String,
    pub sender: String,
    pub room_name: String,
    pub body: String,
    /// Unix time in seconds.
    pub timestamp: u64,
    /// False until the user opens the notification.
    pub is_read: bool,
}

impl NotificationObject {
    pub fn new(
        room_id: &str,
        event_id: &str,
        sender: &str,
        room_name: &str,
        body: &str,
        timestamp: u64,
    ) -> (r: Self)
        ensures
            r.room_id@ == room_id@,
            r.event_id@ == event_id@,
            r.sender@ == sender@,
            r.room_name@ == room_name@,
            r.body@ == body@,
            r.timestamp == timestamp,
            !r.is_read,
    {
        NotificationObject {
            room_id: room_id.to_owned(),
            event_id: event_id.to_owned(),
            sender: sender.to_owned(),
            room_name: room_name.to_owned(),
            body: body.to_owned(),
            timestamp,
            is_read: false,
        }
    }
}

} // verus!
