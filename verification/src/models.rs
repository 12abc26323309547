//! The objects that the user interface lists and binds to.

pub mod message_object;
pub mod notification_object;
pub mod rolodex_entry_object;
pub mod room_object;
pub mod timeline;
