//! The Matrix protocol side: records, commands, events and their transport.

pub mod command;
pub mod content;
pub mod encryption;
pub mod event;
pub mod event_channel;
pub mod export;
pub mod history;
pub mod ids;
pub mod info;
pub mod listing;
pub mod media;
pub mod metrics;
pub mod preview;
pub mod refresh;
pub mod requests;
pub mod room_cache;
pub mod rooms;
pub mod select;
pub mod session;
pub mod sync;
pub mod timestamps;
pub mod unread;
pub mod verification;
