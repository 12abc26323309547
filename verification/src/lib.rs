//! Hikyaku: the verified core of a Matrix chat client.

pub mod avatar_worker;
pub mod bookmarks;
pub mod calendar;
pub mod config;
pub mod directory;
pub mod dispatch;
pub mod intelligence;
pub mod json;
pub mod local_unread;
pub mod markdown;
pub mod markup_worker;
pub mod matrix;
pub mod models;
pub mod order;
pub mod perf;
pub mod queue;
pub mod table;
pub mod text;
pub mod uri;
