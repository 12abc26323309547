//! What the protocol thread tells the user interface.

use vstd::prelude::*;
use crate::matrix::event_channel::EventClass;
use crate::matrix::info::{MessageInfo, RoomInfo, RoomMeta, SpaceDirectoryRoom, VerificationEmoji};

verus! {

/// Events for the user interface.
#[derive(Debug, Clone)]
pub enum MatrixEvent {
    /// No saved session found - show the login page.
    LoginRequired,
    LoginSuccess { display_name: String, user_id: String, from_registration: bool, is_fresh_login: bool },
    LoginFailed { error: String },
    SyncStarted,
    SyncError { error: String },
    RoomListUpdated { rooms: Vec<RoomInfo> },
    /// Sent when a background refresh starts for a room that already has stale
    /// cached messages displayed.  The UI should show a loading indicator until
    /// the matching `RoomMessages` arrives.
    BgRefreshStarted { room_id: String },
    RoomMessages {
        room_id: String,
        messages: Vec<MessageInfo>,
        /// Pagination token - pass to FetchOlderMessages to get the next batch.
        prev_batch_token: Option<String>,
        /// Room metadata for the content header.
        room_meta: RoomMeta,
        /// True when sent from bg_refresh (server fetch).  Window defers the
        /// set_messages splice to an idle so it doesn't block the GTK frame.
        is_background: bool,
    },
    /// Older messages prepended at the top (pagination result).
    OlderMessages {
        room_id: String,
        messages: Vec<MessageInfo>,
        prev_batch_token: Option<String>,
    },
    /// Result of a SeekToEvent - events around the target, for replacing the timeline.
    SeekResult {
        room_id: String,
        /// The event the user wanted to jump to.
        target_event_id: String,
        /// Events in chronological order (before + target + after), ready to display.
        messages: Vec<MessageInfo>,
        /// Pagination token for loading events older than this window.
        before_token: Option<String>,
    },
    NewMessage {
        room_id: String,
        room_name: String,
        sender_id: String,
        message: MessageInfo,
        is_mention: bool,
        is_dm: bool,
    },
    /// An incoming verification request - show UI to accept.
    VerificationRequest {
        flow_id: String,
        other_user: String,
        other_device: String,
    },
    /// SAS emojis to display for user confirmation.
    VerificationEmojis {
        flow_id: String,
        emojis: Vec<VerificationEmoji>,
    },
    /// Verification completed successfully.
    VerificationDone { flow_id: String },
    /// Our device is not verified - user should verify to decrypt messages.
    DeviceUnverified,
    /// Verification was cancelled.
    VerificationCancelled { flow_id: String, reason: String },
    /// Recovery has started - show a spinner/toast immediately.
    RecoveryStarted,
    /// Recovery key import succeeded.
    /// `backup_connected` is true if the backup is now active and keys can be downloaded.
    RecoveryComplete { backup_connected: bool },
    /// Recovery key import failed.
    RecoveryFailed { error: String },
    /// Local backup version is stale (doesn't match the server).
    /// User must delete local data and re-link via Recover Keys.
    BackupVersionMismatch,
    /// The stale empty backup we created has been deleted from the server.
    /// The original backup is now current - user should click Recover Keys again.
    StaleBackupDeleted,
    /// Cross-signing keys were successfully bootstrapped for a brand-new account.
    CrossSigningBootstrapped,
    /// Cross-signing requires UIAA but no password was available (restored session,
    /// account never completed initial setup).  User should re-login to fix this.
    CrossSigningNeedsPassword,
    /// Public room directory from the homeserver.
    PublicRoomDirectory {
        title: String,
        rooms: Vec<SpaceDirectoryRoom>,
    },
    /// Space directory rooms for the "Join Room" browser.
    SpaceDirectory {
        space_id: String,
        rooms: Vec<SpaceDirectoryRoom>,
    },
    /// Space listings from a server's public directory (spaces_only browse).
    PublicSpacesForServer {
        server: String,
        rooms: Vec<SpaceDirectoryRoom>,
    },
    /// Media downloaded to a temp file - show preview.
    MediaReady { url: String, path: String },
    /// A member avatar has been downloaded and is available at `path`.
    AvatarReady { user_id: String, path: String },
    /// A room avatar has been downloaded and is available at `path`.
    RoomAvatarReady { room_id: String, path: String },
    /// A message we sent has been confirmed by the server with a real event_id.
    MessageSent { room_id: String, echo_body: String, event_id: String },
    /// Reactions on a message were updated.
    ReactionUpdate { room_id: String, event_id: String, reactions: Vec<(String, u64, Vec<String>)> },
    /// Someone reacted to one of our messages - fire a toast / desktop notif.
    ReactionNotification { room_id: String, room_name: String, reactor: String, emoji: String },
    /// A message was edited.
    MessageEdited { room_id: String, event_id: String, new_body: String, formatted_body: Option<String> },
    /// A message was redacted (deleted).
    MessageRedacted { room_id: String, event_id: String },
    /// Successfully joined a room.
    RoomJoined { room_id: String, room_name: String },
    /// Failed to join a room.
    JoinFailed { error: String },
    /// Successfully left a room.
    RoomLeft { room_id: String },
    /// Failed to leave a room.
    LeaveFailed { error: String },
    /// Successfully invited a user to a room.
    InviteSuccess { user_id: String },
    /// Failed to invite a user to a room.
    InviteFailed { error: String },
    /// The local user was invited to a room by someone else.
    RoomInvited { room_id: String, room_name: String, inviter_name: String },
    /// DM room is ready - navigate to it.
    DmReady { user_id: String, room_id: String, room_name: String },
    /// Results from a user directory search (display_name, user_id).
    UserSearchResults { results: Vec<(String, String)> },
    /// Users currently typing in a room.
    TypingUsers { room_id: String, names: Vec<String> },
    /// A sync gap was detected - the room's timeline was limited.
    /// The UI should re-fetch messages for this room if it's currently selected.
    SyncGap { room_id: String },
    /// Thread replies fetched - display in sidebar.
    ThreadReplies {
        room_id: String,
        thread_root_id: String,
        root_message: Option<MessageInfo>,
        replies: Vec<MessageInfo>,
    },
    /// Failed to create/find DM.
    DmFailed { error: String },
    /// Logged out - session wiped, show login page.
    LoggedOut,
    /// Room topic changed (MOTD plugin).
    TopicChanged { room_id: String, new_topic: String },
    /// New room keys arrived (from backup retry or key forwarding).
    /// Re-fetch any of these rooms if currently visible.
    RoomKeysReceived { room_ids: Vec<String> },
    /// Account registration succeeded.
    RegistrationSuccess { display_name: String, user_id: String },
    /// Account registration failed.
    RegistrationFailed { error: String },
    /// Recovery key was generated for a new account.
    RecoveryKeyGenerated { key: String },
    /// Key file import result.
    KeysImported { imported: u64, total: u64 },
    KeyImportFailed { error: String },
    /// Metrics export complete - path to the CSV file.
    MetricsReady { path: String, event_count: usize, metrics_text: String },
    /// Metrics export failed.
    MetricsFailed { error: String },
    /// Message export (JSONL) complete.
    MessagesExported { path: String, count: usize },
    /// Message export failed.
    MessagesExportFailed { error: String },
    /// Recent messages for the hover-preview AI summary.
    /// `is_unread` is true when the text contains only the unread window.
    RoomPreview { room_id: String, messages_text: String, is_unread: bool },
    /// Streaming chunk from Ollama inference (room preview or metrics summary).
    /// `done=true` signals the final chunk. On error, `text` is empty and `done=true`.
    OllamaChunk { context: String, chunk: String, done: bool },
    /// A watch term semantically matched a new message in this room.
    RoomAlert { room_id: String, room_name: String, matched_term: String },
    /// Community health score updated for a room (community-health plugin).
    HealthUpdate {
        room_id: String,
        /// +1 improving, 0 stable, -1 declining.
        trend: i8,
    },
    /// A message body was converted to markup in the background.
    MarkupRendered { id: u64, markup: String },
    /// A room was fetched ahead of being opened.
    RoomPrefetched { room_id: String },
    /// An alias was resolved to a room.
    AliasInfoResolved { alias: String, room_id: String, name: String },
    /// A request to be let into a room was sent.
    KnockSent { room_id: String },
    /// A request to be let into a room failed.
    KnockFailed { error: String },
    /// Someone asks to be let into a room.
    KnockReceived { room_id: String, user_id: String },
    /// Results of a message search.
    SearchResults { query: String, messages: Vec<MessageInfo> },
    /// A message search failed.
    SearchFailed { error: String },
    /// The user's own avatar changed.
    OwnAvatarUpdated { path: String },
}

/// The class of an event.
pub open spec fn class_of(e: MatrixEvent) -> EventClass {
    match e {
        MatrixEvent::MediaReady { .. }
        | MatrixEvent::AvatarReady { .. }
        | MatrixEvent::RoomAvatarReady { .. }
        | MatrixEvent::MarkupRendered { .. }
        | MatrixEvent::ThreadReplies { .. }
        | MatrixEvent::SearchResults { .. }
        | MatrixEvent::SearchFailed { .. }
        | MatrixEvent::UserSearchResults { .. }
        | MatrixEvent::PublicRoomDirectory { .. }
        | MatrixEvent::SpaceDirectory { .. }
        | MatrixEvent::PublicSpacesForServer { .. }
        | MatrixEvent::OwnAvatarUpdated { .. }
        | MatrixEvent::MessagesExported { .. }
        | MatrixEvent::MessagesExportFailed { .. }
        | MatrixEvent::MetricsReady { .. }
        | MatrixEvent::MetricsFailed { .. }
        | MatrixEvent::RoomPreview { .. } => EventClass::Bulk,
        MatrixEvent::ReactionNotification { .. }
        | MatrixEvent::TypingUsers { .. }
        | MatrixEvent::TopicChanged { .. }
        | MatrixEvent::OllamaChunk { .. }
        | MatrixEvent::RoomAlert { .. }
        | MatrixEvent::HealthUpdate { .. } => EventClass::Plugin,
        _ => EventClass::Critical,
    }
}

impl MatrixEvent {
    /// Priority class for delivery. Every variant is listed, so that a new one
    /// has to be classified.
    pub fn class(&self) -> (r: EventClass)
        ensures
            r == class_of(*self),
    {
        match self {
            MatrixEvent::LoginRequired
            | MatrixEvent::LoginSuccess { .. }
            | MatrixEvent::LoginFailed { .. }
            | MatrixEvent::LoggedOut
            | MatrixEvent::SyncStarted
            | MatrixEvent::SyncError { .. }
            | MatrixEvent::SyncGap { .. }
            | MatrixEvent::RoomListUpdated { .. }
            | MatrixEvent::BgRefreshStarted { .. }
            | MatrixEvent::RoomMessages { .. }
            | MatrixEvent::OlderMessages { .. }
            | MatrixEvent::SeekResult { .. }
            | MatrixEvent::NewMessage { .. }
            | MatrixEvent::MessageSent { .. }
            | MatrixEvent::MessageEdited { .. }
            | MatrixEvent::MessageRedacted { .. }
            | MatrixEvent::ReactionUpdate { .. }
            | MatrixEvent::VerificationRequest { .. }
            | MatrixEvent::VerificationEmojis { .. }
            | MatrixEvent::VerificationDone { .. }
            | MatrixEvent::VerificationCancelled { .. }
            | MatrixEvent::DeviceUnverified
            | MatrixEvent::RecoveryStarted
            | MatrixEvent::RecoveryComplete { .. }
            | MatrixEvent::RecoveryFailed { .. }
            | MatrixEvent::BackupVersionMismatch
            | MatrixEvent::StaleBackupDeleted
            | MatrixEvent::CrossSigningBootstrapped
            | MatrixEvent::CrossSigningNeedsPassword
            | MatrixEvent::RecoveryKeyGenerated { .. }
            | MatrixEvent::KeysImported { .. }
            | MatrixEvent::KeyImportFailed { .. }
            | MatrixEvent::RoomKeysReceived { .. }
            | MatrixEvent::RegistrationSuccess { .. }
            | MatrixEvent::RegistrationFailed { .. }
            | MatrixEvent::RoomJoined { .. }
            | MatrixEvent::JoinFailed { .. }
            | MatrixEvent::RoomLeft { .. }
            | MatrixEvent::LeaveFailed { .. }
            | MatrixEvent::InviteSuccess { .. }
            | MatrixEvent::InviteFailed { .. }
            | MatrixEvent::RoomInvited { .. }
            | MatrixEvent::KnockSent { .. }
            | MatrixEvent::KnockFailed { .. }
            | MatrixEvent::KnockReceived { .. }
            | MatrixEvent::DmReady { .. }
            | MatrixEvent::DmFailed { .. }
            | MatrixEvent::RoomPrefetched { .. }
            | MatrixEvent::AliasInfoResolved { .. } => EventClass::Critical,
            MatrixEvent::MediaReady { .. }
            | MatrixEvent::AvatarReady { .. }
            | MatrixEvent::RoomAvatarReady { .. }
            | MatrixEvent::MarkupRendered { .. }
            | MatrixEvent::ThreadReplies { .. }
            | MatrixEvent::SearchResults { .. }
            | MatrixEvent::SearchFailed { .. }
            | MatrixEvent::UserSearchResults { .. }
            | MatrixEvent::PublicRoomDirectory { .. }
            | MatrixEvent::SpaceDirectory { .. }
            | MatrixEvent::PublicSpacesForServer { .. }
            | MatrixEvent::OwnAvatarUpdated { .. }
            | MatrixEvent::MessagesExported { .. }
            | MatrixEvent::MessagesExportFailed { .. }
            | MatrixEvent::MetricsReady { .. }
            | MatrixEvent::MetricsFailed { .. }
            | MatrixEvent::RoomPreview { .. } => EventClass::Bulk,
            MatrixEvent::ReactionNotification { .. }
            | MatrixEvent::TypingUsers { .. }
            | MatrixEvent::TopicChanged { .. }
            | MatrixEvent::OllamaChunk { .. }
            | MatrixEvent::RoomAlert { .. }
            | MatrixEvent::HealthUpdate { .. } => EventClass::Plugin,
        }
    }
}

} // verus!
