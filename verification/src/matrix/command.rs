//! What the user interface asks of the protocol thread.

use vstd::prelude::*;

verus! {

/// Commands for the protocol thread.
#[derive(Debug, Clone)]
pub enum MatrixCommand {
    Login {
        homeserver: String,
        username: String,
        password: String,
    },
    SelectRoom {
        room_id: String,
        /// Unread count read from the UI badge before clear_unread() zeroed it.
        /// Used as a floor for quick_meta when the SDK store returns 0 pre-sync.
        known_unread: u32,
    },
    /// Re-fetch a room's messages without changing any UI state.
    /// Used after a sync gap to fill in events missed by the limited timeline.
    RefreshRoom { room_id: String },
    SendMessage {
        room_id: String,
        body: String,
        /// HTML formatted body (if markdown mode is on).
        formatted_body: Option<String>,
        /// Event ID to reply to (if replying).
        reply_to: Option<String>,
        /// Original sender + body for quote fallback (if replying).
        quote_text: Option<(String, String)>,
        /// True when the body was entered with `/me` or `:` prefix - sends m.emote.
        is_emote: bool,
        /// Matrix user IDs (@user:server) mentioned via nick completion.
        mentioned_user_ids: Vec<String>,
    },
    /// Send an emoji reaction to a message.
    SendReaction {
        room_id: String,
        event_id: String,
        emoji: String,
    },
    /// Accept an incoming verification request and start SAS.
    AcceptVerification { flow_id: String },
    /// Confirm that the displayed emojis match.
    ConfirmVerification { flow_id: String },
    /// Cancel a verification.
    CancelVerification { flow_id: String },
    /// Request verification of our own device from another session.
    RequestSelfVerification,
    /// Fetch older messages for a room (pagination).
    FetchOlderMessages {
        room_id: String,
        from_token: String,
    },
    /// Import secrets using a recovery key or passphrase.
    RecoverKeys { recovery_key: String },
    /// Fetch public room directory. `server` overrides the homeserver to query.
    BrowsePublicRooms { search_term: Option<String>, spaces_only: bool, server: Option<String> },
    /// Fetch the room directory for a space.
    BrowseSpaceRooms { space_id: String },
    /// Join a room by ID or alias.
    JoinRoom { room_id_or_alias: String, via_servers: Vec<String> },
    /// Delete (redact) a message.
    RedactMessage { room_id: String, event_id: String },
    /// Edit a message (send replacement).
    EditMessage { room_id: String, event_id: String, new_body: String, new_formatted_body: Option<String> },
    /// Upload and send a media file.
    SendMedia { room_id: String, file_path: String },
    /// Download media and open with system viewer.
    DownloadMedia { url: String, filename: String, source_json: String },
    /// Fetch and cache a member's avatar. No-op if already cached on disk.
    FetchAvatar { user_id: String, mxc_url: String },
    /// Fetch and cache a room's avatar. No-op if already cached on disk.
    FetchRoomAvatar { room_id: String, mxc_url: String },
    /// Toggle bookmark (m.favourite tag) on a room.
    SetFavourite { room_id: String, is_favourite: bool },
    /// Accept a room invitation.
    AcceptInvite { room_id: String },
    /// Decline a room invitation.
    DeclineInvite { room_id: String },
    /// Leave a room.
    LeaveRoom { room_id: String },
    /// Invite a Matrix user to a room.
    InviteUser { room_id: String, user_id: String },
    /// Search the homeserver user directory by display name or Matrix ID prefix.
    SearchUsers { query: String },
    /// Send read receipt for the latest message in a room.
    MarkRead { room_id: String },
    /// Open or create a DM with a user. Finds existing DM room or creates one.
    CreateDm { user_id: String },
    /// Send typing indicator to the current room.
    TypingNotice { room_id: String, typing: bool },
    /// Fetch thread replies for a message.
    FetchThreadReplies { room_id: String, thread_root_id: String },
    /// Log out: deactivate the access token, wipe local data, and restart at login.
    Logout,
    /// Download room keys directly from whichever backup version the SSSS
    /// decryption key (already in SQLite after a successful recover() call)
    /// actually belongs to. This tries backup versions descending from the
    /// current one until it finds one whose keys decrypt correctly.
    DownloadFromSsssBackup,
    /// Import session keys from an Element-exported key file.
    ImportRoomKeys { path: String, passphrase: String },
    /// Export room metrics (moderation events + activity) to CSV.
    ExportRoomMetrics { room_id: String, days: u32 },
    /// Fetch up to `limit` recent messages for a room and write them to `path` as JSONL.
    ExportMessages { room_id: String, path: String, limit: u32 },
    /// Fetch recent messages for the hover-preview AI summary and run Ollama inference.
    /// `unread_count` > 0 means only the last N unread messages should be summarised.
    FetchRoomPreview {
        room_id: String,
        unread_count: u32,
        ollama_endpoint: String,
        ollama_model: String,
        extra_instructions: String,
    },
    /// Abort any in-flight AI room preview request (sent when the user cancels).
    CancelRoomPreview,
    /// Run Ollama inference for metrics summary on the tokio thread.
    RunOllamaMetrics {
        prompt: String,
        endpoint: String,
        model: String,
    },
    /// Preload the Ollama model in the background so the first inference is fast.
    WarmupOllama { endpoint: String, model: String },
    /// Fetch event context so the UI can jump to a specific event in the timeline.
    SeekToEvent {
        room_id: String,
        event_id: String,
    },
    /// Drain the command queue and then signal the sync loop to stop.
    /// Must be sent LAST by the application - all preceding commands run first.
    Shutdown,
    /// Register a new account on a homeserver.
    Register {
        homeserver: String,
        username: String,
        password: String,
        display_name: String,
        email: String,
    },
}

} // verus!
