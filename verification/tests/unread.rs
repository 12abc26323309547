//! Unread counts.

use hikyaku::matrix::info::{MessageInfo, RoomInfo, RoomKind};
use hikyaku::matrix::unread::{
    compute_enter_unread, divider_position, merge_disk_unread_counts, resolve_unread, should_skip_render,
};
use hikyaku::table::Table;

fn counts<const N: usize>(rows: [(String, (u64, u64)); N]) -> Table<(u64, u64)> {
    let mut t = Table::new();
    for (id, c) in rows {
        t.insert(id, c);
    }
    t
}

fn make_room(room_id: &str, unread: u64, highlight: u64) -> RoomInfo {
    RoomInfo {
        room_id: room_id.to_string(),
        name: room_id.to_string(),
        last_activity_ts: 0,
        kind: RoomKind::Room,
        is_encrypted: false,
        parent_space: None,
        parent_space_id: String::new(),
        is_pinned: false,
        unread_count: unread,
        highlight_count: highlight,
        is_admin: false,
        is_tombstoned: false,
        is_favourite: false,
        avatar_url: String::new(),
        topic: String::new(),
    }
}

/// SDK returns 0 pre-sync; disk cache has correct non-zero count.
/// merge must preserve the disk-cached badge.
#[test]
fn merge_preserves_disk_badge_when_sdk_returns_zero() {
    let mut rooms = vec![make_room("!r:m.org", 0, 0)];
    let disk = counts([("!r:m.org".to_string(), (5u64, 2u64))]);
    merge_disk_unread_counts(&mut rooms, &disk);
    assert_eq!(rooms[0].unread_count, 5, "badge should come from disk cache");
    assert_eq!(rooms[0].highlight_count, 2);
}

/// SDK returns a fresher, higher count than disk cache.
/// merge must keep the SDK value.
#[test]
fn merge_keeps_sdk_value_when_higher_than_disk() {
    let mut rooms = vec![make_room("!r:m.org", 8, 3)];
    let disk = counts([("!r:m.org".to_string(), (5u64, 1u64))]);
    merge_disk_unread_counts(&mut rooms, &disk);
    assert_eq!(rooms[0].unread_count, 8);
    assert_eq!(rooms[0].highlight_count, 3);
}

/// Room that user had already read: both SDK and disk show 0.
/// merge must leave it at 0 — no phantom badge.
#[test]
fn merge_leaves_zero_for_rooms_user_already_read() {
    let mut rooms = vec![make_room("!r:m.org", 0, 0)];
    let disk = counts([("!r:m.org".to_string(), (0u64, 0u64))]);
    merge_disk_unread_counts(&mut rooms, &disk);
    assert_eq!(rooms[0].unread_count, 0);
}

/// Room not present in disk cache (new room joined this session).
/// merge must not touch it.
#[test]
fn merge_leaves_new_rooms_unchanged() {
    let mut rooms = vec![make_room("!new:m.org", 3, 0)];
    let disk = counts([]);
    merge_disk_unread_counts(&mut rooms, &disk);
    assert_eq!(rooms[0].unread_count, 3);
}

/// Scenario: user quit with 3 unread rooms; SDK returns 0 pre-sync.
/// All three badges must survive the pre-sync save.
#[test]
fn merge_preserves_multiple_rooms_on_restart() {
    let mut rooms = vec![
        make_room("!a:m.org", 0, 0),
        make_room("!b:m.org", 0, 0),
        make_room("!c:m.org", 2, 0),
    ];
    let disk = counts([("!a:m.org".to_string(), (4u64, 1u64)),
        ("!b:m.org".to_string(), (7u64, 2u64)),
        ("!c:m.org".to_string(), (1u64, 0u64)),
    ]);
    merge_disk_unread_counts(&mut rooms, &disk);
    assert_eq!(rooms[0].unread_count, 4, "room a: disk badge preserved");
    assert_eq!(rooms[1].unread_count, 7, "room b: disk badge preserved");
    assert_eq!(rooms[2].unread_count, 2, "room c: SDK value kept (higher)");
}


/// After the user opens a room, its disk entry is 0.
/// A subsequent merge-save must leave it at 0 (no badge resurrection).
#[test]
fn merge_after_zero_does_not_resurrect_badge() {
    // Simulate disk after zero_room_unread_in_disk_cache ran.
    let disk_after_zero = counts([("!r:m.org".to_string(), (0u64, 0u64))]);

    // SDK also returns 0 (room was read, server agrees).
    let mut rooms = vec![make_room("!r:m.org", 0, 0)];
    merge_disk_unread_counts(&mut rooms, &disk_after_zero);
    assert_eq!(rooms[0].unread_count, 0, "zeroed room must stay 0 after merge");
}

/// Room the user never opened keeps its disk badge across a merge-save
/// even when the SDK returns 0 (push rules may not fire for this room).
#[test]
fn merge_preserves_badge_for_unvisited_room_across_60s_sync() {
    // Disk still has the badge (user never opened the room).
    let disk = counts([("!r:m.org".to_string(), (5u64, 1u64))]);

    // SDK returns 0 — push rules didn't fire.
    let mut rooms = vec![make_room("!r:m.org", 0, 0)];
    merge_disk_unread_counts(&mut rooms, &disk);
    assert_eq!(rooms[0].unread_count, 5, "unvisited room badge must survive merge");
    assert_eq!(rooms[0].highlight_count, 1);
}

/// Mixed scenario: user opened room A (disk zeroed) but not room B.
/// merge-save must zero A and preserve B.
#[test]
fn merge_zeros_opened_room_preserves_unopened() {
    let disk = counts([("!a:m.org".to_string(), (0u64, 0u64)), // zeroed by SelectRoom
        ("!b:m.org".to_string(), (9u64, 3u64)), // not opened
    ]);

    let mut rooms = vec![
        make_room("!a:m.org", 0, 0),
        make_room("!b:m.org", 0, 0),
    ];
    merge_disk_unread_counts(&mut rooms, &disk);
    assert_eq!(rooms[0].unread_count, 0, "opened room must stay 0");
    assert_eq!(rooms[1].unread_count, 9, "unopened room badge must be preserved");
    assert_eq!(rooms[1].highlight_count, 3);
}

/// Quit → restart cycle: badges that were non-zero before quit must
/// survive through startup merge AND first-sync merge.
#[test]
fn badges_survive_quit_restart_two_merge_passes() {
    // Step 1: disk before restart has correct badges.
    let disk_before_restart = counts([("!x:m.org".to_string(), (4u64, 0u64)),
    ]);

    // Step 2: startup merge (SDK returns 0 pre-sync).
    let mut rooms = vec![make_room("!x:m.org", 0, 0)];
    merge_disk_unread_counts(&mut rooms, &disk_before_restart);
    assert_eq!(rooms[0].unread_count, 4, "startup merge must preserve badge");

    // Save to disk (simulated — disk now has 4).
    let disk_after_startup_save = counts([("!x:m.org".to_string(), (rooms[0].unread_count, rooms[0].highlight_count)),
    ]);

    // Step 3: first-sync merge (SDK still returns 0).
    let mut rooms2 = vec![make_room("!x:m.org", 0, 0)];
    merge_disk_unread_counts(&mut rooms2, &disk_after_startup_save);
    assert_eq!(rooms2[0].unread_count, 4, "first-sync merge must preserve badge");

    // Step 4: 60s sync merge (SDK still returns 0).
    let disk_after_first_sync = counts([("!x:m.org".to_string(), (rooms2[0].unread_count, rooms2[0].highlight_count)),
    ]);
    let mut rooms3 = vec![make_room("!x:m.org", 0, 0)];
    merge_disk_unread_counts(&mut rooms3, &disk_after_first_sync);
    assert_eq!(rooms3[0].unread_count, 4, "60s-sync merge must preserve badge");
}

/// SDK returns 0 pre-sync; UI badge was 3 → divider should be at n-3.
#[test]
fn sdk_zero_known_three_uses_known() {
    assert_eq!(resolve_unread(0, 3), 3);
}

/// SDK returns the authoritative count (post-sync); higher than badge → use SDK.
#[test]
fn sdk_higher_than_known_uses_sdk() {
    assert_eq!(resolve_unread(5, 3), 5);
}

/// SDK equals known → no change.
#[test]
fn sdk_equals_known_unchanged() {
    assert_eq!(resolve_unread(3, 3), 3);
}

/// Both zero — user already read room, no divider needed.
#[test]
fn both_zero_stays_zero() {
    assert_eq!(resolve_unread(0, 0), 0);
}

/// Scenario: restart with N=3 unread badges intact, then user enters room.
///
/// known_unread = 3 (from registry before clear_unread)
/// sdk_unread   = 0 (SDK store not yet populated post-sync)
///
/// Expected divider position (10 messages): 10 - 3 = 7.
#[test]
fn scenario_enter_room_after_restart_divider_at_correct_position() {
    let known_unread = 3u32;
    let sdk_unread   = 0u32;
    let effective = resolve_unread(sdk_unread, known_unread);
    assert_eq!(effective, 3);

    let n_messages = 10usize;
    let divider_pos = divider_position(n_messages, effective);
    assert_eq!(divider_pos, 7, "divider must be 3 messages from the end");
}

/// Scenario: normal run (not restart), SDK has correct count, known matches.
///
/// sdk_unread=2, known_unread=2 → divider at n-2 regardless of which we use.
#[test]
fn scenario_normal_run_sdk_and_known_agree() {
    let effective = resolve_unread(2, 2);
    assert_eq!(effective, 2);
    let divider_pos = divider_position(10usize, effective);
    assert_eq!(divider_pos, 8);
}

/// Scenario: new messages arrived while app was closed.
///
/// Disk cache saved 0 (rooms were read before quit).  After first sync the
/// SDK returns 4 — known_unread from disk badge was 0 but SDK is now higher.
#[test]
fn scenario_new_messages_arrived_while_closed_sdk_wins() {
    // After first sync completes, sdk_unread is authoritative.
    let effective = resolve_unread(4, 0);
    assert_eq!(effective, 4, "post-sync SDK count must not be suppressed by known=0");
}

fn msg(id: &str) -> MessageInfo {
    MessageInfo {
        sender: String::new(),
        sender_id: String::new(),
        body: String::new(),
        formatted_body: None,
        timestamp: 0,
        event_id: id.to_string(),
        reply_to: None,
        reply_to_sender: None,
        thread_root: None,
        reactions: vec![],
        media: None,
        is_highlight: false,
        is_system_event: false,
    }
}

fn msgs(ids: &[&str]) -> Vec<MessageInfo> {
    ids.iter().map(|id| msg(id)).collect()
}

/// fully_read is the 3rd of 5 messages → 2 new messages after it.
#[test]
fn fully_read_in_window_counts_messages_after() {
    let ms = msgs(&["$e0", "$e1", "$e2", "$e3", "$e4"]);
    assert_eq!(compute_enter_unread(&ms, Some("$e2"), 0, 0), 2);
}

/// fully_read is the last message → 0 new messages.
#[test]
fn fully_read_is_last_message_zero_unread() {
    let ms = msgs(&["$e0", "$e1", "$e2"]);
    assert_eq!(compute_enter_unread(&ms, Some("$e2"), 0, 0), 0);
}

/// fully_read is the first message → all remaining messages are new.
#[test]
fn fully_read_is_first_message_rest_are_new() {
    let ms = msgs(&["$e0", "$e1", "$e2", "$e3"]);
    assert_eq!(compute_enter_unread(&ms, Some("$e0"), 0, 0), 3);
}

/// fully_read is outside the window → fall back to max(sdk, known).
#[test]
fn fully_read_not_in_window_falls_back_to_sdk() {
    let ms = msgs(&["$e0", "$e1", "$e2"]);
    assert_eq!(compute_enter_unread(&ms, Some("$old"), 4, 0), 4);
}

/// fully_read absent, sdk=0, known=3 → use known (restart scenario).
#[test]
fn no_fully_read_sdk_zero_uses_known() {
    let ms = msgs(&["$e0", "$e1", "$e2"]);
    assert_eq!(compute_enter_unread(&ms, None, 0, 3), 3);
}

/// fully_read absent, sdk=0, known=0 → 0 unread (room was read).
#[test]
fn no_fully_read_both_zero_no_divider() {
    let ms = msgs(&["$e0", "$e1"]);
    assert_eq!(compute_enter_unread(&ms, None, 0, 0), 0);
}

/// Scenario: user offline, 4 new messages arrived, fully_read is old event.
/// fully_read in window at position 6, 10 messages total → 3 new.
#[test]
fn scenario_offline_messages_arrived_fully_read_in_window() {
    let ms = msgs(&["$e0","$e1","$e2","$e3","$e4","$e5","$e6","$e7","$e8","$e9"]);
    // fully_read = $e6 (index 6) → new messages are $e7, $e8, $e9 → 3.
    assert_eq!(compute_enter_unread(&ms, Some("$e6"), 0, 0), 3);
}

/// Scenario: room was never fully_read-marked, sdk=0 pre-sync, known=2.
/// Falls back to known.
#[test]
fn scenario_no_fully_read_marker_uses_known_unread() {
    let ms = msgs(&["$e0","$e1","$e2","$e3","$e4"]);
    assert_eq!(compute_enter_unread(&ms, None, 0, 2), 2);
}


/// Messages unchanged, unread=0, no marker → skip re-render (normal).
#[test]
fn skip_rerender_when_messages_unchanged_and_no_unreads() {
    assert!(should_skip_render(0, None), "safe to skip: nothing new to show");
}

/// Messages unchanged but unread_count=12 → must NOT skip (divider needed).
#[test]
fn no_skip_rerender_when_unread_count_positive() {
    assert!(!should_skip_render(12, None), "must send meta to place divider");
}

/// Messages unchanged but fully_read is set → must NOT skip (marker placement).
#[test]
fn no_skip_rerender_when_fully_read_set() {
    assert!(!should_skip_render(0, Some("$e5")), "must send to place marker");
}

/// Scenario: 12 messages arrived via append_memory (cached), bg_refresh
/// finds same top message but compute_enter_unread=12 → must send RoomMessages.
#[test]
fn scenario_cache_fresh_but_unread_count_nonzero_must_send() {
    let ms = msgs(&["$e0","$e1","$e2","$e3","$e4","$e5","$e6","$e7",
                    "$e8","$e9","$e10","$e11","$e12"]);
    // fully_read = $e0 → 12 new messages after it
    let count = compute_enter_unread(&ms, Some("$e0"), 0, 0);
    assert_eq!(count, 12);
    // With messages unchanged but count=12, re-render must NOT be skipped.
    assert!(!should_skip_render(count, Some("$e0")));
}
