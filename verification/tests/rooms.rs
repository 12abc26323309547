//! The list of rooms, their times, and what happens in them.

use hikyaku::matrix::content::{Membership, MessageContent, MessageKind};
use hikyaku::matrix::event::MatrixEvent;
use hikyaku::matrix::export::{export_messages, finish_export, nothing_to_export, plan_export};
use hikyaku::matrix::history::{member_message, plain_message, Relation};
use hikyaku::matrix::info::{MessageInfo, RoomInfo, RoomKind, RoomMeta};
use hikyaku::matrix::metrics::{
    csv, cutoff, finish_metrics, metrics_text, no_such_room, ranked_counts, report_file_name, total_messages, Metrics, MAX_PAGES,
};
use hikyaku::matrix::refresh::{
    backfill_reply_senders, in_time_order, member_lists, merge_messages, missing_sessions,
    needs_second_fetch, placeholder_event, refresh_event, resolve_display_name, store_refresh,
    timeline_members, MemberRecord,
};
use hikyaku::matrix::room_cache::{RoomCache, TimelineStore};
use hikyaku::matrix::rooms::{collect_room_info, event_seconds, is_room_activity, Hero, JoinedRoom};
use hikyaku::matrix::select::{
    apply_pending, edit_message, show_from_disk, show_from_memory, start_fetch, LoadState, FRESH_MS,
};
use hikyaku::matrix::sync::{
    answered_event, on_encrypted, on_gaps, on_invite, on_member, on_message, on_reaction, on_redaction,
    typing_others, LiveMember, LiveMessage, LiveReaction, LockedMessage, Pending,
};
use hikyaku::matrix::timestamps::{
    apply_backfill, backfill_time, has_times, loaded_timestamps, note_activity,
    reconcile_timestamps, remember_timestamps, rooms_to_backfill, seed_timestamps,
    should_update_rooms, stored_counts, stored_timestamps,
};
use hikyaku::matrix::unread::{merge_disk_unread_counts, zero_room_unread_in_disk_cache};
use hikyaku::table::Table;

fn joined(id: &str, name: &str) -> JoinedRoom {
    JoinedRoom {
        room_id: id.to_string(),
        is_space: false,
        is_dm: false,
        cached_name: Some(name.to_string()),
        name: None,
        heroes: Vec::new(),
        topic: None,
        is_encrypted: false,
        is_tombstoned: false,
        is_favourite: false,
        avatar_url: None,
        unread_count: 0,
        highlight_count: 0,
        recency: None,
        latest_event: None,
        children: Vec::new(),
        parents: Vec::new(),
    }
}

#[test]
fn every_joined_room_is_listed() {
    let mut space = joined("!space:s", "Space");
    space.is_space = true;
    space.children = vec!["!child:s".to_string()];
    let mut dm = joined("!dm:s", "Bob");
    dm.is_dm = true;
    let mut named_by_heroes = joined("!h:s", "");
    named_by_heroes.cached_name = None;
    named_by_heroes.parents = vec!["!unknown:s".to_string(), "!space:s".to_string()];
    named_by_heroes.heroes = vec![Hero { user_id: "@carol:s".to_string(), display_name: None }];
    let list = collect_room_info(
        &vec![space, joined("!child:s", "Child"), dm, joined("!free:s", "Free"), named_by_heroes],
        &vec!["!free:s".to_string()],
        &Table::new(),
    );
    assert_eq!(list.len(), 5);
    let find = |id: &str| list.iter().find(|r| r.room_id == id).unwrap();
    assert_eq!(find("!child:s").parent_space.as_deref(), Some("Space"));
    assert_eq!(find("!child:s").parent_space_id, "!space:s");
    assert_eq!(find("!free:s").parent_space, None);
    assert_eq!(find("!free:s").parent_space_id, "");
    assert_eq!(find("!h:s").parent_space.as_deref(), Some("Space"));
    assert_eq!(find("!space:s").kind, RoomKind::Space);
    assert_eq!(find("!dm:s").kind, RoomKind::DirectMessage);
    assert!(find("!free:s").is_pinned);
    assert!(!find("!dm:s").is_pinned);
}

#[test]
fn only_some_events_count_as_activity() {
    assert!(is_room_activity("{\"type\":\"m.room.message\"}"));
    assert!(is_room_activity("{\"type\":\"m.room.encrypted\"}"));
    assert!(!is_room_activity("{\"type\":\"m.reaction\"}"));
    assert!(!is_room_activity("junk"));
    assert_eq!(event_seconds("{\"origin_server_ts\":1700000000999}"), Some(1_700_000_000));
    assert_eq!(event_seconds("{}"), None);
}

fn room(id: &str, ts: u64) -> RoomInfo {
    RoomInfo {
        room_id: id.to_string(),
        name: id.to_string(),
        last_activity_ts: ts,
        kind: RoomKind::Room,
        is_encrypted: false,
        parent_space: None,
        parent_space_id: String::new(),
        is_pinned: false,
        unread_count: 2,
        highlight_count: 1,
        is_admin: false,
        is_tombstoned: false,
        is_favourite: false,
        avatar_url: String::new(),
        topic: String::new(),
    }
}

#[test]
fn times_never_go_back() {
    let mut times = Table::new();
    seed_timestamps(&mut times, &vec![room("!a:s", 5)]);
    assert_eq!(times.get("!a:s"), Some(&5));
    let mut rooms = vec![room("!a:s", 3), room("!b:s", 7)];
    reconcile_timestamps(&mut rooms, &mut times);
    assert_eq!(rooms[0].last_activity_ts, 5);
    assert_eq!(rooms[1].last_activity_ts, 7);
    remember_timestamps(&mut times, &rooms);
    assert_eq!(times.get("!b:s"), Some(&7));
    note_activity(
        &mut times,
        "!a:s",
        &vec!["{\"type\":\"m.room.message\",\"origin_server_ts\":9000}".to_string()],
    );
    assert_eq!(times.get("!a:s"), Some(&9));
    note_activity(
        &mut times,
        "!a:s",
        &vec!["{\"type\":\"m.room.message\",\"origin_server_ts\":1000}".to_string()],
    );
    assert_eq!(times.get("!a:s"), Some(&9));
    let kept = stored_timestamps(&times, Some(&vec!["!b:s".to_string()]));
    assert_eq!((kept.len(), kept.get("!b:s").copied()), (1, Some(7)));
    assert_eq!(stored_timestamps(&times, None).len(), 2);
}

#[test]
fn times_of_another_version_are_left_out() {
    let mut times = Table::new();
    times.insert("!a:s".to_string(), 5);
    let (kept, ok) = loaded_timestamps(2, times);
    assert_eq!(kept.len(), 1);
    let mut times = Table::new();
    times.insert("!a:s".to_string(), 5);
    let (dropped, other) = loaded_timestamps(1, times);
    assert_eq!(dropped.len(), 0);
    assert_ne!(ok, other);
}

#[test]
fn rooms_without_a_time_are_asked_for() {
    let mut rooms = vec![room("!a:s", 5), room("!b:s", 0)];
    assert_eq!(rooms_to_backfill(&rooms), vec![1]);
    assert!(has_times(&rooms));
    let raws = vec!["{\"type\":\"m.room.message\",\"origin_server_ts\":4000}".to_string()];
    assert_eq!(backfill_time(&raws), 4);
    assert_eq!(backfill_time(&Vec::new()), 0);
    apply_backfill(&mut rooms, &vec![(1, 4)]);
    assert_eq!(rooms[1].last_activity_ts, 4);
    assert!(!has_times(&Vec::new()));
}

#[test]
fn the_list_is_refreshed_now_and_again() {
    assert!(should_update_rooms(true, 0, 0));
    assert!(!should_update_rooms(false, 100, 99));
    assert!(should_update_rooms(false, 1000, 0));
}

#[test]
fn a_read_room_keeps_no_badge() {
    let mut disk = vec![room("!a:s", 1)];
    assert!(zero_room_unread_in_disk_cache(&mut disk, "!a:s"));
    assert!(!zero_room_unread_in_disk_cache(&mut disk, "!a:s"));
    let counts = stored_counts(&disk);
    let mut fresh = vec![room("!a:s", 1)];
    fresh[0].unread_count = 0;
    fresh[0].highlight_count = 0;
    merge_disk_unread_counts(&mut fresh, &counts);
    assert_eq!(fresh[0].unread_count, 0);
}

fn info(id: &str, sender: &str, ts: u64) -> MessageInfo {
    plain_message(sender.to_string(), format!("@{sender}:s"), format!("body of {id}"), ts, id.to_string())
}

fn ids(v: &[MessageInfo]) -> Vec<&str> {
    v.iter().map(|m| m.event_id.as_str()).collect()
}

#[test]
fn fetched_messages_join_those_in_memory() {
    let merged = merge_messages(
        vec![info("$1", "a", 10), info("$3", "a", 30)],
        &vec![info("$2", "b", 20), info("$3", "a", 30)],
    );
    assert_eq!(ids(&merged), vec!["$1", "$2", "$3"]);
    assert_eq!(ids(&in_time_order(&vec![info("$b", "a", 2), info("$a", "a", 1)])), vec!["$a", "$b"]);
}

#[test]
fn reply_authors_are_filled_in() {
    let mut reply = info("$2", "b", 20);
    reply.reply_to = Some("$1".to_string());
    let mut messages = vec![reply];
    backfill_reply_senders(&mut messages, &vec![info("$1", "a", 10)]);
    assert_eq!(messages[0].reply_to_sender.as_deref(), Some("a"));
}

#[test]
fn members_are_those_who_wrote() {
    let got = timeline_members(&vec![info("$1", "zoe", 1), info("$2", "adam", 2), info("$3", "zoe", 3)]);
    assert_eq!(
        got,
        vec![
            ("@adam:s".to_string(), "adam".to_string()),
            ("@zoe:s".to_string(), "zoe".to_string()),
        ]
    );
}

#[test]
fn member_records_become_lists() {
    let (names, avatars) = member_lists(&vec![
        MemberRecord {
            user_id: "@a:s".to_string(),
            display_name: Some("A".to_string()),
            avatar_url: Some("mxc://s/a".to_string()),
        },
        MemberRecord { user_id: "@bob:s".to_string(), display_name: None, avatar_url: None },
    ]);
    assert_eq!(names[0], ("@a:s".to_string(), "A".to_string()));
    assert_eq!(names[1].1, "bob");
    assert_eq!(avatars, vec![("@a:s".to_string(), "mxc://s/a".to_string())]);
}

#[test]
fn a_display_name_is_remembered() {
    let mut names = Table::new();
    assert_eq!(resolve_display_name(&mut names, "@a:s", Some("A".to_string())), "A");
    assert_eq!(resolve_display_name(&mut names, "@a:s", Some("B".to_string())), "A");
    assert_eq!(resolve_display_name(&mut names, "@bob:s", None), "bob");
}

#[test]
fn missing_keys_are_asked_for_once() {
    let s = |x: &str| Some(x.to_string());
    assert_eq!(missing_sessions(&vec![s("k1"), None, s("k2"), s("k1")]), vec!["k1", "k2"]);
    assert!(needs_second_fetch(false, 1, true));
    assert!(!needs_second_fetch(true, 1, true));
    assert!(!needs_second_fetch(false, 0, true));
}

fn meta() -> RoomMeta {
    RoomMeta {
        topic: "t".to_string(),
        is_tombstoned: false,
        replacement_room: None,
        replacement_room_name: None,
        pinned_messages: Vec::new(),
        is_encrypted: false,
        member_count: 0,
        is_favourite: false,
        members: Vec::new(),
        member_avatars: Vec::new(),
        members_fetched: false,
        unread_count: 0,
        fully_read_event_id: None,
    }
}

#[test]
fn a_refresh_is_stored_and_shown() {
    let mut cache = RoomCache::new();
    let kept = store_refresh(&mut cache, "!r:s", &vec![info("$1", "a", 1)], None, &meta(), 100).unwrap();
    assert_eq!(ids(&kept), vec!["$1"]);
    assert!(cache.is_fresh("!r:s", 100, 1));
    match refresh_event(&cache, "!r:s", Vec::new(), None, meta(), false) {
        Some(MatrixEvent::RoomMessages { messages, is_background, .. }) => {
            assert_eq!(ids(&messages), vec!["$1"]);
            assert!(is_background);
        }
        other => panic!("{other:?}"),
    }
    assert!(refresh_event(&cache, "!r:s", Vec::new(), None, meta(), true).is_none());
    assert!(placeholder_event("!r:s", false).is_some());
    assert!(placeholder_event("!r:s", true).is_none());
}

fn live(id: &str, body: &str, relation: Relation) -> LiveMessage {
    LiveMessage {
        room_id: "!r:s".to_string(),
        room_name: Some("Room".to_string()),
        is_dm: false,
        event_id: id.to_string(),
        sender: "@a:s".to_string(),
        sender_name: "Alice".to_string(),
        timestamp: 5,
        content: MessageContent {
            kind: MessageKind::Text,
            body: body.to_string(),
            formatted: None,
            filename: None,
            size: None,
            url: String::new(),
            source_json: String::new(),
        },
        relation,
        answered: None,
        reply_author: None,
    }
}

#[test]
fn a_message_that_arrives_early_is_shown_when_the_room_is_opened() {
    let mut cache = RoomCache::new();
    let mut pending = Pending::new();
    let me = Some("@me:s");
    match on_message(&mut cache, &mut pending, me, live("$1", "hello ME", Relation::Unrelated)) {
        Some(MatrixEvent::NewMessage { room_name, message, is_mention, .. }) => {
            assert_eq!(room_name, "Room");
            assert_eq!(message.body, "hello ME");
            assert!(is_mention);
        }
        other => panic!("{other:?}"),
    }
    assert!(apply_pending(&mut cache, &mut pending, "!r:s", 0).is_none());
    on_message(&mut cache, &mut pending, me, live("$2", "x", Relation::Unrelated));
    cache.insert_memory_only("!r:s", vec![info("$0", "b", 1)], None, meta());
    let (event, flush) = apply_pending(&mut cache, &mut pending, "!r:s", 1).unwrap();
    match event {
        MatrixEvent::RoomMessages { messages, .. } => assert!(ids(&messages).contains(&"$2")),
        other => panic!("{other:?}"),
    }
    assert_eq!(flush.room_id, "!r:s");
    // With the room in memory a message goes there.
    on_message(&mut cache, &mut pending, me, live("$3", "y", Relation::Unrelated));
    assert_eq!(cache.latest_event_id("!r:s").as_deref(), Some("$3"));
    assert!(pending.take("!r:s").is_empty());
}

#[test]
fn an_edit_that_arrives_changes_the_message() {
    let mut cache = RoomCache::new();
    let mut pending = Pending::new();
    cache.insert_memory_only("!r:s", vec![info("$1", "a", 1)], None, meta());
    let edit = Relation::Replacement {
        event_id: "$1".to_string(),
        content: MessageContent {
            kind: MessageKind::Text,
            body: "new".to_string(),
            formatted: None,
            filename: None,
            size: None,
            url: String::new(),
            source_json: String::new(),
        },
    };
    match on_message(&mut cache, &mut pending, None, live("$2", "* new", edit)) {
        Some(MatrixEvent::MessageEdited { event_id, new_body, .. }) => {
            assert_eq!((event_id.as_str(), new_body.as_str()), ("$1", "new"));
        }
        other => panic!("{other:?}"),
    }
    assert_eq!(cache.get_memory("!r:s").unwrap().messages[0].body, "new");
}

#[test]
fn other_events_are_told() {
    let mut cache = RoomCache::new();
    let mut pending = Pending::new();
    let locked = LockedMessage {
        room_id: "!r:s".to_string(),
        room_name: None,
        is_dm: true,
        event_id: "$1".to_string(),
        sender: "@a:s".to_string(),
        sender_name: "Alice".to_string(),
        timestamp: 5,
    };
    match on_encrypted(&mut cache, &mut pending, locked) {
        MatrixEvent::NewMessage { room_name, is_dm, .. } => {
            assert_eq!(room_name, "!r:s");
            assert!(is_dm);
        }
        other => panic!("{other:?}"),
    }
    let member = LiveMember {
        room_id: "!r:s".to_string(),
        room_name: None,
        event_id: "$2".to_string(),
        sender: "@b:s".to_string(),
        sender_name: "Bob".to_string(),
        target: "@b:s".to_string(),
        target_name: "Bob".to_string(),
        timestamp: 6,
        membership: Membership::Join,
        reason: None,
    };
    assert!(on_member(&mut cache, Some("@me:s"), member).is_some());
    let reaction = LiveReaction {
        room_id: "!r:s".to_string(),
        room_name: None,
        target: "$1".to_string(),
        emoji: "+".to_string(),
        sender: "@b:s".to_string(),
        sender_name: "Bob".to_string(),
        target_author: Some("@me:s".to_string()),
    };
    let (update, note) = on_reaction(Some("@me:s"), reaction);
    assert!(matches!(update, MatrixEvent::ReactionUpdate { .. }));
    assert!(matches!(note, Some(MatrixEvent::ReactionNotification { reactor, .. }) if reactor == "Bob"));
    assert!(matches!(
        on_redaction("!r:s", Some("$1".to_string())),
        Some(MatrixEvent::MessageRedacted { event_id, .. }) if event_id == "$1"
    ));
    assert!(on_redaction("!r:s", None).is_none());
    let invite = |target: &str| on_invite(Membership::Invite, target, Some("@me:s"), "!r:s", None, "Bob");
    assert!(matches!(
        invite("@me:s"),
        Some(MatrixEvent::RoomInvited { inviter_name, .. }) if inviter_name == "Bob"
    ));
    assert!(invite("@you:s").is_none());
    let typing = vec!["@me:s".to_string(), "@b:s".to_string()];
    assert_eq!(typing_others(&typing, Some("@me:s")), vec!["@b:s"]);
}

#[test]
fn a_gap_makes_a_room_stale() {
    let mut cache = RoomCache::new();
    cache.insert_memory_only("!r:s", vec![info("$1", "a", 1)], Some("t".to_string()), meta());
    cache.mark_fresh("!r:s", 0);
    let flushes = on_gaps(&mut cache, &vec!["!r:s".to_string()]);
    assert!(!cache.is_fresh("!r:s", 0, 1000));
    assert!(!cache.was_server_fetched("!r:s"));
    assert_eq!(flushes.len(), 1);
    assert_eq!(flushes[0].room_id, "!r:s");
    assert_eq!(flushes[0].messages.len(), 1);
    assert_eq!(flushes[0].token.as_deref(), Some("t"));
}

#[test]
fn a_room_with_a_gap_is_fetched_whatever_its_age() {
    let mut cache = RoomCache::new();
    for room in ["!r:s", "!q:s"] {
        cache.insert_memory_only(room, vec![info("$1", "a", 1)], None, meta());
        cache.mark_fresh(room, 1000);
    }
    on_gaps(&mut cache, &vec!["!r:s".to_string()]);
    // The timeline comes back into memory from disk, but not its age.
    let stored = Some((vec![info("$1", "a", 1)], None));
    assert!(show_from_disk(&mut cache, "!r:s", stored, None, 0).is_some());
    let mut load = LoadState::new();
    let generation = load.begin();
    assert!(start_fetch(&cache, &mut load, generation, "!r:s", 2000).is_some());
    assert!(start_fetch(&cache, &mut load, generation, "!q:s", 2000).is_none());
}

#[test]
fn the_answered_event_decides_a_mention() {
    let reply = Relation::Reply { event_id: "$a".to_string() };
    assert_eq!(answered_event(&reply).as_deref(), Some("$a"));
    let thread = Relation::Thread { root: "$t".to_string(), in_reply_to: Some("$a".to_string()) };
    assert_eq!(answered_event(&thread).as_deref(), Some("$t"));
    assert!(answered_event(&Relation::Unrelated).is_none());
}

#[test]
fn a_room_is_shown_at_once() {
    let mut cache = RoomCache::new();
    assert!(show_from_memory(&cache, "!r:s", None, 0).is_none());
    let stored = Some((vec![info("$1", "a", 1)], Some("tok".to_string())));
    match show_from_disk(&mut cache, "!r:s", stored, None, 4) {
        Some(MatrixEvent::RoomMessages { prev_batch_token, room_meta, .. }) => {
            assert_eq!(prev_batch_token.as_deref(), Some("tok"));
            assert_eq!(room_meta.unread_count, 4);
        }
        other => panic!("{other:?}"),
    }
    match show_from_memory(&cache, "!r:s", Some(2), 3) {
        Some(MatrixEvent::RoomMessages { room_meta, .. }) => assert_eq!(room_meta.unread_count, 3),
        other => panic!("{other:?}"),
    }
}

#[test]
fn a_stale_load_ends_nothing() {
    let mut load = LoadState::new();
    let first = load.begin();
    let second = load.begin();
    load.end(first);
    assert!(load.loading);
    load.end(second);
    assert!(!load.loading);
}

#[test]
fn a_fresh_room_is_not_fetched() {
    let mut cache = RoomCache::new();
    let mut load = LoadState::new();
    let g = load.begin();
    assert!(start_fetch(&cache, &mut load, g, "!r:s", 0).is_some());
    cache.insert_memory_only("!r:s", vec![info("$1", "a", 1)], None, meta());
    cache.mark_fresh("!r:s", 0);
    assert!(start_fetch(&cache, &mut load, g, "!r:s", 1).is_none());
    assert!(!load.loading);
    let g = load.begin();
    assert!(start_fetch(&cache, &mut load, g, "!r:s", FRESH_MS).is_some());
}

#[test]
fn an_own_edit_is_shown_and_sent() {
    let mut cache = RoomCache::new();
    cache.insert_memory_only("!r:s.org", vec![info("$1", "a", 1)], None, meta());
    let sent = edit_message(&mut cache, "!r:s.org", "$1", "new", &None).unwrap();
    assert_eq!(sent.body, "new");
    assert_eq!(cache.get_memory("!r:s.org").unwrap().messages[0].body, "new");
    assert!(edit_message(&mut cache, "!r:s.org", "e", "new", &None).is_none());
}

#[test]
fn a_stored_timeline_has_a_flat_name() {
    let name = TimelineStore::filename("!a/b:s.org");
    assert!(!name.contains('/') && !name.contains(':'), "{name}");
    assert!(TimelineStore::load(Vec::new(), None).is_none());
}

#[test]
fn messages_are_exported_line_by_line() {
    let mut blank = info("$2", "b", 2);
    blank.body = String::new();
    let lines = export_messages(&vec![info("$1", "a\"b", 1), blank]);
    assert_eq!(
        lines,
        vec!["{\"sender\":\"a\\\"b\",\"sender_id\":\"@a\\\"b:s\",\"body\":\"body of $1\"}".to_string()]
    );
    assert!(matches!(nothing_to_export(), MatrixEvent::MessagesExportFailed { .. }));
    let mut cache = RoomCache::new();
    assert!(plan_export(&cache, "!r:s", None).is_err());
    cache.insert_memory_only("!r:s", vec![info("$3", "c", 3)], None, RoomMeta::default());
    assert_eq!(plan_export(&cache, "!r:s", None).unwrap().len(), 1);
    assert_eq!(plan_export(&cache, "!r:s", Some(Vec::new())).unwrap().len(), 0);
    match finish_export("/x".to_string(), Err("full".to_string())) {
        MatrixEvent::MessagesExportFailed { error } => assert_eq!(error, "Cannot write to /x: full"),
        _ => panic!("a failure was not reported"),
    }
    match finish_export("/x".to_string(), Ok(4)) {
        MatrixEvent::MessagesExported { path, count } => assert_eq!((path.as_str(), count), ("/x", 4)),
        _ => panic!("an export was not reported"),
    }
}

#[test]
fn a_membership_row_is_a_system_event() {
    let m = member_message("Bob joined".to_string(), 5, "$1".to_string());
    assert!(m.is_system_event);
    assert_eq!(m.body, "Bob joined");
}

fn event(kind: &str, sender: &str, ts: u64) -> String {
    format!("{{\"type\":\"{kind}\",\"sender\":\"{sender}\",\"origin_server_ts\":{ts}}}")
}

#[test]
fn a_report_counts_messages_and_members() {
    assert_eq!(cutoff(86_400_000 * 3, 2), 86_400_000);
    assert_eq!(cutoff(5, 2), 0);
    let mut m = Metrics::new();
    assert!(m.wants_page(true));
    let ban = "{\"type\":\"m.room.member\",\"sender\":\"@a:s\",\"state_key\":\"@x:s\",\"origin_server_ts\":86400000,\"content\":{\"membership\":\"ban\",\"reason\":\"a,b\"}}";
    m.add_page(
        &vec![
            event("m.room.message", "@a:s", 90_000_000),
            event("m.room.message", "@b:s", 90_000_000),
            event("m.room.message", "@a:s", 90_000_000),
            ban.to_string(),
            event("m.room.message", "@a:s", 1),
        ],
        1000,
    );
    assert!(m.done);
    assert!(!m.wants_page(true));
    assert_eq!(total_messages(&m.counts), 3);
    let ranked = ranked_counts(&m.counts);
    assert_eq!(ranked, vec![("@a:s".to_string(), 2), ("@b:s".to_string(), 1)]);
    let text = csv(&m.events, &ranked, 3, 7);
    assert!(text.starts_with("# Membership Events (last 7 days)\ntimestamp_ms,date,event_type,sender,target,reason\n86400000,1970-01-02,ban,@a:s,@x:s,a;b\n"), "{text}");
    assert!(text.ends_with("bans,1\nkicks,0\njoins,0\nleaves,0\ntotal_messages,3\nactive_users,2\n"), "{text}");
    let words = metrics_text("Room", &m.events, &ranked, 3, 7);
    assert!(words.starts_with("Room: Room\nPeriod: last 7 days\nBans: 1\n"), "{words}");
    assert!(words.ends_with("Top 10 message senders:\n  @a:s: 2\n  @b:s: 1"), "{words}");
    match finish_metrics("Room", &m, 7, "/x".to_string(), Ok(())) {
        MatrixEvent::MetricsReady { path, event_count, metrics_text } => {
            assert_eq!((path.as_str(), event_count), ("/x", 3));
            assert_eq!(metrics_text, words);
        }
        _ => panic!("a report was not reported"),
    }
    assert!(matches!(
        finish_metrics("Room", &m, 7, "/x".to_string(), Err("full".to_string())),
        MatrixEvent::MetricsFailed { error } if error == "full"
    ));
    assert!(matches!(no_such_room(), MatrixEvent::MetricsFailed { error } if error == "Room not found"));
    let file = report_file_name("My Room", 0);
    assert!(file.ends_with(".csv") && file.contains("_metrics_"), "{file}");
    m.done = false;
    m.pages = MAX_PAGES;
    assert!(!m.wants_page(true));
}
