//! List rows, names of rooms in links, and pages of a timeline.

use hikyaku::directory::{
    localpart_of, observe_server_from_mxid, room, servers_by_recency, set_room_alias,
    set_room_name, set_user_avatar_mxc, set_user_display_name, user, Directory,
};
use hikyaku::markdown::links::{
    linkify_aliases, linkify_http, matrix_to_pill_text, render_pill_markup, resolve_room_name,
};
use hikyaku::matrix::content::{MessageContent, MessageKind};
use hikyaku::matrix::event::MatrixEvent;
use hikyaku::matrix::history::{older_messages, seek_result, thread_event, Relation, TimelineItem};
use hikyaku::matrix::room_cache::RoomCache;
use hikyaku::models::message_object::MessageObject;
use hikyaku::models::notification_object::NotificationObject;
use hikyaku::models::rolodex_entry_object::RolodexEntryObject;
use hikyaku::models::room_object::RoomObject;
use hikyaku::models::timeline::{Change, Timeline};
use hikyaku::perf::scope_with;
use hikyaku::table::Table;

fn row(id: &str, ts: u64) -> MessageObject {
    MessageObject::new("Alice", "@a:s", "hi", "", ts, id, "", "", &[], "")
}

#[test]
fn a_row_can_be_changed_field_by_field() {
    let mut m = row("$1", 5);
    m.set_sender("Bob".to_string());
    m.set_timestamp(6);
    m.set_is_highlight(true);
    m.set_reply_to("$0".to_string());
    m.set_media_icon_name("image".to_string());
    assert_eq!(m.sender(), "Bob");
    assert_eq!(m.timestamp(), 6);
    assert!(m.is_highlight());
    assert_eq!(m.reply_to(), "$0");
    assert_eq!(m.media_icon_name(), "image");
    assert_eq!(m.body(), "hi");
}

#[test]
fn a_body_is_changed_in_place() {
    let mut t = Timeline::new("!r:s");
    t.insert(vec![row("$1", 1), row("$2", 2)]);
    t.take_changes();
    assert!(t.update_body("$2", "new", Some("<b>new</b>")));
    assert_eq!(t.get_event("$2").unwrap().body(), "new");
    assert_eq!(t.get_event("$2").unwrap().formatted_body(), "<b>new</b>");
    assert_eq!(t.get_event("$1").unwrap().body(), "hi");
    assert!(t.take_changes().iter().any(|c| matches!(c, Change::Updated { position: 1 })));
    assert!(!t.update_body("$9", "x", None));
    assert!(t.update_reactions("$1", "[]"));
    t.set_fetching_older(true);
    assert!(t.fetching_older());
    assert_eq!(t.room_id(), "!r:s");
}

#[test]
fn what_was_inserted_can_be_removed() {
    let mut t = Timeline::new("!r:s");
    t.insert(vec![row("$1", 1), row("$3", 3)]);
    t.insert(vec![row("$2", 2)]);
    t.insert(vec![row("$2", 2)]);
    assert_eq!(t.n_items(), 3);
    t.remove("$2");
    let ids: Vec<String> = t.model().iter().map(|m| m.event_id()).collect();
    assert_eq!(ids, vec!["$1", "$3"]);
}

#[test]
fn other_rows_hold_their_fields() {
    let r = RoomObject::new("!r:s", "Room", "room", true, "Space", false);
    assert_eq!((r.room_id.as_str(), r.parent_space.as_str(), r.is_header), ("!r:s", "Space", false));
    let h = RoomObject::new_header("Rooms");
    assert_eq!((h.name.as_str(), h.is_header), ("Rooms", true));
    let n = NotificationObject::new("!r:s", "$1", "Alice", "Room", "hi", 5);
    assert_eq!((n.body.as_str(), n.timestamp), ("hi", 5));
    let e = RolodexEntryObject::new("@a:s", "Alice", "met", 7).to_entry();
    assert_eq!((e.user_id.as_str(), e.notes.as_str(), e.added_at), ("@a:s", "met", 7));
}

#[test]
fn a_directory_knows_users_and_rooms() {
    let mut dir = Directory::new();
    set_user_display_name(&mut dir, "@a:s", "Alice");
    set_user_avatar_mxc(&mut dir, "@a:s", "mxc://s/1");
    assert!(user(&dir, "@a:s").is_some());
    assert!(user(&dir, "@b:s").is_none());
    set_room_name(&mut dir, "!r:s", "Room");
    assert!(room(&dir, "!r:s").is_some());
    observe_server_from_mxid(&mut dir, "@a:one.org");
    observe_server_from_mxid(&mut dir, "nothing");
    assert_eq!(servers_by_recency(&dir), vec!["one.org"]);
    assert_eq!(localpart_of("@alice:s"), "alice");
}

#[test]
fn links_to_known_rooms_are_named() {
    let mut dir = Directory::new();
    set_room_name(&mut dir, "!r:s.org", "Room");
    set_room_alias(&mut dir, "!r:s.org", "#r:s.org");
    assert_eq!(resolve_room_name(&dir, "#r:s.org").as_deref(), Some("Room"));
    assert_eq!(
        matrix_to_pill_text(&dir, "https://matrix.to/#/!r:s.org/$e").as_deref(),
        Some("Comment linked to Room")
    );
    assert_eq!(
        matrix_to_pill_text(&dir, "https://matrix.to/#/!x:s.org").as_deref(),
        Some("!x:s.org")
    );
    assert_eq!(
        linkify_http(&dir, "see https://e.org now"),
        "see <a href=\"https://e.org\">https://e.org</a> now"
    );
    assert!(linkify_aliases("join #r:s.org").contains("<a href="));
    assert_eq!(linkify_aliases("no alias"), "no alias");
    assert!(render_pill_markup("h", "b").starts_with("<a href=\"h\"><span "));
}

fn message(id: &str, ts: u64, body: &str) -> TimelineItem {
    TimelineItem::Message {
        event_id: id.to_string(),
        sender: "@alice:s".to_string(),
        timestamp: ts,
        content: MessageContent {
            kind: MessageKind::Text,
            body: body.to_string(),
            formatted: None,
            filename: None,
            size: None,
            url: String::new(),
            source_json: String::new(),
        },
        relation: Relation::Unrelated,
    }
}

#[test]
fn an_older_page_is_turned_round() {
    let page = Some((vec![message("$2", 2, "b"), message("$1", 1, "a")], Some("t".to_string())));
    match older_messages("!r:s", page, None, &Table::new()) {
        MatrixEvent::OlderMessages { messages, prev_batch_token, .. } => {
            assert_eq!(messages[0].body, "a");
            assert_eq!(prev_batch_token.as_deref(), Some("t"));
        }
        other => panic!("{other:?}"),
    }
    match older_messages("!r:s", None, None, &Table::new()) {
        MatrixEvent::OlderMessages { messages, prev_batch_token, .. } => {
            assert!(messages.is_empty() && prev_batch_token.is_none());
        }
        other => panic!("{other:?}"),
    }
}

#[test]
fn a_sought_event_stands_among_its_neighbours() {
    let got = seek_result(
        "!r:s",
        "$3",
        vec![message("$2", 2, "b"), message("$1", 1, "a")],
        Some(message("$3", 3, "c")),
        vec![message("$4", 4, "d")],
        None,
        None,
        &Table::new(),
    );
    match got {
        MatrixEvent::SeekResult { target_event_id, messages, .. } => {
            assert_eq!(target_event_id, "$3");
            let bodies: Vec<&str> = messages.iter().map(|m| m.body.as_str()).collect();
            assert_eq!(bodies, vec!["a", "b", "c", "d"]);
        }
        other => panic!("{other:?}"),
    }
}

#[test]
fn a_thread_shows_its_root_and_replies() {
    let replies = vec![message("$3", 3, "two"), message("$2", 2, "one")];
    match thread_event("!r:s", "$1", Some(message("$1", 1, "root")), &replies, None, &Table::new()) {
        MatrixEvent::ThreadReplies { root_message, replies, .. } => {
            assert_eq!(root_message.unwrap().body, "root");
            assert_eq!(replies[0].body, "one");
        }
        other => panic!("{other:?}"),
    }
}

#[test]
fn a_fetched_room_is_remembered() {
    let mut cache = RoomCache::new();
    assert!(!cache.was_server_fetched("!r:s"));
    cache.mark_fresh("!r:s", 1);
    assert!(cache.was_server_fetched("!r:s"));
}

#[test]
fn a_scope_names_its_context() {
    let line = scope_with("paint", "room 1".to_string()).report(50_000).unwrap();
    assert!(line.contains("paint") && line.contains("room 1"), "{line}");
}

#[test]
fn reactions_are_written_as_json() {
    let reactions = vec![
        ("\u{1f44d}".to_string(), 2, vec!["Ann".to_string(), "B\"ob".to_string()]),
        ("x".to_string(), 10, Vec::new()),
    ];
    let m = MessageObject::new("A", "@a:s", "hi", "", 1, "$1", "", "", &reactions, "");
    assert_eq!(m.reactions_json(), "[[\"\u{1f44d}\",2,[\"Ann\",\"B\\\"ob\"]],[\"x\",10,[]]]");
    assert_eq!(row("$2", 1).reactions_json(), "[]");
}

#[test]
fn an_insert_only_adds_the_new_rows() {
    let mut t = Timeline::new("!r:s");
    t.insert(vec![row("$2", 2), row("$4", 4)]);
    t.insert(vec![row("$3", 3), row("$2", 9), row("$1", 1)]);
    let ids: Vec<String> = t.model().iter().map(|m| m.event_id()).collect();
    assert_eq!(ids, ["$1", "$2", "$3", "$4"]);
    let times: Vec<u64> = t.model().iter().map(|m| m.timestamp()).collect();
    assert_eq!(times, [1, 2, 3, 4]);
}
