//! Messages out of the events of a timeline.

use hikyaku::matrix::content::{
    aggregate_reactions, extract_message_content, membership_text, Formatted, Membership,
    MessageContent, MessageKind,
};
use hikyaku::matrix::history::{
    extract_messages, in_context, links_of, locked_body, pinned_entries, thread_replies, Relation,
    TimelineItem,
};
use hikyaku::matrix::preview::{
    fetch_limit, plan_preview, preview_failed, preview_lines, preview_prompt,
    strip_reply_fallback_simple, PreviewStep,
};
use hikyaku::matrix::event::MatrixEvent;
use hikyaku::table::Table;

fn text(kind: MessageKind, body: &str) -> MessageContent {
    MessageContent {
        kind,
        body: body.to_string(),
        formatted: None,
        filename: None,
        size: None,
        url: String::new(),
        source_json: String::new(),
    }
}

fn message(id: &str, sender: &str, ts: u64, body: &str, relation: Relation) -> TimelineItem {
    TimelineItem::Message {
        event_id: id.to_string(),
        sender: sender.to_string(),
        timestamp: ts,
        content: text(MessageKind::Text, body),
        relation,
    }
}

fn names() -> Table<String> {
    let mut t = Table::new();
    t.insert("@a:s".to_string(), "Alice".to_string());
    t
}

#[test]
fn only_an_html_body_is_kept() {
    let mut c = text(MessageKind::Text, "hi");
    c.formatted = Some(Formatted { is_html: true, body: "<b>hi</b>".to_string() });
    let (body, html, media) = extract_message_content(&c).unwrap();
    assert_eq!((body.as_str(), html.as_deref(), media.is_none()), ("hi", Some("<b>hi</b>"), true));
    c.formatted = Some(Formatted { is_html: false, body: "hi".to_string() });
    assert_eq!(extract_message_content(&c).unwrap().1, None);
}

#[test]
fn an_emote_is_marked() {
    let (body, html, _) = extract_message_content(&text(MessageKind::Emote, "waves")).unwrap();
    assert_eq!(body, "* waves");
    assert_eq!(html, None);
    let mut c = text(MessageKind::Emote, "waves");
    c.formatted = Some(Formatted { is_html: true, body: "waves".to_string() });
    assert_eq!(extract_message_content(&c).unwrap().1.as_deref(), Some("<i>waves</i>"));
}

#[test]
fn a_file_has_a_name_a_size_and_a_place() {
    let mut c = text(MessageKind::File, "notes.txt");
    c.filename = Some("n.txt".to_string());
    c.size = Some(7);
    c.url = "mxc://s/1".to_string();
    c.source_json = "{}".to_string();
    let media = extract_message_content(&c).unwrap().2.unwrap();
    assert_eq!(media.filename, "n.txt");
    assert_eq!(media.size, Some(7));
    assert_eq!(media.url, "mxc://s/1");
    assert_eq!(media.source_json, "{}");
}

#[test]
fn a_location_and_an_unknown_kind_have_a_body() {
    let place = extract_message_content(&text(MessageKind::Location, "Rome")).unwrap();
    assert_eq!(place.0, "\u{1f4cd} Rome");
    let other = extract_message_content(&text(MessageKind::Other, "x"));
    assert!(other.is_none() || other.unwrap().0 == "[unsupported message type]");
}

#[test]
fn membership_changes_are_told() {
    let t = |m, by| membership_text(m, by, "Alice", "Bob", None);
    assert_eq!(t(Membership::Join, false).as_deref(), Some("Bob joined"));
    assert_eq!(t(Membership::Leave, false).as_deref(), Some("Bob left"));
    assert_eq!(t(Membership::Leave, true).as_deref(), Some("Alice kicked Bob"));
    assert_eq!(t(Membership::Invite, true).as_deref(), Some("Alice invited Bob"));
    assert_eq!(t(Membership::Ban, true).as_deref(), Some("Alice banned Bob"));
    assert_eq!(t(Membership::Other, true), None);
    assert_eq!(
        membership_text(Membership::Ban, true, "Alice", "Bob", Some("spam")).as_deref(),
        Some("Alice banned Bob: spam")
    );
}

#[test]
fn reactions_are_counted_by_emoji() {
    let entries = vec![
        ("+".to_string(), "Alice".to_string()),
        ("-".to_string(), "Bob".to_string()),
        ("+".to_string(), "Carol".to_string()),
    ];
    let mut got = aggregate_reactions(Some(&entries));
    got.sort();
    assert_eq!(
        got,
        vec![
            ("+".to_string(), 2, vec!["Alice".to_string(), "Carol".to_string()]),
            ("-".to_string(), 1, vec!["Bob".to_string()]),
        ]
    );
    assert!(aggregate_reactions(None).is_empty());
}

#[test]
fn a_timeline_becomes_messages() {
    let items = vec![
        message("$1", "@a:s", 10, "hello", Relation::Unrelated),
        message("$2", "@b:s", 20, "hi", Relation::Reply { event_id: "$1".to_string() }),
        TimelineItem::Reaction {
            sender: "@b:s".to_string(),
            target: "$1".to_string(),
            key: "+".to_string(),
        },
        TimelineItem::Other,
    ];
    let got = extract_messages(&items, false, None, &names());
    assert_eq!(got.len(), 2);
    assert_eq!((got[0].sender.as_str(), got[0].sender_id.as_str()), ("Alice", "@a:s"));
    assert_eq!(got[0].body, "hello");
    assert_eq!(got[0].timestamp, 10);
    assert_eq!(got[0].reactions.len(), 1);
    assert_eq!(got[0].reactions[0].1, 1);
    assert_eq!(got[1].reply_to.as_deref(), Some("$1"));
    assert_eq!(got[1].reply_to_sender.as_deref(), Some("Alice"));
    let back = extract_messages(&items, true, None, &names());
    assert_eq!(back[0].event_id, "$2");
}

#[test]
fn an_edit_changes_the_message_and_is_not_shown() {
    let items = vec![
        message("$1", "@a:s", 10, "helo", Relation::Unrelated),
        message(
            "$2",
            "@a:s",
            20,
            "* hello",
            Relation::Replacement {
                event_id: "$1".to_string(),
                content: text(MessageKind::Text, "hello"),
            },
        ),
    ];
    let got = extract_messages(&items, false, None, &names());
    assert_eq!(got.len(), 1);
    assert_eq!(got[0].event_id, "$1");
    assert_eq!(got[0].body, "hello");
}

#[test]
fn a_locked_message_says_so() {
    let items = vec![
        TimelineItem::Encrypted {
            event_id: "$1".to_string(),
            sender: "@a:s".to_string(),
            raw: "{}".to_string(),
        },
        TimelineItem::Encrypted {
            event_id: "$2".to_string(),
            sender: "@a:s".to_string(),
            raw: "{\"content\":{\"m.relates_to\":{\"rel_type\":\"m.replace\"}}}".to_string(),
        },
    ];
    let got = extract_messages(&items, false, None, &names());
    assert_eq!(got.len(), 1);
    assert_eq!(got[0].body, locked_body());
    assert_eq!(got[0].body, "\u{1f512} Unable to decrypt message");
}

#[test]
fn relations_name_what_is_answered() {
    assert_eq!(links_of(&Relation::Unrelated), (None, None));
    assert_eq!(
        links_of(&Relation::Thread { root: "$r".to_string(), in_reply_to: Some("$x".to_string()) }),
        (Some("$x".to_string()), Some("$r".to_string()))
    );
}

#[test]
fn a_thread_has_its_replies_in_time_order() {
    let thread = Relation::Thread { root: "$1".to_string(), in_reply_to: None };
    let items = vec![
        message("$4", "@a:s", 40, "two", thread),
        TimelineItem::Other,
        message("$2", "@b:s", 20, "one", Relation::Unrelated),
    ];
    let got = thread_replies(&items, "$1", &names());
    assert_eq!(got.iter().map(|m| m.body.as_str()).collect::<Vec<_>>(), vec!["one", "two"]);
    assert_eq!(got[1].sender, "Alice");
    assert!(got.iter().all(|m| m.thread_root.as_deref() == Some("$1")));
}

#[test]
fn pinned_messages_have_an_author_and_a_body() {
    let items = vec![message("$1", "@a:s", 10, "rules", Relation::Unrelated), TimelineItem::Other];
    assert_eq!(
        pinned_entries(&items, &names()),
        vec![("Alice".to_string(), "rules".to_string(), None)]
    );
}

#[test]
fn an_event_stands_in_its_context() {
    // What came before is given newest first.
    assert_eq!(in_context(vec![2, 1], Some(3), vec![4, 5]), vec![1, 2, 3, 4, 5]);
    assert_eq!(in_context(vec![1], None, vec![2]), vec![1, 2]);
}

#[test]
fn a_reply_quote_is_left_out() {
    assert_eq!(strip_reply_fallback_simple("> <@a:s> hi\n> there\n\nyes"), "yes");
    assert_eq!(strip_reply_fallback_simple("plain"), "plain");
}

#[test]
fn preview_lines_carry_time_and_author() {
    let items = vec![message("$1", "@alice:s", 0, "hello", Relation::Unrelated)];
    assert_eq!(preview_lines(&items), vec!["[1970-01-01 00:00 UTC] alice: hello"]);
}

#[test]
fn a_preview_of_unread_messages_has_context() {
    assert_eq!(fetch_limit(0), 20);
    assert_eq!(fetch_limit(5), 15);
    assert_eq!(fetch_limit(400), 50);
    let lines: Vec<String> = vec!["a".to_string(), "b".to_string(), "c".to_string()];
    let p = preview_prompt(&lines, 1, "Be kind.");
    assert!(p.contains("already read) ===\na\nb\n\n=== New messages (unread) ===\nc\n\nProvide"), "{p}");
    assert!(p.ends_with("\n\nAdditional instructions: Be kind."));
    let q = preview_prompt(&lines, 0, "");
    assert!(q.ends_with("\n\nConversation:\na\nb\nc"), "{q}");
}

#[test]
fn a_preview_is_reported_or_asked_for() {
    match plan_preview("!r:s", &Vec::new(), 0, "http://x", "m", "") {
        PreviewStep::Report { event: MatrixEvent::RoomPreview { room_id, messages_text, .. } } => {
            assert_eq!(room_id, "!r:s");
            assert!(messages_text.contains("No readable messages found"));
        }
        PreviewStep::Report { event: MatrixEvent::OllamaChunk { chunk, done, .. } } => {
            assert!(chunk.contains("No readable messages found"));
            assert!(done);
        }
        other => panic!("{other:?}"),
    }
    let items = vec![message("$1", "@alice:s", 0, "hello", Relation::Unrelated)];
    match plan_preview("!r:s", &items, 0, "http://x", "m", "") {
        PreviewStep::Ask { context, prompt } => {
            assert_eq!(context, "preview:!r:s");
            assert!(prompt.ends_with("[1970-01-01 00:00 UTC] alice: hello"));
        }
        other => panic!("{other:?}"),
    }
    assert!(matches!(preview_failed("!r:s"), MatrixEvent::RoomPreview { .. } | MatrixEvent::OllamaChunk { .. }));
}
