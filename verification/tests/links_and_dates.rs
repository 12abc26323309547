//! Links, escapes, dates and names of files.

use hikyaku::bookmarks::{BookmarkEntry, BookmarkStore};
use hikyaku::calendar::{format_unix_date, format_unix_ts};
use hikyaku::directory::Directory;
use hikyaku::markdown::entities::{decode_html_entities, escape_attr, escape_text};
use hikyaku::markdown::{html_to_pango, md_to_html, md_to_pango};
use hikyaku::markup_worker::{apply_result, next_job, run_job, start, try_enqueue, MarkupQueue};
use hikyaku::matrix::media::{
    avatar_file_name, outgoing_file, plan_download, sanitize_media_filename, sniff_extension,
    web_file_name, Download,
};
use hikyaku::models::message_object::{fnv1a_str, MessageObject};
use hikyaku::perf::{scope_gt, Accumulator, Scope};
use hikyaku::uri::{parse_matrix_uri, percent_decode};

#[test]
fn days_are_counted_by_the_calendar() {
    assert_eq!(format_unix_date(0), "1970-01-01");
    assert_eq!(format_unix_date(951_782_400), "2000-02-29");
    assert_eq!(format_unix_date(951_868_800), "2000-03-01");
    assert_eq!(format_unix_date(4_102_444_799), "2099-12-31");
    assert_eq!(format_unix_date(1_700_000_000), "2023-11-14");
}

#[test]
fn a_time_has_hours_and_minutes() {
    assert_eq!(format_unix_ts(1_700_000_000), "2023-11-14 22:13 UTC");
    assert_eq!(format_unix_ts(59), "1970-01-01 00:00 UTC");
}

#[test]
fn matrix_links_name_a_room_or_a_user() {
    assert_eq!(parse_matrix_uri("https://matrix.to/#/#room:s.org").as_deref(), Some("#room:s.org"));
    assert_eq!(parse_matrix_uri("https://matrix.to/#/%23room%3As.org").as_deref(), Some("#room:s.org"));
    assert_eq!(parse_matrix_uri("matrix:r/room:s.org").as_deref(), Some("#room:s.org"));
    assert_eq!(parse_matrix_uri("https://example.org"), None);
}

#[test]
fn percent_escapes_are_decoded() {
    assert_eq!(percent_decode("a%20b"), "a b");
    assert_eq!(percent_decode("%C3%A9"), "\u{e9}");
    assert_eq!(percent_decode("100%"), "100%");
    assert_eq!(percent_decode("%zz"), "%zz");
    assert_eq!(percent_decode("%ff"), "\u{fffd}");
}

#[test]
fn escapes_are_undone() {
    for s in ["a < b && \"c\" > 'd'", "plain", "&amp;"] {
        assert_eq!(decode_html_entities(&escape_text(s)), s);
    }
    assert_eq!(escape_attr("a\"b<c>&"), "a&quot;b&lt;c&gt;&amp;");
    assert_eq!(decode_html_entities("&#65;&#x42;&nbsp;&bogus;"), "AB\u{a0}&bogus;");
}

#[test]
fn markdown_is_rendered() {
    assert_eq!(md_to_html("**hi**"), "<strong>hi</strong>");
    let dir = Directory::new();
    assert_eq!(md_to_pango(&dir, "**hi**"), "<b>hi</b>");
    assert_eq!(html_to_pango(&dir, "<em>hi</em>"), "<i>hi</i>");
}

#[test]
fn markup_is_rendered_for_its_target() {
    let dir = Directory::new();
    let mut queue: MarkupQueue<&str> = MarkupQueue::new();
    assert!(start(&mut queue));
    try_enqueue(&mut queue, "row", "<b>x</b>".to_string());
    let job = next_job(&mut queue).unwrap();
    let markup = run_job(&dir, &job);
    assert_eq!(markup, "<b>x</b>");
    assert_eq!(apply_result(&mut queue, job.id, markup.clone()), Some(("row", markup.clone())));
    assert_eq!(apply_result(&mut queue, job.id, markup), None);
}

fn bookmark(id: &str) -> BookmarkEntry {
    BookmarkEntry {
        room_id: "!r:s".to_string(),
        room_name: "Room".to_string(),
        event_id: id.to_string(),
        sender: "Alice".to_string(),
        body_preview: "hi".to_string(),
        timestamp: 1,
    }
}

#[test]
fn a_bookmark_is_kept_once() {
    let mut store = BookmarkStore::new();
    store.load(Some(vec![bookmark("$1")]));
    assert!(store.is_loaded());
    store.take_dirty();
    let ids = |v: Vec<BookmarkEntry>| v.into_iter().map(|b| b.event_id).collect::<Vec<_>>();
    assert_eq!(ids(store.add(None, bookmark("$2"))), vec!["$1", "$2"]);
    assert!(store.take_dirty());
    assert_eq!(ids(store.add(None, bookmark("$2"))).len(), 2);
    assert_eq!(ids(store.remove(None, "$2")), vec!["$1"]);
}

#[test]
fn the_first_bookmark_joins_those_on_disk() {
    let mut store = BookmarkStore::new();
    assert_eq!(store.add(Some(vec![bookmark("$1")]), bookmark("$2")).len(), 2);
    assert_eq!(store.add(Some(Vec::new()), bookmark("$3")).len(), 3);
}

#[test]
fn media_are_told_by_their_first_bytes() {
    assert_eq!(sniff_extension(&vec![0x89, b'P', b'N', b'G', 0x0d, 0x0a, 0x1a, 0x0a]), Some("png"));
    assert_eq!(sniff_extension(&vec![0xff, 0xd8, 0xff, 0xe0]), Some("jpg"));
    assert_eq!(sniff_extension(&b"GIF89a".to_vec()), Some("gif"));
    assert_eq!(sniff_extension(&b"%PDF-1.4".to_vec()), Some("pdf"));
    assert_eq!(sniff_extension(&b"hello".to_vec()), None);
}

#[test]
fn a_file_name_has_no_directory() {
    let none: Vec<u8> = Vec::new();
    assert_eq!(sanitize_media_filename("photo.png", &none), "photo.png");
    assert_eq!(sanitize_media_filename("../../etc/passwd", &none), "passwd");
    assert!(!sanitize_media_filename("..", &none).contains(".."));
    let jpg: Vec<u8> = vec![0xff, 0xd8, 0xff, 0xe0];
    assert_eq!(sanitize_media_filename("photo", &jpg), "photo.jpg");
}

#[test]
fn a_file_to_send_has_a_kind() {
    assert_eq!(
        outgoing_file("/tmp/a/photo.png"),
        ("photo.png".to_string(), "image/png".to_string())
    );
    assert_eq!(outgoing_file("/tmp/x").1, "application/octet-stream");
}

#[test]
fn a_download_is_planned_by_its_address() {
    assert!(matches!(plan_download("file:///tmp/x.png", ""), Download::Ready { .. }));
    assert!(matches!(plan_download("https://s/x.png", ""), Download::Web));
    assert!(matches!(plan_download("mxc://s/x", "{\"url\":\"mxc://s/x\"}"), Download::Source));
    assert!(matches!(plan_download("mxc://s/x", ""), Download::Uri));
}

#[test]
fn stored_files_are_named_by_a_hash() {
    assert_eq!(avatar_file_name(0x1f), "1f.jpg");
    let name = web_file_name(0xff, "image/png", "https://s/x");
    assert!(name.ends_with(".png"), "{name}");
    assert!(name.contains("ff"), "{name}");
}

#[test]
fn bodies_are_hashed() {
    assert_eq!(fnv1a_str(""), 0xcbf2_9ce4_8422_2325);
    assert_eq!(fnv1a_str("a"), 0xaf63_dc4c_8601_ec8c);
    assert_eq!(fnv1a_str("foobar"), 0x8594_4171_f739_67e8);
}

#[test]
fn a_message_keeps_its_reactions() {
    let mut m = MessageObject::new(
        "Alice",
        "@a:s",
        "hi",
        "",
        1,
        "$1",
        "",
        "",
        &[("+".to_string(), 1, vec!["Bob".to_string()])],
        "",
    );
    assert_eq!(m.reactions_json(), "[[\"+\",1,[\"Bob\"]]]");
    assert_eq!(m.reactions_hash(), 0);
    m.update_reactions_json("[]".to_string());
    assert_eq!(m.reactions_json(), "[]");
    assert_eq!(m.reactions_hash(), fnv1a_str("[]"));
}

#[test]
fn slow_scopes_are_reported() {
    let s = Scope::with_threshold("paint", 100);
    assert_eq!(s.report(99), None);
    let line = s.report(2500).unwrap();
    assert!(line.contains("paint") && line.contains("2500"), "{line}");
    assert_eq!(scope_gt("quick", u128::MAX).finish(), None);
}

#[test]
fn an_accumulator_starts_again() {
    let mut a = Accumulator::new("bind");
    assert_eq!(a.log_and_reset(), None);
    a.add(10);
    a.add(30);
    assert_eq!((a.count, a.total_us, a.max_us), (2, 40, 30));
    let line = a.log_and_reset().unwrap();
    assert!(line.contains("bind") && line.contains("20"), "{line}");
    assert_eq!((a.count, a.total_us, a.max_us), (0, 0, 0));
}

#[test]
fn decoding_undoes_escaping_for_an_attribute() {
    for s in ["", "plain", "a\"b<c>&", "&amp;", "it's"] {
        assert_eq!(decode_html_entities(&escape_attr(s)), s);
    }
}
