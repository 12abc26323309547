//! Messages as markup.

use hikyaku::directory::Directory;
use hikyaku::markdown::links::{extract_aliases, extract_first_matrix_to_event_link, linkify_urls};
use hikyaku::markdown::{html_to_segments, set_room_name, Segment};

#[test]
fn test_bold_italic_segment() {
    let segs = html_to_segments(&Directory::new(), "<b>hello</b>");
    assert!(matches!(&segs[0], Segment::Text(t) if t.contains("<b>hello</b>")));
}

#[test]
fn test_code_block_becomes_code_segment() {
    let segs = html_to_segments(&Directory::new(), "<p>Look:</p><pre><code class=\"language-rust\">let x = 1;</code></pre>");
    assert!(segs.iter().any(|s| matches!(s, Segment::Code { lang, .. } if lang == "rust")));
}

#[test]
fn test_inline_code_stays_text() {
    let segs = html_to_segments(&Directory::new(), "<code>x</code>");
    assert!(matches!(&segs[0], Segment::Text(t) if t.contains("<tt>x</tt>")));
}

#[test]
fn test_entities() {
    let segs = html_to_segments(&Directory::new(), "a &amp; b");
    assert!(matches!(&segs[0], Segment::Text(t) if t.contains("a &amp; b")));
}

#[test]
fn test_link() {
    let segs = html_to_segments(&Directory::new(), "<a href=\"https://example.com\">click</a>");
    assert!(matches!(&segs[0], Segment::Text(t) if t.contains("href=\"https://example.com\"")));
}

#[test]
fn test_bare_url_in_html_text_is_linkified() {
    // A bare URL in the text content of HTML (no <a> tag) should be linkified.
    let segs = html_to_segments(&Directory::new(), "Check out https://example.com for details");
    assert!(matches!(&segs[0], Segment::Text(t) if t.contains("href=\"https://example.com\"")),
        "bare URL should be wrapped in <a href>");
}

#[test]
fn test_bare_url_in_paragraph_is_linkified() {
    // pulldown_cmark wraps plain text in <p>; the stripped result is bare text.
    let segs = html_to_segments(&Directory::new(), "why no link? - https://github.com/foo/bar#section");
    assert!(matches!(&segs[0], Segment::Text(t) if t.contains("href=\"https://github.com/foo/bar#section\"")),
        "URL with fragment should be linkified");
}

#[test]
fn test_linkify_urls_basic() {
    let out = linkify_urls(&Directory::new(), "see https://example.com here");
    assert!(out.contains("<a href=\"https://example.com\">https://example.com</a>"));
}

#[test]
fn test_linkify_matrix_to_event_link_becomes_pill() {
    let url = "https://matrix.to/#/!DFxCKzUpzBjtSORjyb:matrix.org/$abc";
    let out = linkify_urls(&Directory::new(), &format!("see {url} please"));
    // href stays intact so the existing matrix-uri router fires on click.
    assert!(out.contains(&format!("<a href=\"{url}\">")), "href missing: {out}");
    // Unknown room → generic "Linked comment" label, no raw id.
    assert!(out.contains("Linked comment"), "fallback label missing: {out}");
    // Pill styling applied (green fill, white bold text).
    assert!(out.contains("background=\"#26a269\""), "pill style missing: {out}");
    // Raw URL does not appear in the rendered body.
    assert!(!out.contains(">https://matrix.to"), "raw URL leaked: {out}");
    // Opaque room id must not appear in the pill text.
    assert!(!out.contains(">!DFxCKzUpzBjtSORjyb"), "room id leaked: {out}");
}

#[test]
fn test_linkify_matrix_to_event_link_uses_cached_name() {
    // With a cached room name, the pill reads "Comment linked to <Name>".
    let mut dir = Directory::new();
    set_room_name(&mut dir, "!cached:example.org", "My Room");
    let url = "https://matrix.to/#/!cached:example.org/$abc";
    let out = linkify_urls(&dir, &format!("see {url}"));
    assert!(out.contains("Comment linked to My Room"),
        "cached room name missing: {out}");
}

#[test]
fn test_linkify_matrix_to_room_alias_becomes_pill() {
    let url = "https://matrix.to/#/%23room:example.org";
    let out = linkify_urls(&Directory::new(), &format!("go to {url}"));
    assert!(out.contains("#room:example.org\u{a0}</span>"),
        "alias pill body missing: {out}");
}

#[test]
fn test_linkify_matrix_to_user_link_becomes_pill() {
    let url = "https://matrix.to/#/@alice:example.org";
    let out = linkify_urls(&Directory::new(), &format!("ping {url}"));
    assert!(out.contains("@alice:example.org\u{a0}</span>"),
        "user pill body missing: {out}");
}

#[test]
fn test_linkify_plain_url_stays_plain() {
    // Non-matrix.to URLs should still render as normal inline links.
    let out = linkify_urls(&Directory::new(), "see https://example.com here");
    assert!(out.contains("<a href=\"https://example.com\">https://example.com</a>"));
    assert!(!out.contains("background=\"#26a269\""), "plain URL got pill: {out}");
}

#[test]
fn test_linkify_urls_no_false_positive() {
    // "http" that is not a proper URL prefix should not be linkified.
    let out = linkify_urls(&Directory::new(), "not a link: httpx://foo");
    assert!(!out.contains("<a"), "httpx:// should not be linkified");
}

#[test]
fn test_linkify_room_alias() {
    let out = linkify_urls(&Directory::new(), "see #outreachy:gnome.org for info");
    assert!(out.contains("<a href=\"https://matrix.to/#/%23outreachy:gnome.org\">"),
        "anchor href missing: {out}");
    // Alias text survives inside the pill body span, padded with NBSPs.
    assert!(out.contains("#outreachy:gnome.org\u{a0}</span></a>"),
        "pill body missing: {out}");
}

#[test]
fn test_linkify_room_alias_no_bare_hashes() {
    // Bug tags (#123) and word-suffix hashes (foo#bar) must NOT linkify.
    let out = linkify_urls(&Directory::new(), "see bug#123 and foo#bar for details");
    assert!(!out.contains("<a"), "bug#123 should not match: {out}");
}

#[test]
fn test_linkify_room_alias_requires_dotted_server() {
    // A server name without a dot is not a real alias.
    let out = linkify_urls(&Directory::new(), "meet at #lunch:today please");
    assert!(!out.contains("<a"), "single-label server should not match: {out}");
}

#[test]
fn test_linkify_room_alias_and_url_together() {
    let out = linkify_urls(&Directory::new(), "see #room:example.org or https://example.org/doc");
    assert!(out.contains("<a href=\"https://matrix.to/#/%23room:example.org\">"));
    assert!(out.contains("<a href=\"https://example.org/doc\">https://example.org/doc</a>"));
}

// ── extract_aliases  ──────────────────────

#[test]
fn extract_aliases_plain_text() {
    let got = extract_aliases("come to #rust:example.org or #fedi.social:mastodon.social");
    assert_eq!(got, vec!["#rust:example.org", "#fedi.social:mastodon.social"]);
}

#[test]
fn extract_aliases_dedupes_repeats() {
    let got = extract_aliases("#r:example.org then later #r:example.org again");
    assert_eq!(got, vec!["#r:example.org"]);
}

#[test]
fn extract_aliases_rejects_bare_hash_counters() {
    // A `#123` counter or a `bug#42` issue reference is not an alias.
    let got = extract_aliases("filed bug#42 against #123 tracker");
    assert!(got.is_empty(), "got {got:?}");
}

#[test]
fn extract_aliases_requires_dotted_server() {
    // `#a:b` has no `.` in the server — not a valid alias.
    let got = extract_aliases("try #a:b and #real:server.tld");
    assert_eq!(got, vec!["#real:server.tld"]);
}

#[test]
fn extract_aliases_empty_on_no_match() {
    let got = extract_aliases("just plain text with no aliases");
    assert!(got.is_empty());
}

#[test]
fn extract_aliases_stops_at_whitespace_and_tag_edges() {
    // Trailing slash, whitespace, and angle brackets all terminate the server name.
    let got = extract_aliases("goto #foo:server.tld/path next");
    assert_eq!(got, vec!["#foo:server.tld"]);
}

// ── extract_first_matrix_to_event_link (link-preview card) ────────

#[test]
fn extract_event_link_basic_room_id() {
    let body = "see https://matrix.to/#/%21abc:example.org/$evt123 for context";
    let got = extract_first_matrix_to_event_link(body);
    assert_eq!(got, Some(("!abc:example.org".to_string(), "$evt123".to_string())));
}

#[test]
fn extract_event_link_basic_alias() {
    let body = "https://matrix.to/#/%23room:example.org/$evt456";
    let got = extract_first_matrix_to_event_link(body);
    assert_eq!(got, Some(("#room:example.org".to_string(), "$evt456".to_string())));
}

#[test]
fn extract_event_link_strips_via_query() {
    let body = "https://matrix.to/#/%21abc:example.org/$evt789?via=other.org";
    let got = extract_first_matrix_to_event_link(body);
    assert_eq!(got, Some(("!abc:example.org".to_string(), "$evt789".to_string())));
}

#[test]
fn extract_event_link_rejects_room_only() {
    // No /$event suffix → room-only link, not an event reference.
    let body = "join https://matrix.to/#/%23room:example.org";
    assert_eq!(extract_first_matrix_to_event_link(body), None);
}

#[test]
fn extract_event_link_rejects_user_link() {
    let body = "ping https://matrix.to/#/@alice:example.org";
    assert_eq!(extract_first_matrix_to_event_link(body), None);
}

#[test]
fn extract_event_link_returns_first() {
    let body = "https://matrix.to/#/%21a:s.tld/$one and https://matrix.to/#/%21b:s.tld/$two";
    let got = extract_first_matrix_to_event_link(body);
    assert_eq!(got, Some(("!a:s.tld".to_string(), "$one".to_string())));
}

#[test]
fn extract_event_link_handles_trailing_punctuation() {
    let body = "see https://matrix.to/#/%21abc:example.org/$evt123, please";
    let got = extract_first_matrix_to_event_link(body);
    assert_eq!(got, Some(("!abc:example.org".to_string(), "$evt123".to_string())));
}

#[test]
fn text_around_an_empty_code_block_is_one_segment() {
    let segs = html_to_segments(&Directory::new(), "a<pre></pre>b");
    assert_eq!(segs.len(), 1, "{segs:?}");
    assert!(matches!(&segs[0], Segment::Text(t) if t.contains('a') && t.contains('b')));
}

#[test]
fn text_and_code_alternate() {
    let segs = html_to_segments(&Directory::new(), "a<pre>x</pre>b<pre> </pre>c");
    let kinds: Vec<bool> = segs.iter().map(|s| matches!(s, Segment::Text(_))).collect();
    assert!(kinds.windows(2).all(|w| !(w[0] && w[1])), "{segs:?}");
}

#[test]
fn the_quoted_part_of_a_reply_is_not_shown() {
    let dir = Directory::new();
    let with = html_to_segments(
        &dir,
        "<mx-reply><blockquote>old <b>text</b><pre>x</pre></blockquote></mx-reply>new <i>one</i>",
    );
    let without = html_to_segments(&dir, "new <i>one</i>");
    assert_eq!(format!("{with:?}"), format!("{without:?}"));
}

#[test]
fn every_extracted_alias_is_linked() {
    let text = "see #one:a.org and #two:b.org";
    let linked = linkify_urls(&Directory::new(), text);
    let found = extract_aliases(text);
    assert_eq!(found.len(), 2);
    for alias in found {
        assert!(linked.contains(&format!("<a href=\"https://matrix.to/#/%23{}\">", &alias[1..])), "{linked}");
    }
}
