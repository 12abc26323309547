//! Names of users, rooms and servers.

use hikyaku::directory::{
    observe_server, room_id_for_alias, room_name, server_from_matrix_id, servers_by_recency,
    set_room_alias, set_room_name, set_user_display_name, user_display_name, Directory,
};

#[test]
fn user_display_name_falls_back_to_localpart() {
    let dir = Directory::new();
    assert_eq!(user_display_name(&dir, "@alice:example.com"), "alice");
    assert_eq!(user_display_name(&dir, ""), "");
}

#[test]
fn user_display_name_uses_recorded_name() {
    let mut dir = Directory::new();
    set_user_display_name(&mut dir, "@bob:example.com", "Bob Smith");
    assert_eq!(user_display_name(&dir, "@bob:example.com"), "Bob Smith");
}

#[test]
fn room_name_roundtrip() {
    let mut dir = Directory::new();
    set_room_name(&mut dir, "!room1:example.com", "Standup");
    assert_eq!(room_name(&dir, "!room1:example.com"), Some("Standup".into()));
    assert_eq!(room_name(&dir, "!room2:example.com"), None);
}

#[test]
fn alias_reverse_lookup() {
    let mut dir = Directory::new();
    set_room_name(&mut dir, "!aliased:example.com", "Project Kai");
    set_room_alias(&mut dir, "!aliased:example.com", "#kai:example.com");
    assert_eq!(
        room_id_for_alias(&dir, "#kai:example.com").as_deref(),
        Some("!aliased:example.com"),
    );
}

#[test]
fn server_extraction_from_matrix_ids() {
    assert_eq!(server_from_matrix_id("@alice:matrix.org").as_deref(), Some("matrix.org"));
    assert_eq!(server_from_matrix_id("!abc:gnome.org").as_deref(), Some("gnome.org"));
    assert_eq!(server_from_matrix_id("#room:fedora.im").as_deref(), Some("fedora.im"));
    assert_eq!(server_from_matrix_id("nocolon"), None);
    assert_eq!(server_from_matrix_id("alice:"), None);
}

#[test]
fn servers_ranked_by_recency() {
    let mut dir = Directory::new();
    observe_server(&mut dir, "earliest.test");
    observe_server(&mut dir, "middle.test");
    observe_server(&mut dir, "latest.test");
    let ranked = servers_by_recency(&dir);
    // "latest" must come before "earliest" — most recent first.
    let latest = ranked.iter().position(|s| s == "latest.test").unwrap();
    let earliest = ranked.iter().position(|s| s == "earliest.test").unwrap();
    assert!(latest < earliest, "ranking wrong: {ranked:?}");
}

#[test]
fn a_server_seen_again_comes_first() {
    let mut dir = Directory::new();
    observe_server(&mut dir, "a.test");
    observe_server(&mut dir, "b.test");
    observe_server(&mut dir, "a.test");
    assert_eq!(servers_by_recency(&dir), vec!["a.test", "b.test"]);
}

#[test]
fn the_other_servers_keep_their_order() {
    let mut dir = Directory::new();
    for name in ["a.test", "b.test", "c.test", "d.test"] {
        observe_server(&mut dir, name);
    }
    observe_server(&mut dir, "b.test");
    observe_server(&mut dir, "");
    assert_eq!(servers_by_recency(&dir), vec!["b.test", "d.test", "c.test", "a.test"]);
}
