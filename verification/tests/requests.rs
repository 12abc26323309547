//! What the user asks for, and what is answered.

use hikyaku::matrix::event::MatrixEvent;
use hikyaku::matrix::ids::{localpart_of_user, server_part_of};
use hikyaku::matrix::listing::{
    directory_query, public_rooms, public_rooms_event, space_rooms, ListedRoom, DIRECTORY_LIMIT,
};
use hikyaku::matrix::requests::{
    addresses_event, alias_servers, compose_message, edit_html, find_reaction, finish_decline,
    finish_dm, finish_invite, finish_join, finish_leave, is_duplicate_reaction, message_sent,
    plan_dm, plan_join, receipt_target, search_results, start_invite, start_leave, unknown_user,
    DirectRoom, DirectStep, FoundUser, InviteOutcome, JoinPlan, LeaveOutcome,
};

fn strings(v: &[&str]) -> Vec<String> {
    v.iter().map(|s| s.to_string()).collect()
}

#[test]
fn an_invite_needs_a_room_and_a_user() {
    assert!(start_invite("!r:s.org", "@a:s.org").is_none());
    match start_invite("!r:s.org", "alice") {
        Some(MatrixEvent::InviteFailed { error }) => assert_eq!(error, "Invalid user ID: alice"),
        other => panic!("{other:?}"),
    }
    match start_invite("room", "@a:s.org") {
        Some(MatrixEvent::InviteFailed { error }) => assert_eq!(error, "Invalid room ID: room"),
        other => panic!("{other:?}"),
    }
}

#[test]
fn an_invite_is_answered() {
    match finish_invite("@a:s", InviteOutcome::Sent) {
        MatrixEvent::InviteSuccess { user_id } => assert_eq!(user_id, "@a:s"),
        other => panic!("{other:?}"),
    }
    match finish_invite("@a:s", InviteOutcome::RoomNotFound) {
        MatrixEvent::InviteFailed { error } => assert_eq!(error, "Room not found"),
        other => panic!("{other:?}"),
    }
    match finish_invite("@a:s", InviteOutcome::Failed { error: "no".to_string() }) {
        MatrixEvent::InviteFailed { error } => assert_eq!(error, "no"),
        other => panic!("{other:?}"),
    }
}

#[test]
fn leaving_is_answered() {
    assert!(start_leave("!r:s.org").is_none());
    assert!(matches!(start_leave("#r:s.org"), Some(MatrixEvent::LeaveFailed { .. })));
    assert!(matches!(finish_leave("!r:s", LeaveOutcome::Left), MatrixEvent::RoomLeft { room_id } if room_id == "!r:s"));
    assert!(matches!(finish_leave("!r:s", LeaveOutcome::RoomNotFound), MatrixEvent::LeaveFailed { error } if error == "Room not found"));
    assert!(matches!(
        finish_leave("!r:s", LeaveOutcome::Failed { error: "x".to_string() }),
        MatrixEvent::LeaveFailed { error } if error == "x"
    ));
    assert!(finish_decline("!r:s", false).is_none());
    assert!(matches!(finish_decline("!r:s", true), Some(MatrixEvent::RoomLeft { .. })));
}

#[test]
fn a_join_goes_over_distinct_servers() {
    match plan_join("!r:s.org", &strings(&["t.org", "s.org", "not a server", "t.org"])) {
        JoinPlan::Join { servers } => assert_eq!(servers, strings(&["s.org", "t.org"])),
        other => panic!("{other:?}"),
    }
    assert!(matches!(plan_join("#r:s.org", &Vec::new()), JoinPlan::Resolve));
    match plan_join("room", &Vec::new()) {
        JoinPlan::Refused { event: MatrixEvent::JoinFailed { error } } => {
            assert_eq!(error, "Invalid room ID or alias: room")
        }
        other => panic!("{other:?}"),
    }
}

#[test]
fn an_alias_is_joined_over_few_servers() {
    let many = strings(&["a.org", "b.org", "c.org", "d.org"]);
    assert_eq!(alias_servers(Some(many), &Vec::new()), strings(&["a.org", "b.org", "c.org"]));
    assert_eq!(alias_servers(None, &strings(&["a.org", "not a server"])), strings(&["a.org"]));
}

#[test]
fn a_join_is_answered() {
    let ok = finish_join("#r:s", Ok(("!r:s".to_string(), Some("Room".to_string()))));
    assert!(matches!(ok, MatrixEvent::RoomJoined { room_id, room_name } if room_id == "!r:s" && room_name == "Room"));
    let unnamed = finish_join("#r:s", Ok(("!r:s".to_string(), None)));
    assert!(matches!(unnamed, MatrixEvent::RoomJoined { room_name, .. } if room_name == "#r:s"));
    let no = finish_join("#r:s", Err("no".to_string()));
    assert!(matches!(no, MatrixEvent::JoinFailed { error } if error == "no"));
}

#[test]
fn found_users_have_names() {
    let found = vec![
        FoundUser { user_id: "@alice:s".to_string(), display_name: Some("Alice".to_string()) },
        FoundUser { user_id: "@bob:s".to_string(), display_name: None },
    ];
    match search_results(Some(found)) {
        MatrixEvent::UserSearchResults { results } => {
            assert_eq!(results[0], ("Alice".to_string(), "@alice:s".to_string()));
            assert_eq!(results[1], ("bob".to_string(), "@bob:s".to_string()));
        }
        other => panic!("{other:?}"),
    }
    assert!(matches!(search_results(None), MatrixEvent::UserSearchResults { results } if results.is_empty()));
}

fn direct(id: &str, is_direct: bool, has_user: bool) -> DirectRoom {
    DirectRoom { room_id: id.to_string(), is_direct, has_user, name: None }
}

#[test]
fn a_direct_room_is_used_again() {
    let rooms = vec![direct("!1:s", false, true), direct("!2:s", true, false), direct("!3:s", true, true)];
    match plan_dm("@a:s.org", &rooms) {
        DirectStep::Report { event: MatrixEvent::DmReady { room_id, user_id, .. } } => {
            assert_eq!((room_id.as_str(), user_id.as_str()), ("!3:s", "@a:s.org"));
        }
        other => panic!("{other:?}"),
    }
    assert!(matches!(plan_dm("@a:s.org", &Vec::new()), DirectStep::Create));
    assert!(matches!(
        plan_dm("alice", &Vec::new()),
        DirectStep::Report { event: MatrixEvent::DmFailed { .. } }
    ));
    assert!(matches!(
        unknown_user("@x:s"),
        MatrixEvent::DmFailed { error } if error == "User @x:s not found \u{2014} check the ID and try again"
    ));
    assert!(matches!(
        finish_dm("@x:s", Ok("!n:s".to_string())),
        MatrixEvent::DmReady { room_id, .. } if room_id == "!n:s"
    ));
    assert!(matches!(finish_dm("@x:s", Err("e".to_string())), MatrixEvent::DmFailed { .. }));
}

#[test]
fn a_receipt_goes_to_the_latest_event() {
    let some = |s: &str| Some(s.to_string());
    assert_eq!(receipt_target("!r:s.org", some("$a"), some("$b")), some("$a"));
    assert_eq!(receipt_target("!r:s.org", None, some("$b")), some("$b"));
    assert_eq!(receipt_target("!r:s.org", None, None), None);
}

#[test]
fn a_message_is_composed() {
    let m = compose_message("!r:s.org", "hi", Some("<b>hi</b>"), Some("$e"), false, &strings(&["@a:s.org", "bogus"])).unwrap();
    assert_eq!(m.body, "hi");
    assert_eq!(m.html.as_deref(), Some("<b>hi</b>"));
    assert_eq!(m.reply_to.as_deref(), Some("$e"));
    assert_eq!(m.mentions, strings(&["@a:s.org"]));
    assert!(!m.is_emote);
    let p = compose_message("!r:s.org", "**hi**", None, Some("no event"), true, &Vec::new()).unwrap();
    assert_eq!((p.html, p.reply_to), (None, None));
    assert!(p.is_emote);
    assert!(compose_message("room", "hi", None, None, false, &Vec::new()).is_none());
    assert!(matches!(
        message_sent("!r:s", "hi", "$1".to_string()),
        MatrixEvent::MessageSent { echo_body, event_id, .. } if echo_body == "hi" && event_id == "$1"
    ));
}

#[test]
fn edited_html_is_kept() {
    assert_eq!(edit_html(&None), None);
    let html = edit_html(&Some("<b>x</b>".to_string()));
    assert!(html.is_some());
}

#[test]
fn events_are_addressed_by_ids() {
    assert!(addresses_event("!r:s.org", "$e:s.org"));
    assert!(addresses_event("!r:s.org", "$abc"));
    assert!(!addresses_event("!r:s.org", "e"));
    assert!(!addresses_event("r", "$e"));
}

#[test]
fn a_reaction_is_found_again() {
    let raw = |id: &str, target: &str, key: &str| {
        format!(
            "{{\"event_id\":\"{id}\",\"content\":{{\"m.relates_to\":{{\"event_id\":\"{target}\",\"key\":\"{key}\"}}}}}}"
        )
    };
    let raws = vec![raw("$1", "$x", "+"), raw("$2", "$m", "-"), raw("$3", "$m", "+"), "junk".to_string()];
    assert_eq!(find_reaction(&raws, "$m", "+").as_deref(), Some("$3"));
    assert_eq!(find_reaction(&raws, "$m", "?"), None);
    assert!(is_duplicate_reaction("[400 / M_DUPLICATE_ANNOTATION] x"));
    assert!(is_duplicate_reaction("can't send same reaction twice"));
    assert!(!is_duplicate_reaction("timeout"));
}

#[test]
fn ids_have_a_server() {
    assert_eq!(localpart_of_user("@alice:s.org"), "alice");
    assert_eq!(server_part_of("!r:s.org:8448").as_deref(), Some("s.org:8448"));
    assert_eq!(server_part_of("!r"), None);
}

fn listed(id: &str, alias: Option<&str>, name: Option<&str>) -> ListedRoom {
    ListedRoom {
        room_id: id.to_string(),
        canonical_alias: alias.map(|s| s.to_string()),
        name: name.map(|s| s.to_string()),
        topic: None,
        member_count: 3,
    }
}

#[test]
fn a_directory_is_asked() {
    let q = directory_query(Some("rust"), true, Some("s.org"));
    assert_eq!(q.search.as_deref(), Some("rust"));
    assert_eq!(q.server.as_deref(), Some("s.org"));
    assert!(q.spaces_only);
    assert_eq!(q.limit, DIRECTORY_LIMIT);
    assert_eq!(directory_query(None, false, Some("not a server")).server, None);
}

#[test]
fn public_rooms_are_listed() {
    let rooms = public_rooms(
        &vec![listed("!a:s.org", Some("#a:s.org"), Some("A")), listed("!b", None, None)],
        Some("t.org"),
        &strings(&["!a:s.org"]),
    );
    assert_eq!(rooms.len(), 2);
    assert_eq!(rooms[0].name, "A");
    assert!(rooms[0].already_joined);
    assert!(!rooms[1].already_joined);
    assert_eq!(rooms[0].via_server.as_deref(), Some("s.org"));
    assert_eq!(rooms[1].via_server.as_deref(), Some("t.org"));
    assert!(matches!(
        public_rooms_event(true, Some("s.org"), Vec::new()),
        MatrixEvent::PublicSpacesForServer { server, .. } if server == "s.org"
    ));
    assert!(matches!(
        public_rooms_event(false, None, Vec::new()),
        MatrixEvent::PublicRoomDirectory { title, .. } if title == "Browse Public Rooms"
    ));
}

#[test]
fn a_space_lists_its_rooms() {
    let rooms = space_rooms(
        &vec![listed("!space:s.org", None, Some("Space")), listed("!a:s.org", None, Some("A"))],
        "!space:s.org",
        &Vec::new(),
    )
    .unwrap();
    assert_eq!(rooms.len(), 1);
    assert_eq!(rooms[0].room_id, "!a:s.org");
    assert!(space_rooms(&Vec::new(), "space", &Vec::new()).is_none());
}
