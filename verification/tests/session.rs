//! Logging in, encryption and verification.

use hikyaku::matrix::command::MatrixCommand;
use hikyaku::matrix::encryption::{
    all_keys_received, bootstrap_step, finish_import, finish_recovery, keys_received, setup_events,
    Bootstrap, BootstrapStep,
};
use hikyaku::matrix::event::MatrixEvent;
use hikyaku::matrix::info::RoomMeta;
use hikyaku::matrix::room_cache::RoomCache;
use hikyaku::matrix::session::{
    db_dir_name, device_name, finish_login, finish_registration, homeserver_target, is_auth_error,
    keyring_app_attr, login_step, needs_migration, needs_new_url, registration_step, restore_target,
    restored, CommandLoop, Homeserver, LoginStep, LoopStep, RegistrationAnswer, RegistrationStep,
};
use hikyaku::matrix::sync::{retry_sync, SyncEnd};
use hikyaku::matrix::verification::{
    accept_verification, cancel_verification, confirm_verification, on_request, on_sas_change,
    SasChange, VerificationState,
};

#[test]
fn the_wizard_has_its_own_keyring() {
    assert_eq!(keyring_app_attr(false), "me.ramkrishna.hikyaku");
    assert_eq!(keyring_app_attr(true), "me.ramkrishna.hikyaku.wizard");
}

#[test]
fn a_homeserver_is_a_url_or_a_name() {
    assert!(matches!(homeserver_target("https://s.org"), Some(Homeserver::Url { url }) if url == "https://s.org"));
    assert!(matches!(homeserver_target("s.org"), Some(Homeserver::Name { name }) if name == "s.org"));
    assert!(homeserver_target("not a server").is_none());
    assert!(matches!(
        restore_target("s.org", Some("https://m.s.org")),
        Some(Homeserver::Url { url }) if url == "https://m.s.org"
    ));
    assert!(matches!(restore_target("s.org", None), Some(Homeserver::Name { .. })));
}

#[test]
fn every_homeserver_has_its_directory() {
    let a = db_dir_name("https://s.org");
    assert!(!a.contains('/'), "{a}");
    assert_ne!(a, db_dir_name("https://t.org"));
    assert!(needs_migration(true, false));
    assert!(!needs_migration(true, true));
    assert!(!needs_migration(false, false));
}

#[test]
fn a_refused_token_is_told_from_other_errors() {
    assert!(is_auth_error("[401 / M_UNKNOWN_TOKEN]"));
    assert!(is_auth_error("Unknown access token"));
    assert!(is_auth_error("403 Forbidden"));
    assert!(!is_auth_error("connection refused"));
    assert!(needs_new_url(None, "https://s.org/"));
    assert!(!needs_new_url(Some("https://s.org/"), "https://s.org/"));
}

#[test]
fn a_login_is_reported() {
    match restored(Some("@a:s".to_string())) {
        MatrixEvent::LoginSuccess { user_id, is_fresh_login, .. } => {
            assert_eq!(user_id, "@a:s");
            assert!(!is_fresh_login);
        }
        other => panic!("{other:?}"),
    }
    let (event, cleanup) = finish_login("alice", Ok(Some("@alice:s".to_string())));
    assert!(!cleanup);
    match event {
        MatrixEvent::LoginSuccess { display_name, user_id, from_registration, is_fresh_login } => {
            assert_eq!((display_name.as_str(), user_id.as_str()), ("alice", "@alice:s"));
            assert!(!from_registration && is_fresh_login);
        }
        other => panic!("{other:?}"),
    }
    let (event, cleanup) = finish_login("alice", Err("bad".to_string()));
    assert!(cleanup);
    assert!(matches!(event, MatrixEvent::LoginFailed { error } if error == "bad"));
}

#[test]
fn a_registration_is_reported() {
    match finish_registration("alice", "", Ok(None)) {
        MatrixEvent::LoginSuccess { display_name, from_registration, .. } => {
            assert_eq!(display_name, "alice");
            assert!(from_registration);
        }
        other => panic!("{other:?}"),
    }
    assert!(matches!(
        finish_registration("alice", "Al", Err("no".to_string())),
        MatrixEvent::RegistrationFailed { error } if error == "no"
    ));
    assert_eq!(device_name(""), "Hikyaku");
    assert_eq!(device_name("Al"), "Al");
}

#[test]
fn a_registration_goes_on_in_its_session() {
    let retry = |stages, status, body: Option<&str>| {
        registration_step(&RegistrationAnswer { stages, status, body: body.map(|s| s.to_string()) })
    };
    assert!(matches!(
        retry(Some(Some("s1".to_string())), None, None),
        RegistrationStep::Retry { session: Some(s) } if s == "s1"
    ));
    assert!(matches!(
        retry(None, Some(401), Some("{\"session\":\"s2\"}")),
        RegistrationStep::Retry { session: Some(s) } if s == "s2"
    ));
    assert!(matches!(retry(None, Some(400), Some("{\"session\":\"s2\"}")), RegistrationStep::Fail));
    assert!(matches!(retry(None, Some(401), Some("{}")), RegistrationStep::Fail));
}

#[test]
fn only_a_login_is_taken_before_somebody_is_logged_in() {
    let login = MatrixCommand::Login {
        homeserver: "s.org".to_string(),
        username: "a".to_string(),
        password: "p".to_string(),
    };
    assert!(matches!(login_step(login), LoginStep::Login { username, .. } if username == "a"));
    assert!(matches!(login_step(MatrixCommand::Logout), LoginStep::Ignore));
}

#[test]
fn the_last_receipt_is_waited_for() {
    let mut l = CommandLoop::new();
    let read = MatrixCommand::MarkRead { room_id: "!r:s".to_string() };
    assert_eq!(l.step(&read), LoopStep::Run { stop_preview: false });
    assert_eq!(l.step(&MatrixCommand::CancelRoomPreview), LoopStep::Run { stop_preview: false });
    assert_eq!(
        l.step(&MatrixCommand::Shutdown),
        LoopStep::Stop { await_receipt: true, tell_sync: true }
    );
    assert_eq!(
        l.step(&MatrixCommand::Logout),
        LoopStep::Stop { await_receipt: false, tell_sync: false }
    );
    let login = MatrixCommand::Login {
        homeserver: String::new(),
        username: String::new(),
        password: String::new(),
    };
    assert_eq!(l.step(&login), LoopStep::Ignore);
}

#[test]
fn a_failed_sync_is_tried_again() {
    assert!(retry_sync(SyncEnd::Failed, false));
    assert!(!retry_sync(SyncEnd::Failed, true));
    assert!(!retry_sync(SyncEnd::Shutdown, false));
}

#[test]
fn keys_are_set_up_with_the_password_if_it_is_known() {
    let asked = || Bootstrap::NeedsPassword { session: Some("s".to_string()) };
    let known = Some(("a".to_string(), "p".to_string()));
    assert!(matches!(
        bootstrap_step(asked(), known),
        BootstrapStep::Retry { username, password, session: Some(s) }
            if username == "a" && password == "p" && s == "s"
    ));
    assert!(matches!(
        bootstrap_step(asked(), None),
        BootstrapStep::Report { event: MatrixEvent::CrossSigningNeedsPassword }
    ));
    assert!(matches!(bootstrap_step(Bootstrap::Ready, None), BootstrapStep::Done));
    assert!(matches!(bootstrap_step(Bootstrap::Failed, None), BootstrapStep::Done));
}

#[test]
fn the_setup_is_reported() {
    assert!(setup_events(false, true, true).is_empty());
    let events = setup_events(false, false, false);
    assert!(matches!(events[0], MatrixEvent::BackupVersionMismatch));
    assert!(matches!(events[1], MatrixEvent::DeviceUnverified));
    assert!(matches!(setup_events(true, true, false)[0], MatrixEvent::CrossSigningBootstrapped));
    assert!(finish_recovery(Ok(true)).1);
    assert!(!finish_recovery(Ok(false)).1);
    assert!(matches!(
        finish_recovery(Err("x".to_string())),
        (MatrixEvent::RecoveryFailed { error }, false) if error == "x"
    ));
}

fn empty_meta() -> RoomMeta {
    RoomMeta {
        topic: String::new(),
        is_tombstoned: false,
        replacement_room: None,
        replacement_room_name: None,
        pinned_messages: Vec::new(),
        is_encrypted: false,
        member_count: 0,
        is_favourite: false,
        members: Vec::new(),
        member_avatars: Vec::new(),
        members_fetched: false,
        unread_count: 0,
        fully_read_event_id: None,
    }
}

#[test]
fn rooms_are_fetched_again_when_keys_arrive() {
    let mut cache = RoomCache::new();
    for room in ["!a:s", "!b:s"] {
        cache.insert_memory_only(room, Vec::new(), None, empty_meta());
        cache.mark_fresh(room, 5);
        assert!(cache.is_fresh(room, 5, 1000));
    }
    let ids = vec!["!a:s".to_string(), "!a:s".to_string()];
    match keys_received(&mut cache, &ids) {
        Some(MatrixEvent::RoomKeysReceived { room_ids }) => assert_eq!(room_ids, vec!["!a:s"]),
        other => panic!("{other:?}"),
    }
    assert!(!cache.is_fresh("!a:s", 5, 1000));
    assert!(cache.is_fresh("!b:s", 5, 1000));
    assert!(keys_received(&mut cache, &Vec::new()).is_none());
    assert!(matches!(all_keys_received(&mut cache), MatrixEvent::RoomKeysReceived { .. }));
    let events = finish_import(&mut cache, Ok((3, 4)));
    assert!(matches!(events[0], MatrixEvent::KeysImported { imported: 3, total: 4 }));
    assert!(matches!(
        finish_import(&mut cache, Err("x".to_string()))[0],
        MatrixEvent::KeyImportFailed { .. }
    ));
}

#[test]
fn a_verification_runs_its_course() {
    let mut state: VerificationState<u8, u8> = VerificationState::new();
    match on_request(&mut state, "f1", "@a:s", None, 7) {
        MatrixEvent::VerificationRequest { flow_id, other_user, other_device } => {
            assert_eq!((flow_id.as_str(), other_user.as_str(), other_device.as_str()), ("f1", "@a:s", "unknown"));
        }
        other => panic!("{other:?}"),
    }
    assert_eq!(accept_verification(&state, "f1"), Some(&7));
    assert_eq!(accept_verification(&state, "f2"), None);
    assert_eq!(confirm_verification(&state, "f1"), None);
    state.sas_sessions.insert("f1".to_string(), 9);
    assert_eq!(confirm_verification(&state, "f1"), Some(&9));
    let (event, over) = on_sas_change(&mut state, "f1", SasChange::Done);
    assert!(over);
    assert!(matches!(event, Some(MatrixEvent::VerificationDone { flow_id }) if flow_id == "f1"));
    assert_eq!(accept_verification(&state, "f1"), None);
    let (event, over) = on_sas_change(&mut state, "f1", SasChange::Other);
    assert!(event.is_none() && !over);
    on_request(&mut state, "f3", "@a:s", Some("D".to_string()), 8);
    assert_eq!(cancel_verification(&mut state, "f3"), (None, Some(8)));
    assert_eq!(cancel_verification(&mut state, "f3"), (None, None));
    let (event, over) = on_sas_change(&mut state, "f4", SasChange::Cancelled { reason: "r".to_string() });
    assert!(over);
    assert!(matches!(event, Some(MatrixEvent::VerificationCancelled { reason, .. }) if reason == "r"));
}
