//! Settings.

use hikyaku::config::{
    parse_rolodex, save_settings, settings, AppearanceSettings, OllamaSettings, PluginsSettings,
    RoomSettings, Settings, StoredSettings, SyncSettings, WatchSettings, APP_ID, APP_NAME,
};

fn example() -> Settings {
    Settings {
        rooms: RoomSettings { pinned_rooms: Vec::new() },
        sync: SyncSettings { timeline_limit: 10, timeout_secs: 60 },
        appearance: AppearanceSettings {
            font_family: String::new(),
            font_size: 11,
            tint_color: String::new(),
            tint_color2: String::new(),
            sidebar_tint_color: String::new(),
            sidebar_tint_color2: String::new(),
            colorize_nicks: false,
            bookmark_highlight_color: "#f5c542".to_string(),
            new_message_highlight_color: "#5B9BD5".to_string(),
        },
        ollama: OllamaSettings {
            endpoint: "http://localhost:11434".to_string(),
            model: "qwen2.5:3b".to_string(),
            enabled: true,
            setup_done: false,
            room_preview_extra: String::new(),
            detect_conflict: false,
            detect_coc: false,
        },
        plugins: PluginsSettings { rolodex: true, pinning: true, motd: true, community_health: false },
        rolodex: Vec::new(),
        watch: WatchSettings { enabled: false, terms: Vec::new() },
    }
}

#[test]
fn test_default_settings() {
    // Just verify the struct shape is sensible.
    let s = example();
    assert!(s.rooms.pinned_rooms.is_empty());
    assert_eq!(s.sync.timeline_limit, 10);
    assert_eq!(s.sync.timeout_secs, 60);
}

#[test]
fn saved_settings_are_read_back() {
    let s = settings(save_settings(example()));
    assert_eq!(s.sync.timeline_limit, 10);
    assert_eq!(s.sync.timeout_secs, 60);
    assert_eq!(s.appearance.font_size, 11);
    assert_eq!(s.appearance.bookmark_highlight_color, "#f5c542");
    assert_eq!(s.ollama.model, "qwen2.5:3b");
    assert!(s.plugins.motd);
}

#[test]
fn the_application_has_its_names() {
    assert_eq!(APP_ID, "me.ramkrishna.hikyaku");
    assert_eq!(APP_NAME, "Hikyaku");
}

fn stored(limit: i32, font: i32) -> StoredSettings {
    let mut s = save_settings(example());
    s.timeline_limit = limit;
    s.timeout_secs = limit;
    s.font_size = font;
    s.pinned_rooms = vec!["!a:s".to_string(), "!b:s".to_string(), "!a:s".to_string()];
    s
}

#[test]
fn numbers_that_are_too_small_are_raised() {
    let s = settings(stored(-3, 2));
    assert_eq!(s.sync.timeline_limit, 1);
    assert_eq!(s.sync.timeout_secs, 1);
    assert_eq!(s.appearance.font_size, 6);
    assert_eq!(s.rooms.pinned_rooms, vec!["!a:s", "!b:s"]);
}

#[test]
fn a_rolodex_entry_is_a_name_and_a_user() {
    let entries = vec![
        " Alice | @alice:s ".to_string(),
        "nobar".to_string(),
        "|@bob:s".to_string(),
        "Bob|".to_string(),
        "C|@c:s|x".to_string(),
    ];
    assert_eq!(
        parse_rolodex(&entries),
        vec![
            ("Alice".to_string(), "@alice:s".to_string()),
            ("C".to_string(), "@c:s|x".to_string()),
        ]
    );
}

#[test]
fn settings_are_compared_by_what_they_say() {
    let mut a = example();
    let mut b = a.clone();
    assert_eq!(a, b);
    a.rooms.pinned_rooms = vec!["!1:s".to_string(), "!2:s".to_string()];
    assert_ne!(a, b);
    b.rooms.pinned_rooms = vec!["!2:s".to_string(), "!1:s".to_string()];
    assert_eq!(a, b);
    b.rooms.pinned_rooms.push("!3:s".to_string());
    assert_ne!(a, b);
    let mut c = a.clone();
    c.watch.enabled = !a.watch.enabled;
    assert_ne!(a, c);
}
