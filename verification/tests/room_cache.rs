//! What is kept of a room in memory.

use hikyaku::matrix::info::{MessageInfo, RoomMeta};
use hikyaku::matrix::refresh::{refreshed_meta, RoomFacts};
use hikyaku::matrix::room_cache::{RoomCache, MAX_MEMORY_MSGS};
use hikyaku::matrix::unread::should_skip_refresh;

fn make_msg(event_id: &str) -> MessageInfo {
    MessageInfo {
        event_id: event_id.to_string(),
        sender: "Alice".to_string(),
        sender_id: "@alice:example.org".to_string(),
        body: "hello".to_string(),
        formatted_body: None,
        timestamp: 0,
        reply_to: None,
        reply_to_sender: None,
        thread_root: None,
        reactions: Vec::new(),
        media: None,
        is_highlight: false,
        is_system_event: false,
    }
}

fn empty_meta() -> RoomMeta {
    RoomMeta {
        topic: String::new(),
        is_tombstoned: false,
        replacement_room: None,
        replacement_room_name: None,
        pinned_messages: Vec::new(),
        is_encrypted: false,
        member_count: 0,
        is_favourite: false,
        members: Vec::new(),
        member_avatars: Vec::new(),
        members_fetched: false,
        unread_count: 0,
        fully_read_event_id: None,
    }
}

#[test]
fn append_memory_trims_to_cap() {
    let mut cache = RoomCache::new();
    cache.insert_memory_only("!r:s", Vec::new(), None, empty_meta());
    for i in 0..(MAX_MEMORY_MSGS + 10) {
        cache.append_memory("!r:s", make_msg(&format!("$ev{i}")));
    }
    let msgs = cache.get_memory("!r:s").unwrap().messages;
    assert_eq!(msgs.len(), MAX_MEMORY_MSGS);
}

#[test]
fn append_memory_keeps_newest_messages_after_trim() {
    let mut cache = RoomCache::new();
    cache.insert_memory_only("!r:s", Vec::new(), None, empty_meta());
    let total = MAX_MEMORY_MSGS + 5;
    for i in 0..total {
        cache.append_memory("!r:s", make_msg(&format!("$ev{i}")));
    }
    let msgs = cache.get_memory("!r:s").unwrap().messages;
    assert_eq!(msgs.last().unwrap().event_id, format!("$ev{}", total - 1));
    assert_eq!(msgs.first().unwrap().event_id, "$ev5");
}

#[test]
fn append_memory_under_cap_does_not_trim() {
    let mut cache = RoomCache::new();
    cache.insert_memory_only("!r:s", Vec::new(), None, empty_meta());
    for i in 0..10 {
        cache.append_memory("!r:s", make_msg(&format!("$ev{i}")));
    }
    let msgs = cache.get_memory("!r:s").unwrap().messages;
    assert_eq!(msgs.len(), 10);
}

#[test]
fn cache_members_roundtrip() {
    let mut cache = RoomCache::new();
    cache.insert_memory_only("!r:s", Vec::new(), None, empty_meta());

    // Before caching, get_cached_members returns None (members_fetched=false).
    assert!(cache.get_cached_members("!r:s").is_none());

    let members = vec![
        ("@alice:example.org".to_string(), "Alice".to_string()),
        ("@bob:example.org".to_string(), "Bob".to_string()),
    ];
    let avatars = vec![
        ("@alice:example.org".to_string(), "mxc://example.org/avatar".to_string()),
    ];
    cache.cache_members("!r:s", members.clone(), avatars.clone());

    let (cached_members, cached_avatars) = cache.get_cached_members("!r:s").unwrap();
    assert_eq!(cached_members, members);
    assert_eq!(cached_avatars, avatars);
}

#[test]
fn cache_members_independent_of_memory_entry() {
    let mut cache = RoomCache::new();
    // cache_members works even for rooms not in the memory/timeline cache.
    // The member cache is a separate HashMap that survives invalidate_room().
    cache.cache_members("!unknown:s", vec![("@a:s".to_string(), "A".to_string())], vec![]);
    let result = cache.get_cached_members("!unknown:s");
    assert!(result.is_some(), "member cache should store without a memory entry");
    let (members, _) = result.unwrap();
    assert_eq!(members[0].0, "@a:s");
}

#[test]
fn member_count_prefers_fetched_list_over_sdk_zero() {
    // The server's count is 0 (pre-sync) but there is a fetched member list:
    // verify the correct count is used.
    let fetched_members: Vec<(String, String)> = vec![
        ("@alice:example.org".to_string(), "Alice".to_string()),
        ("@bob:example.org".to_string(), "Bob".to_string()),
        ("@carol:example.org".to_string(), "Carol".to_string()),
    ];
    let sdk_count: u64 = 0; // Pre-sync count is unreliable.
    let facts = RoomFacts {
        topic: String::new(),
        replacement: None,
        pinned_messages: Vec::new(),
        is_encrypted: false,
        is_favourite: false,
        members: fetched_members,
        member_avatars: Vec::new(),
        joined_members: sdk_count,
        sdk_unread: 0,
        fully_read_event_id: None,
    };
    let member_count = refreshed_meta(facts, &Vec::new(), 0).member_count;
    assert_eq!(member_count, 3);
}

/// Freshly fetched members (not from memory) must be shown even if messages are
/// unchanged.
#[test]
fn fresh_members_bypass_messages_unchanged_skip() {
    let members_were_cached = false;
    let members: Vec<(String, String)> = vec![
        ("@alice:example.org".to_string(), "Alice".to_string()),
    ];
    let unread_count = 0u32;
    let fully_read_event_id: Option<String> = None;

    let should_skip = should_skip_refresh(
        unread_count,
        fully_read_event_id.as_deref(),
        members_were_cached,
        &members,
    );
    // Must NOT skip: there are fresh members that were not shown yet.
    assert!(!should_skip, "skipped the messages despite fresh members");

    // If members were cached (no new info), it is safe to skip.
    let members_were_cached2 = true;
    let should_skip2 = should_skip_refresh(
        unread_count,
        fully_read_event_id.as_deref(),
        members_were_cached2,
        &members,
    );
    assert!(should_skip2, "should skip when messages and members are both unchanged");
}
