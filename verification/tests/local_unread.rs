//! Unread counts that are kept locally.

use hikyaku::local_unread::LocalUnreadStore;

#[test]
fn increment_raises_unread_count() {
    let mut store = LocalUnreadStore::new();
    let c = store.increment("!r:m.org", false);
    assert_eq!((c.unread, c.highlights), (1, 0));
    let c2 = store.increment("!r:m.org", false);
    assert_eq!((c2.unread, c2.highlights), (2, 0));
}

#[test]
fn increment_highlight_raises_both_counters() {
    let mut store = LocalUnreadStore::new();
    let c = store.increment("!r:m.org", true);
    assert_eq!((c.unread, c.highlights), (1, 1));
}

#[test]
fn mark_read_zeroes_counts() {
    let mut store = LocalUnreadStore::new();
    store.increment("!r:m.org", false);
    store.increment("!r:m.org", true);
    store.mark_read("!r:m.org");
    assert_eq!(store.get("!r:m.org"), (0, 0));
    assert!(store.for_each_nonzero().is_empty());
}

#[test]
fn mark_read_elsewhere_zeroes_and_sets_flag() {
    let mut store = LocalUnreadStore::new();
    store.increment("!r:m.org", false);
    store.mark_read_elsewhere("!r:m.org");
    assert_eq!(store.get("!r:m.org"), (0, 0), "count must be zeroed");
    assert!(store.is_read_elsewhere("!r:m.org"), "read_elsewhere flag must be set");
    assert!(store.for_each_nonzero().is_empty(), "badge must show 0");
}

#[test]
fn increment_after_read_elsewhere_clears_flag_and_resumes_count() {
    let mut store = LocalUnreadStore::new();
    store.increment("!r:m.org", false);
    store.mark_read_elsewhere("!r:m.org");
    // New message arrives after the cross-client read.
    let u = store.increment("!r:m.org", false).unread;
    assert_eq!(u, 1, "counting must resume from 0 after read_elsewhere");
    assert!(!store.is_read_elsewhere("!r:m.org"), "flag must be cleared by new message");
}

#[test]
fn for_each_nonzero_skips_zero_rooms() {
    let mut store = LocalUnreadStore::new();
    store.increment("!a:m.org", false);
    store.increment("!b:m.org", false);
    store.mark_read("!b:m.org");
    let nz = store.for_each_nonzero();
    assert_eq!(nz.len(), 1);
    assert_eq!(nz[0].0, "!a:m.org");
}

#[test]
fn zero_by_local_open_vs_zero_by_read_elsewhere_are_distinguishable() {
    let mut store = LocalUnreadStore::new();
    store.increment("!local:m.org", false);
    store.increment("!remote:m.org", false);
    store.mark_read("!local:m.org"); // user opened it here
    store.mark_read_elsewhere("!remote:m.org"); // phone read it
    // Both show count=0 in the badge.
    assert_eq!(store.get("!local:m.org"), (0, 0));
    assert_eq!(store.get("!remote:m.org"), (0, 0));
    // But the source is distinguishable for debugging.
    assert!(!store.is_read_elsewhere("!local:m.org"), "local open must NOT be in read_elsewhere");
    assert!(store.is_read_elsewhere("!remote:m.org"), "cross-client read MUST be in read_elsewhere");
}

/// If a room was read elsewhere, its count must be (0, 0), after any sequence
/// of operations.
#[test]
fn badge_debug_invariant_read_elsewhere_always_has_zero_count() {
    let mut store = LocalUnreadStore::new();
    // Messages arrive, phone reads, more messages arrive.
    for _ in 0..5 {
        store.increment("!r:m.org", false);
    }
    store.mark_read_elsewhere("!r:m.org");
    for room_id in ["!r:m.org", "!other:m.org"] {
        if store.is_read_elsewhere(room_id) {
            assert_eq!(
                store.get(room_id),
                (0, 0),
                "read_elsewhere room {room_id} must have zero count"
            );
        }
    }
}

#[test]
fn loaded_rows_are_counted_on() {
    let mut store = LocalUnreadStore::new();
    store.load(vec![("!a:m.org".to_string(), 4, 1), ("!b:m.org".to_string(), 0, 0)]);
    let c = store.increment("!a:m.org", true);
    assert_eq!((c.room_id.as_str(), c.unread, c.highlights, c.persist), ("!a:m.org", 5, 2, true));
    assert_eq!(store.for_each_nonzero(), vec![("!a:m.org".to_string(), 5, 2)]);
}

#[test]
fn a_read_elsewhere_is_not_written_to_disk() {
    let mut store = LocalUnreadStore::new();
    store.increment("!r:m.org", false);
    assert!(!store.mark_read_elsewhere("!r:m.org").persist);
    assert!(store.mark_read("!r:m.org").persist);
    assert!(!store.is_read_elsewhere("!r:m.org"));
}

#[test]
fn a_room_read_elsewhere_takes_over_no_stored_count() {
    let mut store = LocalUnreadStore::new();
    store.mark_read_elsewhere("!r:m.org");
    store.load(vec![("!r:m.org".to_string(), 4, 1), ("!s:m.org".to_string(), 2, 0)]);
    assert_eq!(store.get("!r:m.org"), (0, 0));
    assert!(store.is_read_elsewhere("!r:m.org"));
    assert_eq!(store.get("!s:m.org"), (2, 0));
}
