//! The timeline of a room.

use std::collections::HashSet;

use hikyaku::models::message_object::MessageObject;
use hikyaku::models::timeline::{Change, Timeline};

fn msg(eid: &str, body: &str, ts: u64) -> MessageObject {
    MessageObject::new(
        "Alice", "@alice:test", body, "", ts, eid, "", "", &[], "",
    )
}

fn timestamps(t: &Timeline) -> Vec<u64> {
    t.model().iter().map(|o| o.timestamp()).collect()
}

#[test]
fn insert_preserves_sort_for_mixed_input() {
    let mut t = Timeline::new("!room:test");
    t.insert(vec![
        msg("$a", "first", 100),
        msg("$b", "second", 50),
        msg("$c", "third", 200),
        msg("$d", "fourth", 150),
    ]);
    assert_eq!(timestamps(&t), vec![50, 100, 150, 200]);
    assert_eq!(t.n_items(), 4);
    assert_eq!(t.oldest_timestamp(), 50);
    assert_eq!(t.newest_timestamp(), 200);
}

#[test]
fn second_insert_with_gap_fill_lands_in_middle() {
    let mut t = Timeline::new("!room:test");
    t.insert(vec![msg("$a", "", 100), msg("$b", "", 200)]);
    // Gap-fill at ts=150 should land between them.
    t.insert(vec![msg("$c", "", 150)]);
    assert_eq!(timestamps(&t), vec![100, 150, 200]);
}

#[test]
fn insert_dedupes_by_event_id() {
    let mut t = Timeline::new("!room:test");
    t.insert(vec![msg("$a", "first", 100)]);
    t.insert(vec![msg("$a", "duplicate", 999)]);
    assert_eq!(t.n_items(), 1);
    // Original kept; the would-be-newer copy at ts=999 is dropped.
    assert_eq!(timestamps(&t), vec![100]);
}

#[test]
fn patch_echo_finds_empty_event_id() {
    let mut t = Timeline::new("!room:test");
    t.insert(vec![msg("$a", "first", 100)]);
    t.insert(vec![msg("", "my echo", 150)]); // local echo
    assert!(t.patch_echo("my echo", "$real"));
    assert!(t.has_event("$real"));
    let real = t.get_event("$real").unwrap();
    assert_eq!(real.body(), "my echo");
}

#[test]
fn patch_echo_with_no_pending_short_circuits() {
    let mut t = Timeline::new("!room:test");
    t.insert(vec![msg("$a", "first", 100)]);
    // No echo in the list — patch must return false.
    assert!(!t.patch_echo("nonexistent", "$real"));
}

#[test]
fn remove_drops_event_from_list_and_index() {
    let mut t = Timeline::new("!room:test");
    t.insert(vec![msg("$a", "", 100), msg("$b", "", 200)]);
    assert!(t.remove("$a"));
    assert_eq!(t.n_items(), 1);
    assert!(!t.has_event("$a"));
    assert!(t.has_event("$b"));
    assert_eq!(t.oldest_timestamp(), 200);
    assert_eq!(t.newest_timestamp(), 200);
}

#[test]
fn replace_all_resets_state() {
    let mut t = Timeline::new("!room:test");
    t.insert(vec![msg("$a", "", 100)]);
    t.replace_all(vec![msg("$x", "", 500), msg("$y", "", 600)]);
    assert_eq!(t.n_items(), 2);
    assert!(!t.has_event("$a"));
    assert!(t.has_event("$x"));
    assert_eq!(timestamps(&t), vec![500, 600]);
}

#[test]
fn gap_fills_at_same_position_preserve_sort() {
    // Regression: two gap-fills whose sorted_insert_pos computed the
    // same slot used to end up reversed because the second splice at
    // the same pos would push the first one down. Repro'd as scrambled
    // history ordering after backpagination.
    let mut t = Timeline::new("!room:test");
    t.insert(vec![
        msg("$a", "", 100),
        msg("$b", "", 200),
        msg("$c", "", 300),
        msg("$d", "", 400),
    ]);
    // Both slot between 100 and 200 (pos=1 initially).
    t.insert(vec![msg("$x", "", 150), msg("$y", "", 175)]);
    assert_eq!(timestamps(&t), vec![100, 150, 175, 200, 300, 400]);
}

#[test]
fn many_gap_fills_at_same_position_preserve_sort() {
    // Same shape at scale — a burst of pagination msgs all landing in
    // the same slot.
    let mut t = Timeline::new("!room:test");
    t.insert(vec![msg("$a", "", 100), msg("$b", "", 1000)]);
    t.insert(vec![
        msg("$1", "", 500),
        msg("$2", "", 200),
        msg("$3", "", 800),
        msg("$4", "", 300),
        msg("$5", "", 700),
    ]);
    assert_eq!(timestamps(&t), vec![100, 200, 300, 500, 700, 800, 1000]);
}

#[test]
fn evict_range_removes_middle_slice_in_single_splice() {
    let mut t = Timeline::new("!room:test");
    t.insert(vec![
        msg("$a", "", 100),
        msg("$b", "", 200),
        msg("$c", "", 300),
        msg("$d", "", 400),
        msg("$e", "", 500),
    ]);
    // Count the splices to prove it is a single one.
    t.take_changes();
    // Evict $c and $d (positions 2 and 3) in one call.
    let removed = t.evict_range(2, 2);
    assert_eq!(removed, 2);
    let count = t.take_changes().iter().filter(|c| matches!(c, Change::Splice { .. })).count();
    assert_eq!(count, 1, "evict_range must fire exactly one items_changed");
    assert_eq!(t.n_items(), 3);
    assert!(!t.has_event("$c"));
    assert!(!t.has_event("$d"));
    assert!(t.has_event("$a"));
    assert!(t.has_event("$e"));
    assert_eq!(t.newest_timestamp(), 500);
    assert_eq!(t.oldest_timestamp(), 100);
}

#[test]
fn evict_range_clamps_to_store_length() {
    let mut t = Timeline::new("!room:test");
    t.insert(vec![msg("$a", "", 100), msg("$b", "", 200)]);
    assert_eq!(t.evict_range(1, 999), 1);
    assert_eq!(t.n_items(), 1);
    assert_eq!(t.evict_range(50, 1), 0);
}

#[test]
fn prev_batch_token_notifies() {
    let mut t = Timeline::new("!room:test");
    assert_eq!(t.prev_batch_token(), "");
    assert!(!t.has_prev_batch());
    t.set_prev_batch_token(Some("tok1".into()));
    assert_eq!(t.prev_batch_token(), "tok1");
    assert!(t.has_prev_batch());
    t.set_prev_batch_token(None);
    assert!(!t.has_prev_batch());
}

// ---- random sequences of operations -------------------------------------------

/// A generator with a fixed seed: failures reproduce.
struct Rng {
    state: u64,
}

impl Rng {
    fn next(&mut self) -> u64 {
        self.state = self.state.wrapping_add(0x9e37_79b9_7f4a_7c15);
        let mut z = self.state;
        z = (z ^ (z >> 30)).wrapping_mul(0xbf58_476d_1ce4_e5b9);
        z = (z ^ (z >> 27)).wrapping_mul(0x94d0_49bb_1331_11eb);
        z ^ (z >> 31)
    }

    /// A number from `lo` up to but without `hi`.
    fn below(&mut self, lo: u64, hi: u64) -> u64 {
        lo + self.next() % (hi - lo)
    }

    /// A number from `lo` up to and with `hi`.
    fn within(&mut self, lo: u64, hi: u64) -> u64 {
        self.below(lo, hi + 1)
    }
}

/// Build a MessageObject with the minimum fields required for Timeline
/// to accept it. `eid == ""` produces an "echo" (matches production's
/// pending-echo pattern where the server-assigned event_id hasn't
/// arrived yet); Timeline permits multiple echoes but no duplicate
/// non-empty event_ids.
fn make_msg(eid: &str, ts: u64, body: &str) -> MessageObject {
    MessageObject::new(
        "sender",  // display name
        "@u:test", // sender_id
        body,
        "",        // formatted_body
        ts,
        eid,
        "",        // reply_to
        "",        // thread_root
        &[],       // reactions
        "",        // media_json
    )
}

/// Walk the store and MessageObject cache to assert every documented
/// invariant. Panics with a descriptive message on any violation —
/// caller wraps with the seed and op count for reproduction.
fn assert_invariants(t: &Timeline, ctx: &str) {
    let store = t.model();
    let n = store.len() as u32;

    // Property-cache consistency: n_items mirrors real length.
    assert_eq!(t.n_items(), n, "{ctx}: n_items property out of sync with store");

    if n == 0 {
        assert_eq!(t.oldest_timestamp(), 0, "{ctx}: oldest_timestamp should be 0 on empty");
        assert_eq!(t.newest_timestamp(), 0, "{ctx}: newest_timestamp should be 0 on empty");
        return;
    }

    // Sort + uniqueness invariants.
    let mut prev_ts: u64 = 0;
    let mut seen_eids: HashSet<String> = HashSet::new();
    let mut first_ts: u64 = 0;
    let mut last_ts: u64 = 0;
    for i in 0..n {
        let obj = &store[i as usize];
        let ts = obj.timestamp();
        if i == 0 {
            first_ts = ts;
        }
        last_ts = ts;
        assert!(
            ts >= prev_ts,
            "{ctx}: sort violation at pos {i}: prev_ts={prev_ts}, ts={ts}"
        );
        prev_ts = ts;

        // Index round-trip.
        let eid = obj.event_id();
        if !eid.is_empty() {
            assert!(
                seen_eids.insert(eid.clone()),
                "{ctx}: duplicate event_id {eid} at pos {i}"
            );
            assert!(
                t.has_event(&eid),
                "{ctx}: event_index missing {eid} that's in store at pos {i}"
            );
            let got = t.get_event(&eid).unwrap_or_else(|| {
                panic!("{ctx}: get_event({eid}) returned None but item exists")
            });
            assert_eq!(
                got.timestamp(),
                ts,
                "{ctx}: get_event({eid}) returned wrong object"
            );
        }
    }

    // Cached derived-state invariants.
    assert_eq!(
        t.oldest_timestamp(),
        first_ts,
        "{ctx}: oldest_timestamp cache mismatch"
    );
    assert_eq!(
        t.newest_timestamp(),
        last_ts,
        "{ctx}: newest_timestamp cache mismatch"
    );
}

/// Random-op driver. Each iteration picks one of the mutation methods
/// weighted like production usage (insert dominates, evict is rare).
fn run_random_ops(seed: u64, ops: usize) {
    let mut rng = Rng { state: seed };
    let mut timeline = Timeline::new("!room:test");
    let mut next_eid: u64 = 1;
    let mut next_ts: u64 = 1_000_000;

    for op_i in 0..ops {
        let dice = rng.below(0, 100);
        match dice {
            // 60% insert — the dominant mutation.
            0..=59 => {
                let batch_size = rng.within(1, 8) as usize;
                let mut batch = Vec::with_capacity(batch_size);
                for _ in 0..batch_size {
                    // Mix of new-tail (ts > newest), gap-fill (ts inside
                    // current range), and prepend (ts < oldest).
                    let mode = rng.below(0, 3);
                    let ts = match mode {
                        0 => {
                            next_ts += rng.within(1, 100);
                            next_ts
                        }
                        1 if timeline.n_items() > 0 => {
                            // Random inside current range.
                            let lo = timeline.oldest_timestamp();
                            let hi = timeline.newest_timestamp().max(lo + 1);
                            rng.within(lo, hi)
                        }
                        _ if timeline.n_items() > 0 => {
                            // Prepend older than current oldest.
                            timeline
                                .oldest_timestamp()
                                .saturating_sub(rng.within(1, 1000))
                                .max(1)
                        }
                        _ => {
                            next_ts += rng.within(1, 100);
                            next_ts
                        }
                    };
                    let eid = format!("${next_eid:016x}");
                    next_eid += 1;
                    batch.push(make_msg(&eid, ts, "body"));
                }
                timeline.insert(batch);
            }
            // 15% remove.
            60..=74 => {
                let n = timeline.n_items();
                if n > 0 {
                    let i = rng.below(0, n as u64) as u32;
                    let eid = timeline.model()[i as usize].event_id();
                    if !eid.is_empty() {
                        timeline.remove(&eid);
                    }
                }
            }
            // 10% front_evict — trim oldest.
            75..=84 => {
                let n = timeline.n_items();
                if n > 0 {
                    let count = rng.within(1, n.min(4) as u64) as u32;
                    timeline.front_evict(count);
                }
            }
            // 5% evict_range — middle-of-store cut.
            85..=89 => {
                let n = timeline.n_items();
                if n >= 3 {
                    let start = rng.below(0, (n - 1) as u64) as u32;
                    let count = rng.within(1, (n - start).min(3) as u64) as u32;
                    timeline.evict_range(start, count);
                }
            }
            // 5% patch_echo — flip an empty event_id to a real one.
            90..=94 => {
                // Prepare an echo by inserting one with empty eid.
                let ts = {
                    next_ts += 1;
                    next_ts
                };
                let body = format!("echo-{op_i}");
                timeline.insert(vec![make_msg("", ts, &body)]);
                let real = format!("${next_eid:016x}");
                next_eid += 1;
                assert!(
                    timeline.patch_echo(&body, &real),
                    "patch_echo failed for body {body}"
                );
            }
            // 3% replace_all — full rebuild.
            95..=97 => {
                let m = rng.below(0, 20) as usize;
                let mut batch = Vec::with_capacity(m);
                for _ in 0..m {
                    next_ts += rng.within(1, 100);
                    let eid = format!("${next_eid:016x}");
                    next_eid += 1;
                    batch.push(make_msg(&eid, next_ts, "body"));
                }
                timeline.replace_all(batch);
            }
            // 2% clear.
            _ => {
                timeline.clear();
            }
        }

        assert_invariants(
            &timeline,
            &format!("seed={seed} op={op_i} (dice={dice})"),
        );
    }
}

#[test]
fn all_invariant_scenarios() {
    // Random-op scenarios — increasing seeds cover more of the state
    // space; the "long" run catches leaks that only surface over time.
    for (label, seed, ops) in [
        ("seed=1", 1_u64, 500_usize),
        ("seed=2", 2, 500),
        ("seed=42", 42, 500),
        ("seed=1337", 1337, 500),
        ("seed=0xdeadbeef long", 0xdead_beef, 2000),
    ] {
        println!("running random-op scenario {label} ({ops} ops)");
        run_random_ops(seed, ops);
    }

    pagination_shaped_load_scenario();
    many_gap_fills_scenario();
}

fn pagination_shaped_load_scenario() {
    // Simulate the specific pattern that broke in production:
    // 1. Initial load appends 50 recent msgs.
    // 2. Backpagination delivers 200 msgs that fall INSIDE the current
    //    range (gap-fill, not strict-prepend).
    let mut timeline = Timeline::new("!room:test");
    let base_ts: u64 = 1_000_000;

    // Initial: 50 msgs at ts 100_000..100_050.
    let initial: Vec<_> = (0..50)
        .map(|i| make_msg(&format!("$init-{i:03}"), base_ts + i, "recent"))
        .collect();
    timeline.insert(initial);
    assert_invariants(&timeline, "after initial load");
    assert_eq!(timeline.n_items(), 50);

    // Pagination: 200 msgs at ts 999_800..1_000_000 (prepending, older
    // than current oldest — but with some interleaving).
    let older: Vec<_> = (0..200)
        .map(|i| make_msg(&format!("$old-{i:03}"), base_ts - 200 + i, "older"))
        .collect();
    timeline.insert(older);
    assert_invariants(&timeline, "after backpagination prepend");
    assert_eq!(timeline.n_items(), 250);
    // Oldest is now way older, newest unchanged.
    assert_eq!(timeline.oldest_timestamp(), base_ts - 200);
    assert_eq!(timeline.newest_timestamp(), base_ts + 49);

    // Gap-fill pagination: 30 msgs whose timestamps fall inside the
    // current range.
    let gap: Vec<_> = (0..30)
        .map(|i| make_msg(&format!("$gap-{i:03}"), base_ts - 50 + i * 2, "gap"))
        .collect();
    timeline.insert(gap);
    assert_invariants(&timeline, "after gap-fill");
    assert_eq!(timeline.n_items(), 280);

    // The gap events should be reachable by event_id — regression guard
    // for a hypothetical future filter that drops interior msgs.
    for i in 0..30 {
        assert!(
            timeline.has_event(&format!("$gap-{i:03}")),
            "gap event {i} disappeared from timeline"
        );
    }
}

fn many_gap_fills_scenario() {
    // Guard against the same-position batching regression: many gap-fills
    // that land at the SAME insert-position must all end up in the store,
    // sorted ASC by timestamp within the position group.
    let mut timeline = Timeline::new("!room:test");
    // Anchor with two msgs; gap = [100, 200].
    timeline.insert(vec![
        make_msg("$anchor-lo", 100, "a"),
        make_msg("$anchor-hi", 200, "b"),
    ]);

    // Fill the gap with 50 msgs at ts 101..150 — all compute pos=1.
    let fill: Vec<_> = (0..50)
        .map(|i| make_msg(&format!("$fill-{i:03}"), 101 + i, "fill"))
        .collect();
    timeline.insert(fill);
    assert_invariants(&timeline, "after 50 same-position gap-fills");
    assert_eq!(timeline.n_items(), 52);

    // Verify order: anchor-lo, fill-0..fill-49, anchor-hi.
    let store = timeline.model();
    let first = &store[0];
    assert_eq!(first.event_id(), "$anchor-lo");
    let last = &store[51];
    assert_eq!(last.event_id(), "$anchor-hi");
    for i in 0..50 {
        let mid = &store[1 + i];
        assert_eq!(mid.event_id(), format!("$fill-{i:03}"));
    }
}
