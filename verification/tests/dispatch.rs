//! Whose message it is, and finding a room by its place in the list.

use std::time::Instant;

use hikyaku::avatar_worker::{next_job, start, try_enqueue, AvatarQueue, QUEUE_CAPACITY};
use hikyaku::dispatch::compute_is_self;
use hikyaku::table::Table;

#[test]
fn is_self_false_when_my_id_not_yet_set() {
    // Empty my_id means nobody is logged in; must never match.
    assert!(!compute_is_self("", "@alice:matrix.org"));
}

#[test]
fn is_self_false_when_both_ids_empty() {
    // Both empty should NOT count as "same user".
    assert!(!compute_is_self("", ""));
}

#[test]
fn is_self_true_when_ids_match() {
    assert!(compute_is_self("@me:example.com", "@me:example.com"));
}

#[test]
fn is_self_false_for_different_users() {
    assert!(!compute_is_self("@me:example.com", "@alice:example.com"));
}

#[test]
fn is_self_case_sensitive() {
    // Matrix user IDs are lowercase but let's confirm no case folding.
    assert!(!compute_is_self("@Me:example.com", "@me:example.com"));
}

#[test]
fn try_enqueue_returns_false_before_start() {
    // Before start no job is taken, and nothing panics.
    let mut queue = AvatarQueue::new();
    assert!(!try_enqueue(&mut queue, "@u:test".to_string(), "/tmp/x.png".to_string()));
}

#[test]
fn queue_capacity_matches_constant() {
    assert_eq!(QUEUE_CAPACITY, 64);
}

#[test]
fn a_full_avatar_queue_drops_the_newest_job() {
    let mut queue = AvatarQueue::new();
    assert!(start(&mut queue));
    assert!(!start(&mut queue));
    for i in 0..QUEUE_CAPACITY {
        assert!(try_enqueue(&mut queue, format!("@u{i}:test"), "/tmp/x.png".to_string()));
    }
    assert!(!try_enqueue(&mut queue, "@late:test".to_string(), "/tmp/x.png".to_string()));
    assert_eq!(next_job(&mut queue).unwrap().user_id, "@u0:test");
    assert!(try_enqueue(&mut queue, "@late:test".to_string(), "/tmp/x.png".to_string()));
}

fn build_event_index(n: usize) -> Table<usize> {
    let mut index = Table::new();
    for i in 0..n {
        index.insert(format!("$event{i}:example.com"), i);
    }
    index
}

/// 10 000 entries must not take >20× longer to look up in than 1 000 entries.
#[test]
fn event_index_lookup_is_o1_not_on() {
    let index_1k = build_event_index(1_000);
    let index_10k = build_event_index(10_000);

    let time_lookups = |index: &Table<usize>, n: usize| -> u128 {
        let start = Instant::now();
        for i in 0..n {
            let _ = index.contains_key(&format!("$event{i}:example.com"));
        }
        start.elapsed().as_nanos().max(1)
    };

    // Each batch does 1 000 lookups; only the index size changes.
    let t_small = time_lookups(&index_1k, 1_000);
    let t_large = time_lookups(&index_10k, 1_000);

    // Correctness: every key must be present.
    for i in 0..1_000 {
        assert!(
            index_1k.contains_key(&format!("$event{i}:example.com")),
            "event {i} missing from index"
        );
    }
    assert!(
        t_large < t_small * 20,
        "10k-index lookup ({t_large}ns) is >20× the 1k-index lookup ({t_small}ns)"
    );
}

/// The size of the index must not affect lookup time.
#[test]
fn event_index_contains_key_is_o1() {
    let index_1k = build_event_index(1_000);
    let index_100k = build_event_index(100_000);
    let key = "$event500:example.com".to_string();

    let time = |index: &Table<usize>| -> u128 {
        let s = Instant::now();
        for _ in 0..1000 {
            let _ = index.contains_key(&key);
        }
        s.elapsed().as_nanos().max(1)
    };
    let t1 = time(&index_1k);
    let t2 = time(&index_100k);
    assert!(t2 < t1 * 30, "100k-index ({t2}ns) is >30× 1k-index ({t1}ns)");
}

#[test]
fn reaction_lookup_is_o1() {
    let index_1k = build_event_index(1_000);
    let index_10k = build_event_index(10_000);

    let lookup_n = |index: &Table<usize>, n: usize| -> u128 {
        let start = Instant::now();
        for i in 0..n {
            let _ = index.get(&format!("$event{}:example.com", i % 1000));
        }
        start.elapsed().as_nanos().max(1)
    };

    // Same number of lookups; only index size differs.
    let t_1k = lookup_n(&index_1k, 500);
    let t_10k = lookup_n(&index_10k, 500);
    assert!(
        t_10k < t_1k * 20,
        "10k-index reaction lookup ({t_10k}ns) is >20× 1k-index ({t_1k}ns)"
    );
}

fn build_nav_index(n: usize) -> (Vec<String>, Table<usize>) {
    let order: Vec<String> = (0..n).map(|i| format!("!room{i}:example.com")).collect();
    let mut index = Table::new();
    for (i, id) in order.iter().enumerate() {
        index.insert(id.clone(), i);
    }
    (order, index)
}

/// Navigating a 3 000-room list must not be >20× slower per step than a
/// 300-room list.
#[test]
fn nav_index_navigate_300_rooms() {
    let (order300, index300) = build_nav_index(300);
    let (order3000, index3000) = build_nav_index(3_000);

    let nav_steps = |order: &Vec<String>, index: &Table<usize>, steps: usize| -> u128 {
        let n = order.len() as i32;
        let mut current = order[0].clone();
        let start = Instant::now();
        for _ in 0..steps {
            let pos = index.get(&current).copied().unwrap_or(0) as i32;
            let next_pos = ((pos + 1).rem_euclid(n)) as usize;
            current = order[next_pos].clone();
        }
        start.elapsed().as_nanos().max(1)
    };

    let t_300 = nav_steps(&order300, &index300, 300);
    let t_3000 = nav_steps(&order3000, &index3000, 300);

    // Correctness: full cycle wraps back to start.
    let (o, ix) = build_nav_index(300);
    let n = o.len() as i32;
    let mut c = o[0].clone();
    for _ in 0..300 {
        let p = *ix.get(&c).unwrap() as i32;
        c = o[((p + 1).rem_euclid(n)) as usize].clone();
    }
    assert_eq!(c, "!room0:example.com");

    // 10× more rooms must not cause >20× slowdown per step.
    assert!(
        t_3000 < t_300 * 20,
        "3k nav ({t_3000}ns/300 steps) >20× 300-room nav ({t_300}ns/300 steps)"
    );
}

/// The index must return the correct room when navigating backwards.
#[test]
fn nav_index_navigate_backwards() {
    let (order, index) = build_nav_index(10);
    let n = order.len() as i32;
    let pos = *index.get("!room3:example.com").unwrap() as i32;
    let prev = ((pos - 1).rem_euclid(n)) as usize;
    assert_eq!(order[prev], "!room2:example.com");
}

#[test]
fn a_table_keeps_other_keys_on_insert_and_remove() {
    let mut t = Table::new();
    t.insert("a".to_string(), 1);
    t.insert("b".to_string(), 2);
    t.insert("a".to_string(), 3);
    assert_eq!(t.len(), 2);
    assert_eq!((t.get("a").copied(), t.get("b").copied()), (Some(3), Some(2)));
    t.remove("a");
    assert_eq!((t.get("a").copied(), t.get("b").copied()), (None, Some(2)));
}
