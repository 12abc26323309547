//! Routing and priority of events.

use hikyaku::matrix::event::MatrixEvent;
use hikyaku::matrix::event_channel::{
    after_await, after_closed, after_try, channels, EventClass, EventReceiver, RecvStep,
    BULK_CAPACITY, PLUGIN_CAPACITY,
};

fn crit() -> MatrixEvent {
    MatrixEvent::SyncStarted
}

fn bulk_evt() -> MatrixEvent {
    MatrixEvent::MarkupRendered { id: 1, markup: String::new() }
}

fn plugin_evt() -> MatrixEvent {
    MatrixEvent::TypingUsers { room_id: String::new(), names: Vec::new() }
}

fn variant_name(e: &MatrixEvent) -> &'static str {
    match e {
        MatrixEvent::SyncStarted => "SyncStarted",
        MatrixEvent::MarkupRendered { .. } => "MarkupRendered",
        MatrixEvent::TypingUsers { .. } => "TypingUsers",
        _ => "other",
    }
}

fn delivered(rx: &mut EventReceiver) -> &'static str {
    match rx.poll() {
        RecvStep::Deliver(e) => variant_name(&e),
        RecvStep::Await => "nothing",
        _ => "closed",
    }
}

#[test]
fn classification_covers_each_class() {
    assert_eq!(crit().class(), EventClass::Critical);
    assert_eq!(bulk_evt().class(), EventClass::Bulk);
    assert_eq!(plugin_evt().class(), EventClass::Plugin);
}

#[test]
fn fast_path_returns_critical_message() {
    let (mut tx, mut rx) = channels();
    tx.send_blocking(crit()).unwrap();
    assert_eq!(delivered(&mut rx), "SyncStarted");
    assert_eq!(delivered(&mut rx), "nothing");
}

#[test]
fn slow_path_returns_message_not_lost() {
    // The message that ends a wait is handed out, not consumed and dropped.
    let (mut tx, mut rx) = channels();
    assert_eq!(delivered(&mut rx), "nothing");
    tx.send_blocking(crit()).unwrap();
    let got = rx.channel(EventClass::Critical).recv_blocking().ok();
    match after_await(got) {
        RecvStep::Deliver(e) => assert_eq!(variant_name(&e), "SyncStarted"),
        _ => panic!("lost"),
    }
}

#[test]
fn slow_path_returns_bulk_and_plugin_too() {
    let (mut tx, rx) = channels();
    tx.send_blocking(bulk_evt()).unwrap();
    let got = rx.channel(EventClass::Bulk).recv_blocking().ok();
    assert!(matches!(after_await(got), RecvStep::Deliver(e) if variant_name(&e) == "MarkupRendered"));
    tx.send_blocking(plugin_evt()).unwrap();
    let got = rx.channel(EventClass::Plugin).recv_blocking().ok();
    assert!(matches!(after_await(got), RecvStep::Deliver(e) if variant_name(&e) == "TypingUsers"));
}

#[test]
fn priority_order_when_all_queued() {
    // With messages waiting on all three channels, critical comes first, then
    // bulk, then plugin.
    let (mut tx, mut rx) = channels();
    tx.send_blocking(plugin_evt()).unwrap();
    tx.send_blocking(bulk_evt()).unwrap();
    tx.send_blocking(crit()).unwrap();
    assert_eq!(delivered(&mut rx), "SyncStarted");
    assert_eq!(delivered(&mut rx), "MarkupRendered");
    assert_eq!(delivered(&mut rx), "TypingUsers");
}

#[test]
fn plugin_overflow_drops_silently() {
    // Filling past capacity drops rather than blocks.
    let (mut tx, rx) = channels();
    for _ in 0..(PLUGIN_CAPACITY + 32) {
        tx.send_blocking(plugin_evt()).unwrap();
    }
    assert_eq!(rx.channel(EventClass::Plugin).len(), PLUGIN_CAPACITY);
}

#[test]
fn bulk_backpressures_at_capacity() {
    // The channel takes BULK_CAPACITY events; one more has to wait until one
    // was taken out.
    let (mut tx, mut rx) = channels();
    for _ in 0..BULK_CAPACITY {
        tx.send_blocking(bulk_evt()).unwrap();
    }
    let event = bulk_evt();
    let (lane, _) = tx.route(&event);
    assert!(lane.is_full(), "bulk send should backpressure when channel is full");
    assert_eq!(delivered(&mut rx), "MarkupRendered");
    assert!(!lane.is_full());
    tx.send_blocking(event).unwrap();
}

#[test]
fn all_closed_returns_err() {
    // When every sender is dropped, receiving comes to its end.
    let (tx, mut rx) = channels();
    drop(tx);
    assert_eq!(delivered(&mut rx), "closed");
}

#[test]
fn a_closed_receiver_hands_the_event_back() {
    let (mut tx, rx) = channels();
    drop(rx);
    assert!(tx.send_blocking(crit()).is_err());
    assert!(tx.send_blocking(plugin_evt()).is_ok());
}

#[test]
fn critical_arriving_during_bulk_await_wins_next_call() {
    let (mut tx, mut rx) = channels();
    assert_eq!(delivered(&mut rx), "nothing");
    tx.send_blocking(bulk_evt()).unwrap();
    let got = rx.channel(EventClass::Bulk).recv_blocking().ok();
    tx.send_blocking(bulk_evt()).unwrap();
    tx.send_blocking(crit()).unwrap();
    assert!(matches!(after_await(got), RecvStep::Deliver(e) if variant_name(&e) == "MarkupRendered"));
    assert_eq!(delivered(&mut rx), "SyncStarted");
    drop(tx);
}

#[test]
fn receiving_steps_in_order_of_priority() {
    assert!(matches!(after_try(EventClass::Critical, None), RecvStep::Try(EventClass::Bulk)));
    assert!(matches!(after_try(EventClass::Bulk, None), RecvStep::Try(EventClass::Plugin)));
    assert!(matches!(after_try(EventClass::Plugin, None), RecvStep::AskClosed));
    assert!(matches!(after_closed(true, true, false), RecvStep::Await));
    assert!(matches!(after_closed(true, true, true), RecvStep::Shutdown));
    assert!(matches!(after_await(None), RecvStep::Try(EventClass::Critical)));
}

#[test]
fn each_event_is_handed_out_once() {
    let (mut tx, mut rx) = channels();
    tx.send_blocking(bulk_evt()).unwrap();
    tx.send_blocking(bulk_evt()).unwrap();
    assert_eq!(delivered(&mut rx), "MarkupRendered");
    assert_eq!(delivered(&mut rx), "MarkupRendered");
    assert_eq!(delivered(&mut rx), "nothing");
}
