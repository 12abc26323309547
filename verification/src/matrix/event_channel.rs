//! Prioritised delivery of events to the user interface.
//!
//! Events travel on three channels, so that under load the important ones do
//! not queue behind ephemeral traffic:
//!
//! - critical: login, sync state, messages, rooms. Unbounded and lossless.
//! - bulk: downloads, directories, rendered markup. Bounded; a sender waits
//!   while the channel is full.
//! - plugin: typing, toasts, streamed text. Bounded; an event that does not
//!   fit is dropped.

use vstd::prelude::*;
use crate::matrix::event::MatrixEvent;

verus! {

/// How an event is delivered.
#[derive(Clone, Copy, PartialEq, Eq, Debug, Structural)]
pub enum EventClass {
    Critical,
    Bulk,
    Plugin,
}

/// How many bulk events may wait.
pub const BULK_CAPACITY: usize = 1024;

/// How many plugin events may wait.
pub const PLUGIN_CAPACITY: usize = 64;

/// The sending end of a channel.
#[verifier::external_type_specification]
#[verifier::external_body]
#[verifier::reject_recursive_types(T)]
pub struct ExSender<T>(async_channel::Sender<T>);

/// The receiving end of a channel.
#[verifier::external_type_specification]
#[verifier::external_body]
#[verifier::reject_recursive_types(T)]
pub struct ExReceiver<T>(async_channel::Receiver<T>);

/// How many messages the channel of this sender can hold; None without limit.
pub uninterp spec fn limit_of(s: async_channel::Sender<MatrixEvent>) -> Option<usize>;

/// Whether the two are the ends of one channel: what is sent on `s` comes out of
/// `r`.
pub uninterp spec fn feeds(
    s: async_channel::Sender<MatrixEvent>,
    r: async_channel::Receiver<MatrixEvent>,
) -> bool;

/// What the attempts to send on the channel of this sender come to, over the whole
/// life of the channel: the event, how it is sent, and whether it is taken.
pub uninterp spec fn attempts_of(s: async_channel::Sender<MatrixEvent>) -> Set<
    (MatrixEvent, SendMode, bool),
>;

/// What the looks at the channel of this receiver give, over the whole life of the
/// channel: an event, or None where none waits.
pub uninterp spec fn looks_of(r: async_channel::Receiver<MatrixEvent>) -> Set<Option<MatrixEvent>>;

/// The attempts to send that were made through this sender so far, the latest last:
/// the event, how it was sent, and whether the channel took it.
pub uninterp spec fn offered_of(s: async_channel::Sender<MatrixEvent>) -> Seq<
    (MatrixEvent, SendMode, bool),
>;

/// The events that looks through this receiver have taken out of the channel so
/// far, the latest last.
pub uninterp spec fn taken_of(r: async_channel::Receiver<MatrixEvent>) -> Seq<MatrixEvent>;

/// What asking this receiver whether its channel is closed gives, over the whole
/// life of the channel.
pub uninterp spec fn closings_of(r: async_channel::Receiver<MatrixEvent>) -> Set<bool>;

/// Whether every event that comes out of `r` was taken by the channel of `s`.
pub open spec fn gives_only_sent(
    s: async_channel::Sender<MatrixEvent>,
    r: async_channel::Receiver<MatrixEvent>,
) -> bool {
    forall|e: MatrixEvent| #[trigger]
        looks_of(r).contains(Some(e)) ==> attempts_of(s).contains((e, SendMode::Wait, true))
            || attempts_of(s).contains((e, SendMode::DropWhenFull, true))
}

/// Whether two senders belong to one channel.
pub open spec fn same_channel(
    a: async_channel::Sender<MatrixEvent>,
    b: async_channel::Sender<MatrixEvent>,
) -> bool {
    &&& limit_of(a) == limit_of(b)
    &&& attempts_of(a) == attempts_of(b)
    &&& forall|r: async_channel::Receiver<MatrixEvent>|
        #![trigger feeds(a, r)]
        #![trigger feeds(b, r)]
        feeds(a, r) == feeds(b, r)
}

/// Whether two receivers belong to one channel.
pub open spec fn same_source(
    a: async_channel::Receiver<MatrixEvent>,
    b: async_channel::Receiver<MatrixEvent>,
) -> bool {
    &&& looks_of(a) == looks_of(b)
    &&& closings_of(a) == closings_of(b)
    &&& forall|s: async_channel::Sender<MatrixEvent>|
        #![trigger feeds(s, a)]
        #![trigger feeds(s, b)]
        feeds(s, a) == feeds(s, b)
}

/// `async_channel::unbounded`: the two ends of a channel without limit. Nothing
/// comes out of it but what was sent.
#[verifier::external_body]
fn open_unbounded() -> (r: (
    async_channel::Sender<MatrixEvent>,
    async_channel::Receiver<MatrixEvent>,
))
    ensures
        limit_of(r.0) is None,
        feeds(r.0, r.1),
        gives_only_sent(r.0, r.1),
        offered_of(r.0) == Seq::<(MatrixEvent, SendMode, bool)>::empty(),
        taken_of(r.1) == Seq::<MatrixEvent>::empty(),
{
    async_channel::unbounded()
}

/// `async_channel::bounded`: the two ends of a channel that holds at most
/// `capacity` messages. Nothing comes out of it but what was sent.
/// It panics for a capacity of zero.
#[verifier::external_body]
fn open_bounded(capacity: usize) -> (r: (
    async_channel::Sender<MatrixEvent>,
    async_channel::Receiver<MatrixEvent>,
))
    requires
        capacity > 0,
    ensures
        limit_of(r.0) == Some(capacity),
        feeds(r.0, r.1),
        gives_only_sent(r.0, r.1),
        offered_of(r.0) == Seq::<(MatrixEvent, SendMode, bool)>::empty(),
        taken_of(r.1) == Seq::<MatrixEvent>::empty(),
{
    async_channel::bounded(capacity)
}

/// `async_channel::Sender::clone`: another sending end of the same channel, through
/// which nothing was sent yet.
#[verifier::external_body]
fn another_sender(s: &async_channel::Sender<MatrixEvent>) -> (r: async_channel::Sender<MatrixEvent>)
    ensures
        same_channel(r, *s),
        offered_of(r) == Seq::<(MatrixEvent, SendMode, bool)>::empty(),
{
    s.clone()
}

/// `async_channel::Sender::send_blocking`: one attempt to send, which waits while the
/// channel is full. The channel takes the event, or the event is handed back because
/// the channel is closed. Whether it is closed depends on the other threads, and
/// nothing is claimed of that.
#[verifier::external_body]
fn send_waiting(s: &mut async_channel::Sender<MatrixEvent>, event: MatrixEvent) -> (r: Result<
    (),
    MatrixEvent,
>)
    ensures
        same_channel(*final(s), *old(s)),
        attempts_of(*old(s)).contains((event, SendMode::Wait, r is Ok)),
        offered_of(*final(s)) == offered_of(*old(s)).push((event, SendMode::Wait, r is Ok)),
        r matches Err(back) ==> back == event,
{
    s.send_blocking(event).map_err(async_channel::SendError::into_inner)
}

/// `async_channel::Sender::try_send`: one attempt to send. The channel takes the
/// event, or the event is handed back because the channel is full or closed, which
/// depends on the other threads. Nothing is claimed of which of these holds.
#[verifier::external_body]
fn send_now(s: &mut async_channel::Sender<MatrixEvent>, event: MatrixEvent) -> (r: Result<
    (),
    MatrixEvent,
>)
    ensures
        same_channel(*final(s), *old(s)),
        attempts_of(*old(s)).contains((event, SendMode::DropWhenFull, r is Ok)),
        offered_of(*final(s)) == offered_of(*old(s)).push((event, SendMode::DropWhenFull, r is Ok)),
        r matches Err(back) ==> back == event,
{
    s.try_send(event).map_err(async_channel::TrySendError::into_inner)
}

/// `async_channel::Receiver::try_recv`: one look at the channel, which takes out the
/// event that it gives. What waits there depends on the other threads; nothing is
/// claimed of that, nor of which of several waiting events comes out.
#[verifier::external_body]
fn receive_now(r: &mut async_channel::Receiver<MatrixEvent>) -> (got: Option<MatrixEvent>)
    ensures
        same_source(*final(r), *old(r)),
        looks_of(*old(r)).contains(got),
        taken_of(*final(r)) == (match got {
            Some(e) => taken_of(*old(r)).push(e),
            None => taken_of(*old(r)),
        }),
{
    r.try_recv().ok()
}

/// `async_channel::Receiver::is_closed`: what it says depends on the other threads.
#[verifier::external_body]
fn is_closed(r: &async_channel::Receiver<MatrixEvent>) -> (closed: bool)
    ensures
        closings_of(*r).contains(closed),
{
    r.is_closed()
}

/// How an event is put on its channel.
#[derive(Clone, Copy, PartialEq, Eq, Debug, Structural)]
pub enum SendMode {
    /// Wait until there is room.
    Wait,
    /// Drop the event when there is none.
    DropWhenFull,
}

/// The channel and the way of sending for an event.
pub open spec fn route_of(e: MatrixEvent) -> (EventClass, SendMode) {
    let class = crate::matrix::event::class_of(e);
    (
        class,
        if class == EventClass::Plugin {
            SendMode::DropWhenFull
        } else {
            SendMode::Wait
        },
    )
}

/// The sender that the protocol thread holds.
pub struct EventSender {
    critical: async_channel::Sender<MatrixEvent>,
    bulk: async_channel::Sender<MatrixEvent>,
    plugin: async_channel::Sender<MatrixEvent>,
}

impl EventSender {
    /// The channel of a class.
    pub closed spec fn lane(&self, class: EventClass) -> async_channel::Sender<MatrixEvent> {
        match class {
            EventClass::Critical => self.critical,
            EventClass::Bulk => self.bulk,
            EventClass::Plugin => self.plugin,
        }
    }

    /// The channel that an event goes to, and how it is sent there.
    pub fn route(&self, event: &MatrixEvent) -> (r: (
        &async_channel::Sender<MatrixEvent>,
        SendMode,
    ))
        ensures
            *r.0 == self.lane(route_of(*event).0),
            r.1 == route_of(*event).1,
    {
        match event.class() {
            EventClass::Critical => (&self.critical, SendMode::Wait),
            EventClass::Bulk => (&self.bulk, SendMode::Wait),
            EventClass::Plugin => (&self.plugin, SendMode::DropWhenFull),
        }
    }

    /// Sends an event from a thread that may block, once, on the channel of its
    /// class and on no other. A plugin event that does not fit is dropped, which is
    /// no error; any other event that the channel does not take is handed back.
    pub fn send_blocking(&mut self, event: MatrixEvent) -> (r: Result<(), MatrixEvent>)
        ensures
            exists|taken: bool| #[trigger]
                final(self).offered(*old(self), route_of(event).0, event, taken) && (r is Ok <==> taken
                    || route_of(event).1 == SendMode::DropWhenFull),
            r matches Err(back) ==> back == event,
    {
        let ghost start = *self;
        match event.class() {
            EventClass::Critical => {
                let r = send_waiting(&mut self.critical, event);
                let ghost taken = r is Ok;
                assert(self.offered(start, route_of(event).0, event, taken));
                r
            },
            EventClass::Bulk => {
                let r = send_waiting(&mut self.bulk, event);
                let ghost taken = r is Ok;
                assert(self.offered(start, route_of(event).0, event, taken));
                r
            },
            EventClass::Plugin => {
                let r = send_now(&mut self.plugin, event);
                let ghost taken = r is Ok;
                assert(self.offered(start, route_of(event).0, event, taken));
                Ok(())
            },
        }
    }

    /// Whether the event was offered once to the channel of the class, in the way
    /// of its class, and nothing to the others. `taken` says whether the channel
    /// took it.
    pub open spec fn offered(
        &self,
        before: Self,
        class: EventClass,
        event: MatrixEvent,
        taken: bool,
    ) -> bool {
        &&& attempts_of(before.lane(class)).contains((event, route_of(event).1, taken))
        &&& forall|c: EventClass| same_channel(#[trigger] self.lane(c), before.lane(c))
        &&& forall|c: EventClass|
            offered_of(#[trigger] self.lane(c)) == (if c == class {
                offered_of(before.lane(c)).push((event, route_of(event).1, taken))
            } else {
                offered_of(before.lane(c))
            })
    }
}

impl Clone for EventSender {
    /// A second sender on the same channels.
    fn clone(&self) -> (r: Self)
        ensures
            forall|class: EventClass| same_channel(#[trigger] r.lane(class), self.lane(class)),
            forall|class: EventClass|
                offered_of(#[trigger] r.lane(class)) == Seq::<(MatrixEvent, SendMode, bool)>::empty(),
    {
        EventSender {
            critical: another_sender(&self.critical),
            bulk: another_sender(&self.bulk),
            plugin: another_sender(&self.plugin),
        }
    }
}

/// The receiver that the user interface holds.
pub struct EventReceiver {
    critical: async_channel::Receiver<MatrixEvent>,
    bulk: async_channel::Receiver<MatrixEvent>,
    plugin: async_channel::Receiver<MatrixEvent>,
}

/// The next step of receiving.
pub enum RecvStep {
    /// Hand this event out.
    Deliver(MatrixEvent),
    /// Look whether an event waits on this channel.
    Try(EventClass),
    /// No event waits: ask which channels are closed.
    AskClosed,
    /// Wait until some channel has an event or closes.
    Await,
    /// All senders are gone.
    Shutdown,
}

/// Receiving starts with the critical channel.
pub open spec fn first_step() -> RecvStep {
    RecvStep::Try(EventClass::Critical)
}

/// What follows a look at a channel.
pub open spec fn tried(class: EventClass, got: Option<MatrixEvent>) -> RecvStep {
    match got {
        Some(e) => RecvStep::Deliver(e),
        None => match class {
            EventClass::Critical => RecvStep::Try(EventClass::Bulk),
            EventClass::Bulk => RecvStep::Try(EventClass::Plugin),
            EventClass::Plugin => RecvStep::AskClosed,
        },
    }
}

/// What follows a look at a channel: the event that was found, or else the
/// next channel in order of priority.
pub fn after_try(class: EventClass, got: Option<MatrixEvent>) -> (r: RecvStep)
    ensures
        r == tried(class, got),
{
    match got {
        Some(e) => RecvStep::Deliver(e),
        None => match class {
            EventClass::Critical => RecvStep::Try(EventClass::Bulk),
            EventClass::Bulk => RecvStep::Try(EventClass::Plugin),
            EventClass::Plugin => RecvStep::AskClosed,
        },
    }
}

/// What follows asking which channels are closed.
pub open spec fn asked(critical: bool, bulk: bool, plugin: bool) -> RecvStep {
    if critical && bulk && plugin {
        RecvStep::Shutdown
    } else {
        RecvStep::Await
    }
}

/// What follows asking which channels are closed: only when all three are, the
/// senders are gone.
pub fn after_closed(critical: bool, bulk: bool, plugin: bool) -> (r: RecvStep)
    ensures
        r == asked(critical, bulk, plugin),
{
    if critical && bulk && plugin {
        RecvStep::Shutdown
    } else {
        RecvStep::Await
    }
}

/// What follows waiting. An event that arrived is handed out; when a channel
/// closed instead, the others are looked at again.
pub fn after_await(got: Option<MatrixEvent>) -> (r: RecvStep)
    ensures
        r == (match got {
            Some(e) => RecvStep::Deliver(e),
            None => first_step(),
        }),
{
    match got {
        Some(e) => RecvStep::Deliver(e),
        None => RecvStep::Try(EventClass::Critical),
    }
}

impl EventReceiver {
    /// The channel of a class.
    pub closed spec fn lane(&self, class: EventClass) -> async_channel::Receiver<MatrixEvent> {
        match class {
            EventClass::Critical => self.critical,
            EventClass::Bulk => self.bulk,
            EventClass::Plugin => self.plugin,
        }
    }

    /// The channel of a class.
    pub fn channel(&self, class: EventClass) -> (r: &async_channel::Receiver<MatrixEvent>)
        ensures
            *r == self.lane(class),
    {
        match class {
            EventClass::Critical => &self.critical,
            EventClass::Bulk => &self.bulk,
            EventClass::Plugin => &self.plugin,
        }
    }

    /// Whether looks at the channels gave these events. A channel is looked at only
    /// where none before it had an event.
    pub open spec fn gave(&self, w: Waiting) -> bool {
        &&& looks_of(self.lane(EventClass::Critical)).contains(w.critical)
        &&& w.critical is None ==> looks_of(self.lane(EventClass::Bulk)).contains(w.bulk)
        &&& w.critical is None && w.bulk is None ==> looks_of(
            self.lane(EventClass::Plugin),
        ).contains(w.plugin)
    }

    /// Whether the channels, asked whether they are closed, said this.
    pub open spec fn said(&self, critical: bool, bulk: bool, plugin: bool) -> bool {
        &&& closings_of(self.lane(EventClass::Critical)).contains(critical)
        &&& closings_of(self.lane(EventClass::Bulk)).contains(bulk)
        &&& closings_of(self.lane(EventClass::Plugin)).contains(plugin)
    }

    /// Whether just what looks gave was taken out of the channels since `before`.
    pub open spec fn took(&self, before: Self, w: Waiting) -> bool {
        &&& forall|c: EventClass| same_source(#[trigger] self.lane(c), before.lane(c))
        &&& forall|c: EventClass|
            taken_of(#[trigger] self.lane(c)) == taken_of(before.lane(c)) + drawn(w, c)
    }

    /// Takes steps for as long as none has to wait: an event to hand out, a
    /// reason to wait, or the end. The step is the one that follows from what the
    /// channels gave in order of priority, and from what they said of being closed
    /// where none had an event. Just the event that is handed out is taken.
    pub fn poll(&mut self) -> (r: RecvStep)
        ensures
            r is Deliver || r is Await || r is Shutdown,
            exists|w: Waiting| #[trigger]
                old(self).gave(w) && final(self).took(*old(self), w) && (match settled(w) {
                    RecvStep::AskClosed => exists|c: bool, b: bool, p: bool| #[trigger]
                        old(self).said(c, b, p) && r == asked(c, b, p),
                    step => r == step,
                }),
    {
        let ghost start = *self;
        let mut class = EventClass::Critical;
        loop
            invariant
                start == *old(self),
                forall|c: EventClass| same_source(#[trigger] self.lane(c), start.lane(c)),
                forall|c: EventClass| taken_of(#[trigger] self.lane(c)) == taken_of(start.lane(c)),
                class != EventClass::Critical ==> looks_of(
                    start.lane(EventClass::Critical),
                ).contains(None),
                class == EventClass::Plugin ==> looks_of(start.lane(EventClass::Bulk)).contains(
                    None,
                ),
            decreases
                    (match class {
                        EventClass::Critical => 2int,
                        EventClass::Bulk => 1,
                        EventClass::Plugin => 0,
                    }),
        {
            let ghost before = *self;
            assert(same_source(before.lane(class), start.lane(class)));
            let got: Option<MatrixEvent> = match class {
                EventClass::Critical => receive_now(&mut self.critical),
                EventClass::Bulk => receive_now(&mut self.bulk),
                EventClass::Plugin => receive_now(&mut self.plugin),
            };
            let ghost w = match class {
                EventClass::Critical => Waiting { critical: got, bulk: None, plugin: None },
                EventClass::Bulk => Waiting { critical: None, bulk: got, plugin: None },
                EventClass::Plugin => Waiting { critical: None, bulk: None, plugin: got },
            };
            proof {
                assert(looks_of(start.lane(class)).contains(got));
                assert forall|c: EventClass| same_source(#[trigger] self.lane(c), start.lane(c)) by {
                    assert(same_source(self.lane(c), before.lane(c)));
                    assert(same_source(before.lane(c), start.lane(c)));
                }
                assert forall|c: EventClass| taken_of(#[trigger] self.lane(c)) == taken_of(
                    start.lane(c),
                ) + drawn(w, c) by {
                    assert(taken_of(before.lane(c)) == taken_of(start.lane(c)));
                    if c == class && got is Some {
                        assert(taken_of(self.lane(c)) == taken_of(before.lane(c)).push(got->0));
                    } else {
                        assert(taken_of(self.lane(c)) == taken_of(before.lane(c)));
                    }
                }
            }
            match after_try(class, got) {
                RecvStep::Try(next) => {
                    proof {
                        assert forall|c: EventClass| taken_of(#[trigger] self.lane(c)) == taken_of(
                            start.lane(c),
                        ) by {
                            assert(drawn(w, c) =~= Seq::<MatrixEvent>::empty());
                        }
                    }
                    class = next;
                },
                RecvStep::AskClosed => {
                    assert(start.gave(w));
                    assert(self.took(start, w));
                    let critical: bool = is_closed(&self.critical);
                    let bulk: bool = is_closed(&self.bulk);
                    let plugin: bool = is_closed(&self.plugin);
                    proof {
                        assert(same_source(self.lane(EventClass::Critical), start.lane(EventClass::Critical)));
                        assert(same_source(self.lane(EventClass::Bulk), start.lane(EventClass::Bulk)));
                        assert(same_source(self.lane(EventClass::Plugin), start.lane(EventClass::Plugin)));
                    }
                    assert(start.said(critical, bulk, plugin));
                    return after_closed(critical, bulk, plugin);
                },
                other => {
                    assert(start.gave(w));
                    assert(self.took(start, w));
                    return other;
                },
            }
        }
    }
}

/// Opens the three channels.
pub fn channels() -> (r: (EventSender, EventReceiver))
    ensures
        limit_of(r.0.lane(EventClass::Critical)) is None,
        limit_of(r.0.lane(EventClass::Bulk)) == Some(BULK_CAPACITY),
        limit_of(r.0.lane(EventClass::Plugin)) == Some(PLUGIN_CAPACITY),
        forall|class: EventClass| feeds(#[trigger] r.0.lane(class), r.1.lane(class)),
        forall|class: EventClass| gives_only_sent(#[trigger] r.0.lane(class), r.1.lane(class)),
        forall|class: EventClass|
            offered_of(#[trigger] r.0.lane(class)) == Seq::<(MatrixEvent, SendMode, bool)>::empty(),
        forall|class: EventClass|
            taken_of(#[trigger] r.1.lane(class)) == Seq::<MatrixEvent>::empty(),
{
    let (c_tx, c_rx) = open_unbounded();
    let (b_tx, b_rx) = open_bounded(BULK_CAPACITY);
    let (p_tx, p_rx) = open_bounded(PLUGIN_CAPACITY);
    (
        EventSender { critical: c_tx, bulk: b_tx, plugin: p_tx },
        EventReceiver { critical: c_rx, bulk: b_rx, plugin: p_rx },
    )
}

// ---- laws ---------------------------------------------------------------------

/// What the channels would give out, one event each, if asked.
pub struct Waiting {
    pub critical: Option<MatrixEvent>,
    pub bulk: Option<MatrixEvent>,
    pub plugin: Option<MatrixEvent>,
}

/// An event as a list of at most one.
pub open spec fn listed(e: Option<MatrixEvent>) -> Seq<MatrixEvent> {
    match e {
        Some(x) => seq![x],
        None => Seq::empty(),
    }
}

/// What receiving takes from the channel of a class: nothing where a channel before
/// it had an event.
pub open spec fn drawn(w: Waiting, class: EventClass) -> Seq<MatrixEvent> {
    match class {
        EventClass::Critical => listed(w.critical),
        EventClass::Bulk => if w.critical is None {
            listed(w.bulk)
        } else {
            Seq::empty()
        },
        EventClass::Plugin => if w.critical is None && w.bulk is None {
            listed(w.plugin)
        } else {
            Seq::empty()
        },
    }
}

/// The step that receiving comes to while nothing else happens.
pub open spec fn settled(w: Waiting) -> RecvStep {
    match tried(EventClass::Critical, w.critical) {
        RecvStep::Try(EventClass::Bulk) => match tried(EventClass::Bulk, w.bulk) {
            RecvStep::Try(EventClass::Plugin) => tried(EventClass::Plugin, w.plugin),
            s => s,
        },
        s => s,
    }
}

/// With events on several channels, a critical event comes before a bulk event
/// and a bulk event before a plugin event; no event that waits is passed over
/// for an end or a wait.
pub proof fn law_priority(w: Waiting)
    ensures
        w.critical matches Some(e) ==> settled(w) == RecvStep::Deliver(e),
        w.critical is None && w.bulk is Some ==> settled(w) == RecvStep::Deliver(w.bulk->0),
        w.critical is None && w.bulk is None && w.plugin is Some ==> settled(w)
            == RecvStep::Deliver(w.plugin->0),
        w.critical is None && w.bulk is None && w.plugin is None ==> settled(w)
            == RecvStep::AskClosed,
{
}

/// No event is lost in receiving: what is taken from the channels together is just
/// the event that is handed out, and nothing where none is.
pub proof fn law_taken_is_handed_out(w: Waiting)
    ensures
        drawn(w, EventClass::Critical) + drawn(w, EventClass::Bulk) + drawn(w, EventClass::Plugin)
            == (match settled(w) {
            RecvStep::Deliver(e) => seq![e],
            _ => Seq::<MatrixEvent>::empty(),
        }),
{
    assert(drawn(w, EventClass::Critical) + drawn(w, EventClass::Bulk) + drawn(
        w,
        EventClass::Plugin,
    ) =~= (match settled(w) {
        RecvStep::Deliver(e) => seq![e],
        _ => Seq::<MatrixEvent>::empty(),
    }));
}

/// Only plugin events are ever dropped for want of room.
pub proof fn law_only_plugin_drops(e: MatrixEvent)
    ensures
        route_of(e).1 == SendMode::DropWhenFull <==> crate::matrix::event::class_of(e)
            == EventClass::Plugin,
{
}

} // verus!
