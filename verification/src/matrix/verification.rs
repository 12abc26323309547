//! Interactive verification of devices: the user compares emojis on both devices
//! and confirms that they are the same.

use vstd::prelude::*;
use crate::matrix::event::MatrixEvent;
use crate::matrix::info::VerificationEmoji;
use crate::table::Table;

verus! {

/// The verifications that are under way, by flow: the requests, and the sessions
/// in which emojis are compared.
pub struct VerificationState<R, S> {
    pub requests: Table<R>,
    pub sas_sessions: Table<S>,
}

impl<R, S> VerificationState<R, S> {
    pub fn new() -> (r: Self)
        ensures
            r.requests.map() == Map::<Seq<char>, R>::empty(),
            r.sas_sessions.map() == Map::<Seq<char>, S>::empty(),
    {
        let r = VerificationState { requests: Table::new(), sas_sessions: Table::new() };
        assert(r.requests.map() =~= Map::<Seq<char>, R>::empty());
        assert(r.sas_sessions.map() =~= Map::<Seq<char>, S>::empty());
        r
    }

    /// Forgets a flow.
    pub fn forget(&mut self, flow_id: &str) -> (r: (Option<R>, Option<S>))
        ensures
            final(self).requests.map() == old(self).requests.map().remove(flow_id@),
            final(self).sas_sessions.map() == old(self).sas_sessions.map().remove(flow_id@),
            r.0 == old(self).requests.lookup(flow_id@),
            r.1 == old(self).sas_sessions.lookup(flow_id@),
    {
        let request = self.requests.remove(flow_id);
        let session = self.sas_sessions.remove(flow_id);
        (request, session)
    }
}

/// Takes in a request of another device, and reports it. A device that does not
/// give its id is called unknown.
pub fn on_request<R, S>(
    state: &mut VerificationState<R, S>,
    flow_id: &str,
    other_user: &str,
    device: Option<String>,
    request: R,
) -> (r: MatrixEvent)
    ensures
        final(state).requests.map() == old(state).requests.map().insert(flow_id@, request),
        final(state).sas_sessions == old(state).sas_sessions,
        r matches MatrixEvent::VerificationRequest { flow_id: f, other_user: u, other_device } && f@
            == flow_id@ && u@ == other_user@ && other_device@ == (match device {
            Some(d) => d@,
            None => "unknown"@,
        }),
{
    state.requests.insert(flow_id.to_owned(), request);
    let other_device: String = match device {
        Some(d) => d,
        None => "unknown".to_owned(),
    };
    MatrixEvent::VerificationRequest {
        flow_id: flow_id.to_owned(),
        other_user: other_user.to_owned(),
        other_device,
    }
}

/// The request that the user accepts, if it is known.
pub fn accept_verification<'a, R, S>(state: &'a VerificationState<R, S>, flow_id: &str) -> (r: Option<
    &'a R,
>)
    ensures
        match r {
            Some(q) => state.requests.lookup(flow_id@) == Some(*q),
            None => state.requests.lookup(flow_id@) is None,
        },
{
    state.requests.get(flow_id)
}

/// The session in which the user confirms the emojis, if it is known.
pub fn confirm_verification<'a, R, S>(state: &'a VerificationState<R, S>, flow_id: &str) -> (r:
    Option<&'a S>)
    ensures
        match r {
            Some(s) => state.sas_sessions.lookup(flow_id@) == Some(*s),
            None => state.sas_sessions.lookup(flow_id@) is None,
        },
{
    state.sas_sessions.get(flow_id)
}

/// Gives up a verification: the session and the request that are to be cancelled,
/// which are forgotten.
pub fn cancel_verification<R, S>(state: &mut VerificationState<R, S>, flow_id: &str) -> (r: (
    Option<S>,
    Option<R>,
))
    ensures
        r.0 == old(state).sas_sessions.lookup(flow_id@),
        r.1 == old(state).requests.lookup(flow_id@),
        final(state).requests.map() == old(state).requests.map().remove(flow_id@),
        final(state).sas_sessions.map() == old(state).sas_sessions.map().remove(flow_id@),
{
    let (request, session) = state.forget(flow_id);
    (session, request)
}

/// A change of a session.
pub enum SasChange {
    /// The keys were exchanged; the emojis are there, if both sides can show them.
    KeysExchanged { emojis: Option<Vec<VerificationEmoji>> },
    Done,
    Cancelled { reason: String },
    /// Nothing to tell.
    Other,
}

/// Takes in a change of a session. The event is what is reported, and the flag
/// says whether the session is over; then the flow is forgotten.
pub fn on_sas_change<R, S>(
    state: &mut VerificationState<R, S>,
    flow_id: &str,
    change: SasChange,
) -> (r: (Option<MatrixEvent>, bool))
    ensures
        r.1 == (change is Done || change is Cancelled),
        r.1 ==> final(state).requests.map() == old(state).requests.map().remove(flow_id@)
            && final(state).sas_sessions.map() == old(state).sas_sessions.map().remove(flow_id@),
        !r.1 ==> *final(state) == *old(state),
        match change {
            SasChange::KeysExchanged { emojis: Some(shown) } => r.0 matches Some(
                MatrixEvent::VerificationEmojis { flow_id: f, emojis },
            ) && f@ == flow_id@ && emojis == shown,
            SasChange::Done => r.0 matches Some(MatrixEvent::VerificationDone { flow_id: f }) && f@
                == flow_id@,
            SasChange::Cancelled { reason: why } => r.0 matches Some(
                MatrixEvent::VerificationCancelled { flow_id: f, reason },
            ) && f@ == flow_id@ && reason == why,
            _ => r.0 is None,
        },
{
    match change {
        SasChange::KeysExchanged { emojis } => match emojis {
            Some(emojis) => (
                Some(MatrixEvent::VerificationEmojis { flow_id: flow_id.to_owned(), emojis }),
                false,
            ),
            None => (None, false),
        },
        SasChange::Done => {
            let _ = state.forget(flow_id);
            (Some(MatrixEvent::VerificationDone { flow_id: flow_id.to_owned() }), true)
        },
        SasChange::Cancelled { reason } => {
            let _ = state.forget(flow_id);
            (
                Some(MatrixEvent::VerificationCancelled { flow_id: flow_id.to_owned(), reason }),
                true,
            )
        },
        SasChange::Other => (None, false),
    }
}

} // verus!
