//! The queue of the markup worker.
//!
//! Message bodies are converted to markup on a worker thread. A job carries a
//! number; the object that waits for the result stays behind, registered under
//! that number, until the result arrives. A full queue drops the job, and the
//! object keeps its plain-text fallback.

use vstd::prelude::*;
use std::collections::HashMap;
use crate::directory::Directory;
use crate::queue::BoundedQueue;

verus! {

broadcast use vstd::std_specs::hash::group_hash_axioms;

/// How many jobs may wait.
pub const QUEUE_CAPACITY: usize = 512;

/// One body to convert.
#[derive(Debug)]
pub struct MarkupJob {
    pub id: u64,
    pub formatted_body: String,
}

/// The jobs of the worker, and the objects that wait for results.
pub struct MarkupQueue<T> {
    jobs: Option<BoundedQueue<MarkupJob>>,
    next_id: u64,
    pending: HashMap<u64, T>,
}

impl<T> MarkupQueue<T> {
    /// The waiting jobs; None before the worker was started.
    pub closed spec fn waiting(&self) -> Option<Seq<MarkupJob>> {
        match self.jobs {
            Some(q) => Some(q.waiting()),
            None => None,
        }
    }

    /// The number that the next job gets.
    pub closed spec fn next_id(&self) -> u64 {
        self.next_id
    }

    /// The objects that wait, by job number.
    pub closed spec fn pending(&self) -> Map<u64, T> {
        self.pending@
    }

    #[verifier::type_invariant]
    spec fn inv(self) -> bool {
        self.jobs is Some ==> self.jobs->0.capacity() == QUEUE_CAPACITY
    }

    pub fn new() -> (r: Self)
        ensures
            r.waiting() is None,
            r.next_id() == 1,
            r.pending() == Map::<u64, T>::empty(),
    {
        MarkupQueue { jobs: None, next_id: 1, pending: HashMap::new() }
    }
}

/// Opens the queue. False when it was open already, in which case nothing
/// changes.
pub fn start<T>(queue: &mut MarkupQueue<T>) -> (r: bool)
    ensures
        r == (old(queue).waiting() is None),
        final(queue).waiting() == (match old(queue).waiting() {
            None => Some(Seq::empty()),
            Some(w) => Some(w),
        }),
        final(queue).next_id() == old(queue).next_id(),
        final(queue).pending() == old(queue).pending(),
{
    if queue.jobs.is_some() {
        return false;
    }
    queue.jobs = Some(BoundedQueue::new(QUEUE_CAPACITY));
    true
}

/// Enqueues a body for conversion and registers `target` for the result.
/// Nothing is registered when the worker was not started or the queue is
/// full.
pub fn try_enqueue<T>(queue: &mut MarkupQueue<T>, target: T, formatted_body: String)
    requires
        old(queue).next_id() < u64::MAX,
    ensures
        match old(queue).waiting() {
            None => final(queue).waiting() is None && final(queue).next_id() == old(queue).next_id()
                && final(queue).pending() == old(queue).pending(),
            Some(w) => final(queue).next_id() == old(queue).next_id() + 1 && (if w.len()
                < QUEUE_CAPACITY {
                final(queue).waiting() == Some(
                    w.push(MarkupJob { id: old(queue).next_id(), formatted_body }),
                ) && final(queue).pending() == old(queue).pending().insert(
                    old(queue).next_id(),
                    target,
                )
            } else {
                final(queue).waiting() == Some(w) && final(queue).pending() == old(
                    queue,
                ).pending()
            }),
        },
{
    proof {
        use_type_invariant(&*queue);
    }
    let mut jobs: Option<BoundedQueue<MarkupJob>> = None;
    std::mem::swap(&mut queue.jobs, &mut jobs);
    if let Some(mut q) = jobs {
        let id: u64 = queue.next_id;
        queue.next_id = id + 1;
        let pushed = q.try_push(MarkupJob { id, formatted_body });
        if pushed.is_ok() {
            let mut pending: HashMap<u64, T> = HashMap::new();
            std::mem::swap(&mut queue.pending, &mut pending);
            pending.insert(id, target);
            queue.pending = pending;
        }
        queue.jobs = Some(q);
    }
}

/// The next job for the worker.
pub fn next_job<T>(queue: &mut MarkupQueue<T>) -> (r: Option<MarkupJob>)
    ensures
        final(queue).next_id() == old(queue).next_id(),
        final(queue).pending() == old(queue).pending(),
        match old(queue).waiting() {
            None => r is None && final(queue).waiting() is None,
            Some(w) => if w.len() > 0 {
                r == Some(w[0]) && final(queue).waiting() == Some(w.drop_first())
            } else {
                r is None && final(queue).waiting() == Some(w)
            },
        },
{
    proof {
        use_type_invariant(&*queue);
    }
    let mut jobs: Option<BoundedQueue<MarkupJob>> = None;
    std::mem::swap(&mut queue.jobs, &mut jobs);
    match jobs {
        None => None,
        Some(mut q) => {
            let r = q.pop();
            queue.jobs = Some(q);
            r
        },
    }
}

/// Converts the body of a job.
pub fn run_job(dir: &Directory, job: &MarkupJob) -> (r: String)
    ensures
        r@ == crate::markdown::pango_of(*dir, job.formatted_body@),
{
    crate::markdown::html_to_pango(dir, job.formatted_body.as_str())
}

/// The object that a result is for, together with the markup to set. None when
/// nothing is registered under the number, or when the markup is empty: the
/// object then keeps its plain-text fallback. Either way the number is no
/// longer registered.
pub fn apply_result<T>(queue: &mut MarkupQueue<T>, id: u64, markup: String) -> (r: Option<
    (T, String),
>)
    ensures
        final(queue).pending() == old(queue).pending().remove(id),
        final(queue).waiting() == old(queue).waiting(),
        final(queue).next_id() == old(queue).next_id(),
        match r {
            Some(p) => old(queue).pending().contains_key(id) && p.0 == old(queue).pending()[id]
                && p.1 == markup && markup@.len() > 0,
            None => !old(queue).pending().contains_key(id) || markup@.len() == 0,
        },
{
    proof {
        use_type_invariant(&*queue);
    }
    let mut pending: HashMap<u64, T> = HashMap::new();
    std::mem::swap(&mut queue.pending, &mut pending);
    let found = pending.remove(&id);
    queue.pending = pending;
    match found {
        Some(target) => if markup.as_str().is_empty() {
            None
        } else {
            Some((target, markup))
        },
        None => None,
    }
}

} // verus!
