//! The queue of the avatar decoding worker.
//!
//! Decoding an image is too slow for the user interface thread. Rows enqueue a
//! job and show initials meanwhile; a full queue drops the job, and the next
//! bind of a row for that user tries again.

use vstd::prelude::*;
use crate::queue::BoundedQueue;

verus! {

/// How many jobs may wait.
pub const QUEUE_CAPACITY: usize = 64;

/// One image to decode.
#[derive(Debug)]
pub struct AvatarJob {
    pub user_id: String,
    pub path: String,
}

/// The jobs of the worker, once it was started.
pub struct AvatarQueue {
    jobs: Option<BoundedQueue<AvatarJob>>,
}

impl AvatarQueue {
    /// The waiting jobs; None before the worker was started.
    pub closed spec fn waiting(&self) -> Option<Seq<AvatarJob>> {
        match self.jobs {
            Some(q) => Some(q.waiting()),
            None => None,
        }
    }

    #[verifier::type_invariant]
    spec fn inv(self) -> bool {
        self.jobs is Some ==> self.jobs->0.capacity() == QUEUE_CAPACITY
    }

    pub fn new() -> (r: Self)
        ensures
            r.waiting() is None,
    {
        AvatarQueue { jobs: None }
    }
}

/// Opens the queue. False when it was open already, in which case nothing
/// changes.
pub fn start(queue: &mut AvatarQueue) -> (r: bool)
    ensures
        r == (old(queue).waiting() is None),
        final(queue).waiting() == (match old(queue).waiting() {
            None => Some(Seq::empty()),
            Some(w) => Some(w),
        }),
{
    if queue.jobs.is_some() {
        return false;
    }
    queue.jobs = Some(BoundedQueue::new(QUEUE_CAPACITY));
    true
}

/// Enqueues a job. False when the queue is full or the worker was not
/// started; the job is dropped then.
pub fn try_enqueue(queue: &mut AvatarQueue, user_id: String, path: String) -> (r: bool)
    ensures
        r == (match old(queue).waiting() {
            Some(w) => w.len() < QUEUE_CAPACITY,
            None => false,
        }),
        final(queue).waiting() == (if r {
            Some(old(queue).waiting()->0.push(AvatarJob { user_id, path }))
        } else {
            old(queue).waiting()
        }),
{
    proof {
        use_type_invariant(&*queue);
    }
    let mut jobs: Option<BoundedQueue<AvatarJob>> = None;
    std::mem::swap(&mut queue.jobs, &mut jobs);
    match jobs {
        None => false,
        Some(mut q) => {
            let pushed = q.try_push(AvatarJob { user_id, path });
            queue.jobs = Some(q);
            pushed.is_ok()
        },
    }
}

/// The jobs from the first with a path on.
pub open spec fn without_blank(jobs: Seq<AvatarJob>) -> Seq<AvatarJob>
    decreases jobs.len(),
{
    if jobs.len() > 0 && jobs[0].path@.len() == 0 {
        without_blank(jobs.drop_first())
    } else {
        jobs
    }
}

/// The next job for the worker; jobs without a path are passed over.
pub fn next_job(queue: &mut AvatarQueue) -> (r: Option<AvatarJob>)
    ensures
        match old(queue).waiting() {
            None => r is None && final(queue).waiting() is None,
            Some(w) => match r {
                Some(job) => without_blank(w).len() > 0 && job == without_blank(w)[0]
                    && final(queue).waiting() == Some(without_blank(w).drop_first()),
                None => without_blank(w).len() == 0 && final(queue).waiting() == Some(
                    Seq::<AvatarJob>::empty(),
                ),
            },
        },
{
    proof {
        use_type_invariant(&*queue);
    }
    let mut jobs: Option<BoundedQueue<AvatarJob>> = None;
    std::mem::swap(&mut queue.jobs, &mut jobs);
    match jobs {
        None => None,
        Some(mut q) => {
            let ghost w = q.waiting();
            let mut found: Option<AvatarJob> = None;
            loop
                invariant_except_break
                    q.capacity() == QUEUE_CAPACITY,
                    without_blank(q.waiting()) == without_blank(w),
                    found is None,
                ensures
                    q.capacity() == QUEUE_CAPACITY,
                    match found {
                        Some(job) => without_blank(w).len() > 0 && job == without_blank(w)[0]
                            && q.waiting() == without_blank(w).drop_first(),
                        None => without_blank(w).len() == 0 && q.waiting()
                            == Seq::<AvatarJob>::empty(),
                    },
                decreases q.waiting().len(),
            {
                let ghost before = q.waiting();
                match q.pop() {
                    None => {
                        assert(q.waiting() == Seq::<AvatarJob>::empty());
                        break;
                    },
                    Some(job) => {
                        if !job.path.as_str().is_empty() {
                            found = Some(job);
                            break;
                        }
                    },
                }
            }
            queue.jobs = Some(q);
            found
        },
    }
}

/// Only jobs without a path are passed over: what is left begins with a job that has
/// one, and the jobs before it have none.
pub proof fn law_only_blank_jobs_are_passed_over(jobs: Seq<AvatarJob>)
    ensures
        ({
            let left = without_blank(jobs);
            let n = jobs.len() - left.len();
            &&& 0 <= n <= jobs.len()
            &&& left == jobs.skip(n)
            &&& left.len() > 0 ==> left[0].path@.len() > 0
            &&& forall|i: int| 0 <= i < n ==> (#[trigger] jobs[i]).path@.len() == 0
        }),
    decreases jobs.len(),
{
    if jobs.len() > 0 && jobs[0].path@.len() == 0 {
        let rest = jobs.drop_first();
        law_only_blank_jobs_are_passed_over(rest);
        let n = rest.len() - without_blank(rest).len();
        assert(rest.skip(n) == jobs.skip(n + 1));
        assert forall|i: int| 0 <= i < n + 1 implies (#[trigger] jobs[i]).path@.len() == 0 by {
            if i > 0 {
                assert(rest[i - 1] == jobs[i]);
            }
        }
    } else {
        assert(jobs.skip(0) == jobs);
    }
}

} // verus!
