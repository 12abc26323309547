//! A bounded first-in, first-out queue that drops what does not fit.

use vstd::prelude::*;
use std::collections::VecDeque;

verus! {

/// Jobs for one worker. A full queue refuses further jobs.
pub struct BoundedQueue<T> {
    jobs: VecDeque<T>,
    capacity: usize,
}

impl<T> BoundedQueue<T> {
    /// The waiting jobs, next first.
    pub closed spec fn waiting(&self) -> Seq<T> {
        self.jobs@
    }

    pub closed spec fn capacity(&self) -> usize {
        self.capacity
    }

    #[verifier::type_invariant]
    spec fn inv(self) -> bool {
        self.jobs@.len() <= self.capacity
    }

    pub fn new(capacity: usize) -> (r: Self)
        ensures
            r.waiting() == Seq::<T>::empty(),
            r.capacity() == capacity,
    {
        BoundedQueue { jobs: VecDeque::new(), capacity }
    }

    pub fn len(&self) -> (r: usize)
        ensures
            r == self.waiting().len(),
            r <= self.capacity(),
    {
        proof {
            use_type_invariant(self);
        }
        self.jobs.len()
    }

    /// Appends a job; a full queue hands it back.
    pub fn try_push(&mut self, job: T) -> (r: Result<(), T>)
        ensures
            final(self).capacity() == old(self).capacity(),
            r is Ok <==> old(self).waiting().len() < old(self).capacity(),
            match r {
                Ok(()) => final(self).waiting() == old(self).waiting().push(job),
                Err(back) => back == job && final(self).waiting() == old(self).waiting(),
            },
    {
        proof {
            use_type_invariant(&*self);
        }
        if self.jobs.len() >= self.capacity {
            return Err(job);
        }
        let mut jobs: VecDeque<T> = VecDeque::new();
        std::mem::swap(&mut self.jobs, &mut jobs);
        jobs.push_back(job);
        self.jobs = jobs;
        Ok(())
    }

    /// Takes the next job.
    pub fn pop(&mut self) -> (r: Option<T>)
        ensures
            final(self).capacity() == old(self).capacity(),
            match r {
                Some(job) => old(self).waiting().len() > 0 && job == old(self).waiting()[0]
                    && final(self).waiting() == old(self).waiting().drop_first(),
                None => old(self).waiting().len() == 0 && final(self).waiting() == old(
                    self,
                ).waiting(),
            },
    {
        proof {
            use_type_invariant(&*self);
        }
        let mut jobs: VecDeque<T> = VecDeque::new();
        std::mem::swap(&mut self.jobs, &mut jobs);
        let ghost before = jobs@;
        let r = jobs.pop_front();
        self.jobs = jobs;
        assert(before.len() > 0 ==> before.subrange(1, before.len() as int) == before.drop_first());
        r
    }
}

} // verus!
