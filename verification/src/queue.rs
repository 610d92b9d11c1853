//! The hand-off between submitters and workers: an unbounded first-in,
//! first-out queue of jobs.

use std::collections::VecDeque;
use vstd::prelude::*;

verus! {

/// Jobs waiting for a worker, oldest first.
pub struct JobQueue<J> {
    jobs: VecDeque<J>,
}

impl<J> View for JobQueue<J> {
    type V = Seq<J>;

    /// The waiting jobs in arrival order: index 0 is the next one to leave.
    closed spec fn view(&self) -> Seq<J> {
        self.jobs@
    }
}

impl<J> JobQueue<J> {
    /// An empty queue.
    pub fn new() -> (queue: Self)
        ensures
            queue@ == Seq::<J>::empty(),
    {
        JobQueue { jobs: VecDeque::new() }
    }

    /// Appends `job` behind every job that is already waiting.
    pub fn submit(&mut self, job: J)
        ensures
            final(self)@ == old(self)@.push(job),
    {
        self.jobs.push_back(job);
    }

    /// Removes and returns the oldest waiting job, or returns `None` and
    /// leaves the queue untouched when nothing is waiting.
    pub fn take(&mut self) -> (job: Option<J>)
        ensures
            old(self)@.len() == 0 ==> job is None && final(self)@ == old(self)@,
            old(self)@.len() > 0 ==> job == Some(old(self)@[0]) && final(self)@ == old(
                self,
            )@.drop_first(),
    {
        self.jobs.pop_front()
    }

    /// Number of waiting jobs.
    pub fn len(&self) -> (n: usize)
        ensures
            n == self@.len(),
    {
        self.jobs.len()
    }

    /// Whether no job is waiting.
    pub fn is_empty(&self) -> (empty: bool)
        ensures
            empty == (self@.len() == 0),
    {
        self.jobs.len() == 0
    }
}

} // verus!
