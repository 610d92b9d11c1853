//! What holds of every run of the pool: a run is any sequence of
//! submissions, requests for a job and reports that a job ended, in the
//! order in which the pool saw them.

use crate::thread_pool::{Activity, PoolView};
use vstd::prelude::*;

verus! {

/// One call on the pool.
pub enum PoolStep<J> {
    /// `job` is submitted.
    Execute { job: J },
    /// `worker` asks for a job.
    Take { worker: nat },
    /// The job of `worker` ended.
    Finish { worker: nat },
}

impl<J> PoolView<J> {
    /// The pool after `step`.
    pub open spec fn step(self, step: PoolStep<J>) -> Self {
        match step {
            PoolStep::Execute { job } => self.execute(job),
            PoolStep::Take { worker } => self.take(worker),
            PoolStep::Finish { worker } => self.finish(worker),
        }
    }

    /// The jobs that `step` hands to a worker: one job or none.
    pub open spec fn hands_out(self, step: PoolStep<J>) -> Seq<J> {
        match step {
            PoolStep::Take { worker } => match self.taken(worker) {
                Some(job) => seq![job],
                None => Seq::empty(),
            },
            _ => Seq::empty(),
        }
    }

    /// The pool after `steps`, taken in order.
    pub open spec fn run(self, steps: Seq<PoolStep<J>>) -> Self
        decreases steps.len(),
    {
        if steps.len() == 0 {
            self
        } else {
            self.run(steps.drop_last()).step(steps.last())
        }
    }

    /// The jobs that were handed to workers in the course of `steps`, in the
    /// order of handing out.
    pub open spec fn handed_out(self, steps: Seq<PoolStep<J>>) -> Seq<J>
        decreases steps.len(),
    {
        if steps.len() == 0 {
            Seq::empty()
        } else {
            self.handed_out(steps.drop_last()) + self.run(steps.drop_last()).hands_out(
                steps.last(),
            )
        }
    }
}

/// The jobs that `steps` submit, in the order of submission.
pub open spec fn accepted<J>(steps: Seq<PoolStep<J>>) -> Seq<J>
    decreases steps.len(),
{
    if steps.len() == 0 {
        Seq::empty()
    } else {
        accepted(steps.drop_last()) + match steps.last() {
            PoolStep::Execute { job } => seq![job],
            _ => Seq::empty(),
        }
    }
}

/// The steps that submit `jobs` one after the other.
pub open spec fn submissions<J>(jobs: Seq<J>) -> Seq<PoolStep<J>> {
    Seq::new(jobs.len(), |i: int| PoolStep::Execute { job: jobs[i] })
}

/// The steps in which `worker` asks for a job and reports its end, `count`
/// times over.
pub open spec fn rounds<J>(worker: nat, count: nat) -> Seq<PoolStep<J>> {
    Seq::new(
        2 * count,
        |i: int|
            if i % 2 == 0 {
                PoolStep::Take { worker }
            } else {
                PoolStep::Finish { worker }
            },
    )
}

/// No step breaks the pool's invariant, and none adds or removes a worker.
pub proof fn lemma_step_keeps_invariant<J>(pool: PoolView<J>, step: PoolStep<J>)
    requires
        pool.wf(),
    ensures
        pool.step(step).wf(),
        pool.step(step).workers.len() == pool.workers.len(),
{
}

/// The pool's invariant holds after every run, and the number of workers
/// is the one that the pool started with.
pub proof fn lemma_run_keeps_invariant<J>(pool: PoolView<J>, steps: Seq<PoolStep<J>>)
    requires
        pool.wf(),
    ensures
        pool.run(steps).wf(),
        pool.run(steps).workers.len() == pool.workers.len(),
    decreases steps.len(),
{
    if steps.len() > 0 {
        lemma_run_keeps_invariant(pool, steps.drop_last());
        lemma_step_keeps_invariant(pool.run(steps.drop_last()), steps.last());
    }
}

/// First in, first out, each job once: over any run, the jobs that waited
/// at its start followed by the jobs submitted in it are the jobs handed to
/// workers in it followed by the jobs that wait at its end. So no job is
/// lost, none is handed out twice, and none is handed out before a job that
/// was submitted earlier.
pub proof fn lemma_jobs_leave_in_arrival_order<J>(pool: PoolView<J>, steps: Seq<PoolStep<J>>)
    requires
        pool.wf(),
    ensures
        pool.handed_out(steps) + pool.run(steps).pending() == pool.pending() + accepted(steps),
    decreases steps.len(),
{
    if steps.len() == 0 {
        assert(pool.handed_out(steps) + pool.run(steps).pending() =~= pool.pending() + accepted(
            steps,
        ));
    } else {
        let before = pool.run(steps.drop_last());
        lemma_jobs_leave_in_arrival_order(pool, steps.drop_last());
        lemma_run_keeps_invariant(pool, steps.drop_last());
        assert(pool.handed_out(steps) + pool.run(steps).pending() =~= (pool.handed_out(
            steps.drop_last(),
        ) + before.pending()) + match steps.last() {
            PoolStep::Execute { job } => seq![job],
            _ => Seq::empty(),
        });
    }
}

/// No job is executed by two workers: two workers that are running hold
/// different tickets.
pub proof fn lemma_running_workers_hold_distinct_jobs<J>(pool: PoolView<J>, first: nat, second: nat)
    requires
        pool.wf(),
        first < pool.workers.len(),
        second < pool.workers.len(),
        first != second,
        pool.workers[first as int] is Running,
        pool.workers[second as int] is Running,
    ensures
        pool.workers[first as int]->ticket != pool.workers[second as int]->ticket,
{
}

/// Submitting never waits for a worker: whatever the workers are doing and
/// however many jobs are submitted, every one of them joins the queue, in
/// order, and stays there until a worker asks for it.
pub proof fn lemma_submissions_queue_up<J>(pool: PoolView<J>, jobs: Seq<J>)
    requires
        pool.wf(),
    ensures
        pool.run(submissions(jobs)).workers == pool.workers,
        pool.run(submissions(jobs)).delivered == pool.delivered,
        pool.run(submissions(jobs)).pending() == pool.pending() + jobs,
        pool.handed_out(submissions(jobs)) == Seq::<J>::empty(),
    decreases jobs.len(),
{
    let steps = submissions(jobs);
    if jobs.len() == 0 {
        assert(pool.pending() + jobs =~= pool.pending());
    } else {
        lemma_submissions_queue_up(pool, jobs.drop_last());
        assert(steps.drop_last() =~= submissions(jobs.drop_last()));
        assert(steps.last() == PoolStep::Execute { job: jobs.last() });
        let before = pool.run(steps.drop_last());
        lemma_run_keeps_invariant(pool, steps.drop_last());
        assert(before.execute(jobs.last()).pending() =~= before.pending().push(jobs.last()));
        assert(before.pending().push(jobs.last()) =~= pool.pending() + jobs);
    }
}

/// A worker that is not waiting gets no job, and its request changes
/// nothing: a job waits until a waiting worker asks.
pub proof fn lemma_running_worker_takes_nothing<J>(pool: PoolView<J>, worker: nat)
    requires
        !pool.is_idle(worker),
    ensures
        pool.taken(worker) is None,
        pool.take(worker) == pool,
{
}

/// Every waiting job is executed where a worker keeps working: a waiting
/// worker that asks for a job and reports its end `count` times over is
/// handed the `count` oldest waiting jobs, oldest first, one at a time, and
/// leaves the others waiting.
pub proof fn lemma_worker_drains_queue<J>(pool: PoolView<J>, worker: nat, count: nat)
    requires
        pool.wf(),
        pool.is_idle(worker),
        count <= pool.pending().len(),
    ensures
        pool.handed_out(rounds(worker, count)) == pool.pending().take(count as int),
        pool.run(rounds(worker, count)).pending() == pool.pending().skip(count as int),
        pool.run(rounds(worker, count)).workers == pool.workers,
    decreases count,
{
    let steps = rounds::<J>(worker, count);
    if count == 0 {
        assert(pool.pending().take(0) =~= Seq::<J>::empty());
        assert(pool.pending().skip(0) =~= pool.pending());
    } else {
        let earlier = rounds::<J>(worker, (count - 1) as nat);
        lemma_worker_drains_queue(pool, worker, (count - 1) as nat);
        lemma_run_keeps_invariant(pool, earlier);
        assert(steps.drop_last().drop_last() =~= earlier);
        assert(steps.last() == PoolStep::<J>::Finish { worker });
        assert(steps.drop_last().last() == PoolStep::<J>::Take { worker });
        let before = pool.run(earlier);
        assert(pool.run(steps.drop_last()) == before.step(PoolStep::Take { worker }));
        assert(before.can_take(worker));
        let after = before.take(worker).finish(worker);
        assert(pool.run(steps) == after);
        assert(after.workers =~= pool.workers);
        assert(after.pending() =~= before.pending().skip(1));
        assert(before.pending().skip(1) =~= pool.pending().skip(count as int));
        assert(pool.handed_out(steps.drop_last()) == pool.handed_out(earlier) + seq![
            before.pending()[0],
        ]);
        assert(pool.handed_out(steps) =~= pool.pending().take(count as int));
    }
}

} // verus!
