//! The pool: a fixed set of workers and the queue that feeds them.
//!
//! The pool decides; it neither runs a job nor waits. A caller submits with
//! `execute`. Whoever drives worker `w` calls `take(w)`, runs the job that
//! comes back, and reports with `finish(w, ..)`; on `None` it waits for the
//! next submission.

use crate::queue::JobQueue;
use crate::worker::{JobOutcome, Worker, WorkerEvent, WorkerState};
use vstd::prelude::*;

verus! {

/// What a worker is doing, as the pool's model records it.
pub enum Activity {
    /// Waiting for a job.
    Idle,
    /// Executing the job with this ticket.
    Running { ticket: nat },
}

/// The pool as a mathematical value: what every worker is doing, and the
/// history of the queue.
///
/// A job's ticket is its index in `submitted`. Tickets leave the queue in
/// order, so the tickets below `delivered.len()` have left it and the others
/// are waiting.
pub struct PoolView<J> {
    /// One entry per worker, at the index that is the worker's identity.
    pub workers: Seq<Activity>,
    /// Every job that was accepted so far, in the order of acceptance.
    pub submitted: Seq<J>,
    /// For each ticket that has left the queue, the worker that took it.
    pub delivered: Seq<nat>,
}

impl<J> PoolView<J> {
    /// A fresh pool of `size` waiting workers, with nothing submitted.
    pub open spec fn init(size: nat) -> Self {
        PoolView {
            workers: Seq::new(size, |w: int| Activity::Idle),
            submitted: Seq::empty(),
            delivered: Seq::empty(),
        }
    }

    /// The jobs that wait in the queue, oldest first.
    pub open spec fn pending(self) -> Seq<J> {
        self.submitted.skip(self.delivered.len() as int)
    }

    /// What holds of the pool in every state: it has a worker; only
    /// submitted jobs have left the queue, each to one worker of the pool;
    /// and a running worker executes a job that it took itself.
    pub open spec fn wf(self) -> bool {
        &&& self.workers.len() > 0
        &&& self.delivered.len() <= self.submitted.len()
        &&& forall|t: int|
            0 <= t < self.delivered.len() ==> #[trigger] self.delivered[t] < self.workers.len()
        &&& forall|w: int|
            0 <= w < self.workers.len() ==> (#[trigger] self.workers[w] matches Activity::Running {
                ticket,
            } ==> ticket < self.delivered.len() && self.delivered[ticket as int] == w)
    }

    /// Whether `worker` is a worker of the pool and waits for a job.
    pub open spec fn is_idle(self, worker: nat) -> bool {
        worker < self.workers.len() && self.workers[worker as int] is Idle
    }

    /// Whether `worker` gets a job when it asks for one.
    pub open spec fn can_take(self, worker: nat) -> bool {
        self.is_idle(worker) && self.pending().len() > 0
    }

    /// The pool after `job` was submitted.
    pub open spec fn execute(self, job: J) -> Self {
        PoolView { submitted: self.submitted.push(job), ..self }
    }

    /// The job that `worker` gets when it asks for one.
    pub open spec fn taken(self, worker: nat) -> Option<J> {
        if self.can_take(worker) {
            Some(self.pending()[0])
        } else {
            None
        }
    }

    /// The pool after `worker` asked for a job.
    pub open spec fn take(self, worker: nat) -> Self {
        if self.can_take(worker) {
            PoolView {
                workers: self.workers.update(
                    worker as int,
                    Activity::Running { ticket: self.delivered.len() },
                ),
                delivered: self.delivered.push(worker),
                ..self
            }
        } else {
            self
        }
    }

    /// The pool after the job of `worker` ended.
    pub open spec fn finish(self, worker: nat) -> Self {
        if worker < self.workers.len() {
            PoolView { workers: self.workers.update(worker as int, Activity::Idle), ..self }
        } else {
            self
        }
    }
}

/// The pool: its workers, the queue, and the record of what went through it.
pub struct ThreadPool<J> {
    workers: Vec<Worker>,
    queue: JobQueue<J>,
    model: Ghost<PoolView<J>>,
}

impl<J> View for ThreadPool<J> {
    type V = PoolView<J>;

    closed spec fn view(&self) -> PoolView<J> {
        self.model@
    }
}

impl<J> ThreadPool<J> {
    /// Whether the workers and the queue that the pool holds are the ones
    /// that its view describes.
    pub closed spec fn mirrors_view(&self) -> bool {
        &&& self.workers@.len() == self@.workers.len()
        &&& forall|w: int|
            0 <= w < self.workers@.len() ==> {
                &&& (#[trigger] self.workers@[w]).id() == w
                &&& self.workers@[w].state() == WorkerState::Idle <==> self@.workers[w] is Idle
            }
        &&& self.queue@ == self@.pending()
    }

    /// The pool's invariant. `new` establishes it and every method keeps it.
    pub open spec fn wf(&self) -> bool {
        self@.wf() && self.mirrors_view()
    }

    /// A pool of `size` waiting workers and an empty queue.
    pub fn new(size: usize) -> (pool: Self)
        requires
            size > 0,
        ensures
            pool.wf(),
            pool@ == PoolView::<J>::init(size as nat),
    {
        let mut workers: Vec<Worker> = Vec::new();
        let mut id: usize = 0;
        while id < size
            invariant
                id <= size,
                workers@.len() == id,
                forall|w: int|
                    0 <= w < id ==> (#[trigger] workers@[w]).id() == w && workers@[w].state()
                        == WorkerState::Idle,
            decreases size - id,
        {
            workers.push(Worker::new(id));
            id += 1;
        }
        let pool = ThreadPool {
            workers,
            queue: JobQueue::new(),
            model: Ghost(PoolView::init(size as nat)),
        };
        assert(pool.queue@ =~= pool@.pending());
        pool
    }

    /// Submits `job`: it joins the queue behind every job that waits there.
    /// The pool takes any number of jobs, whatever its workers are doing.
    pub fn execute(&mut self, job: J)
        requires
            old(self).wf(),
        ensures
            final(self).wf(),
            final(self)@ == old(self)@.execute(job),
    {
        let ghost submitted = job;
        self.queue.submit(job);
        self.model = Ghost(self.model@.execute(submitted));
        assert(self.queue@ =~= self@.pending());
    }

    /// Hands the oldest waiting job to `worker`, which is running from now
    /// on. Returns `None` and changes nothing where no job waits, where
    /// `worker` is already running, and where the pool has no such worker.
    pub fn take(&mut self, worker: usize) -> (job: Option<J>)
        requires
            old(self).wf(),
        ensures
            final(self).wf(),
            final(self)@ == old(self)@.take(worker as nat),
            job == old(self)@.taken(worker as nat),
    {
        if worker >= self.workers.len() {
            return None;
        }
        if self.workers[worker].state() != WorkerState::Idle {
            return None;
        }
        match self.queue.take() {
            None => None,
            Some(job) => {
                self.workers[worker].handle(WorkerEvent::JobTaken);
                self.model = Ghost(self.model@.take(worker as nat));
                assert(self.queue@ =~= self@.pending());
                Some(job)
            },
        }
    }

    /// Records that the job of `worker` ended: the worker waits again,
    /// whether the job returned or failed. Changes nothing where `worker`
    /// was not running or the pool has no such worker.
    pub fn finish(&mut self, worker: usize, outcome: JobOutcome)
        requires
            old(self).wf(),
        ensures
            final(self).wf(),
            final(self)@ == old(self)@.finish(worker as nat),
    {
        if worker < self.workers.len() {
            self.workers[worker].handle(WorkerEvent::JobEnded(outcome));
            self.model = Ghost(self.model@.finish(worker as nat));
            assert(self.queue@ =~= self@.pending());
        }
    }

    /// The number of workers.
    pub fn size(&self) -> (size: usize)
        requires
            self.wf(),
        ensures
            size == self@.workers.len(),
    {
        self.workers.len()
    }

    /// The number of jobs that wait in the queue.
    pub fn pending(&self) -> (count: usize)
        requires
            self.wf(),
        ensures
            count == self@.pending().len(),
    {
        self.queue.len()
    }

    /// What `worker` is doing, or `None` where the pool has no such worker.
    pub fn worker_state(&self, worker: usize) -> (state: Option<WorkerState>)
        requires
            self.wf(),
        ensures
            state == if worker >= self@.workers.len() {
                None
            } else if self@.workers[worker as int] is Idle {
                Some(WorkerState::Idle)
            } else {
                Some(WorkerState::Running)
            },
    {
        if worker < self.workers.len() {
            Some(self.workers[worker].state())
        } else {
            None
        }
    }
}

} // verus!
