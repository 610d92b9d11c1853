//! One worker of the pool: its identity, and the two-state machine that it
//! runs through for every job.

use vstd::prelude::*;

verus! {

/// What a worker is doing.
#[derive(Clone, Copy, Debug, PartialEq, Eq, Structural)]
pub enum WorkerState {
    /// Waiting for a job.
    Idle,
    /// Executing the one job that it took.
    Running,
}

/// How the execution of a job ended.
#[derive(Clone, Copy, Debug, PartialEq, Eq, Structural)]
pub enum JobOutcome {
    /// The job returned.
    Completed,
    /// The job failed on the way; the failure was contained.
    Failed,
}

/// What happens to a worker.
#[derive(Clone, Copy, Debug, PartialEq, Eq, Structural)]
pub enum WorkerEvent {
    /// The queue handed it a job.
    JobTaken,
    /// The job that it was executing ended.
    JobEnded(JobOutcome),
}

impl WorkerState {
    /// The state that follows `self` on `event`. A waiting worker that takes
    /// a job is running; a running worker whose job ended is waiting again,
    /// however the job ended. An event that does not fit the state changes
    /// nothing.
    pub open spec fn after(self, event: WorkerEvent) -> WorkerState {
        match (self, event) {
            (WorkerState::Idle, WorkerEvent::JobTaken) => WorkerState::Running,
            (WorkerState::Running, WorkerEvent::JobEnded(_)) => WorkerState::Idle,
            _ => self,
        }
    }

    /// Whether `event` can happen to a worker in state `self`.
    pub open spec fn accepts(self, event: WorkerEvent) -> bool {
        match (self, event) {
            (WorkerState::Idle, WorkerEvent::JobTaken) => true,
            (WorkerState::Running, WorkerEvent::JobEnded(_)) => true,
            _ => false,
        }
    }
}

/// A worker: an identity that never changes, and a state.
pub struct Worker {
    id: usize,
    state: WorkerState,
}

impl Worker {
    /// The worker's identity.
    pub closed spec fn spec_id(&self) -> usize {
        self.id
    }

    /// The worker's state.
    pub closed spec fn spec_state(&self) -> WorkerState {
        self.state
    }

    /// A waiting worker with identity `id`.
    pub fn new(id: usize) -> (worker: Worker)
        ensures
            worker.id() == id,
            worker.state() == WorkerState::Idle,
    {
        Worker { id, state: WorkerState::Idle }
    }

    /// The worker's identity.
    #[verifier::when_used_as_spec(spec_id)]
    pub fn id(&self) -> (id: usize)
        ensures
            id == self.spec_id(),
    {
        self.id
    }

    /// The worker's state.
    #[verifier::when_used_as_spec(spec_state)]
    pub fn state(&self) -> (state: WorkerState)
        ensures
            state == self.spec_state(),
    {
        self.state
    }

    /// Applies `event` to the worker and tells whether it fitted the
    /// worker's state. An event that does not fit leaves the worker as it
    /// was.
    pub fn handle(&mut self, event: WorkerEvent) -> (accepted: bool)
        ensures
            accepted == old(self).state().accepts(event),
            final(self).state() == old(self).state().after(event),
            final(self).id() == old(self).id(),
    {
        match (self.state, event) {
            (WorkerState::Idle, WorkerEvent::JobTaken) => {
                self.state = WorkerState::Running;
                true
            },
            (WorkerState::Running, WorkerEvent::JobEnded(_)) => {
                self.state = WorkerState::Idle;
                true
            },
            _ => false,
        }
    }
}

} // verus!
