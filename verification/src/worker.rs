//! One worker of the pool: its number and where it stands in its life.

use crate::protocol::Slot;
use vstd::prelude::*;

verus! {

/// Where a worker stands.
#[derive(Clone, Copy, Debug, PartialEq, Eq)]
pub enum WorkerState {
    /// Waiting for a job: blocked on the channel, or about to ask it.
    Running,
    /// Running the one job it has claimed.
    Executing,
    /// Saw the channel closed and left. A terminated worker never returns.
    Terminated,
}

/// How a job ended.
#[derive(Clone, Copy, Debug, PartialEq, Eq)]
pub enum Outcome {
    /// The job ran to its end.
    Completed,
    /// The job raised a fault, which was caught at the worker's boundary.
    Faulted,
}

/// The report of a job that raised a fault. The worker that ran it lives on.
#[derive(Clone, Copy, Debug, PartialEq, Eq)]
pub struct JobFault {
    /// The worker that ran the job.
    pub worker: usize,
}

/// A worker: a number, fixed for life, and a state.
pub struct Worker {
    id: usize,
    state: WorkerState,
    job: Ghost<nat>,
}

impl View for Worker {
    type V = Slot;

    closed spec fn view(&self) -> Slot {
        match self.state {
            WorkerState::Running => Slot::Running,
            WorkerState::Executing => Slot::Executing { job: self.job@ },
            WorkerState::Terminated => Slot::Terminated,
        }
    }
}

impl Worker {
    /// The worker's number.
    pub closed spec fn number(&self) -> usize {
        self.id
    }

    /// A worker with the number `id` that waits for its first job.
    pub fn new(id: usize) -> (worker: Worker)
        ensures
            worker.number() == id,
            worker@ == Slot::Running,
    {
        Worker { id, state: WorkerState::Running, job: Ghost(0) }
    }

    /// The worker's number.
    pub fn id(&self) -> (id: usize)
        ensures
            id == self.number(),
    {
        self.id
    }

    /// The worker's state.
    pub fn state(&self) -> (state: WorkerState)
        ensures
            state == self@.state(),
    {
        self.state
    }

    /// The worker takes up the job with the number `job`.
    pub(crate) fn start(&mut self, job: Ghost<nat>)
        ensures
            final(self).number() == old(self).number(),
            final(self)@ == (Slot::Executing { job: job@ }),
    {
        self.state = WorkerState::Executing;
        self.job = job;
    }

    /// The worker's job has ended; it waits for the next.
    pub(crate) fn rest(&mut self)
        ensures
            final(self).number() == old(self).number(),
            final(self)@ == Slot::Running,
    {
        self.state = WorkerState::Running;
    }

    /// The worker has seen the channel closed and leaves.
    pub(crate) fn stop(&mut self)
        ensures
            final(self).number() == old(self).number(),
            final(self)@ == Slot::Terminated,
    {
        self.state = WorkerState::Terminated;
    }
}

} // verus!
