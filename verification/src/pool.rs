//! The pool: a fixed set of workers around one channel.

use crate::channel::{JobChannel, Received};
use crate::protocol::{Event, PoolState, Slot};
use crate::theorems::lemma_terminated_pool_is_done;
use crate::worker::{JobFault, Outcome, Worker, WorkerState};
use vstd::prelude::*;

verus! {

/// The errors that the pool reports to its caller.
#[derive(Clone, Copy, Debug, PartialEq, Eq)]
pub enum PoolError {
    /// A pool with no workers was asked for.
    ConstructionError,
    /// A job was submitted after the pool was shut down.
    PoolClosed,
}

/// A pool of a fixed number of workers that share one channel of jobs.
///
/// The pool decides; it does not run anything. The producer calls `execute`
/// and `shutdown`. Each worker thread calls `receive` with its number, blocks
/// and asks again when told to wait, runs the job it is handed outside the
/// pool, reports the end with `finish`, and exits when told that the channel
/// is closed.
pub struct ThreadPool<J> {
    workers: Vec<Worker>,
    channel: JobChannel<J>,
    outcomes: Ghost<Map<nat, Outcome>>,
}

impl<J> View for ThreadPool<J> {
    type V = PoolState<J>;

    closed spec fn view(&self) -> PoolState<J> {
        PoolState {
            slots: Seq::new(self.workers@.len(), |w: int| self.workers@[w]@),
            channel: self.channel@,
            outcomes: self.outcomes@,
        }
    }
}

impl<J> ThreadPool<J> {
    /// Every worker stands at its own number, and the channel is consistent
    /// within.
    pub closed spec fn consistent(&self) -> bool {
        &&& self.channel.consistent()
        &&& forall|w: int| 0 <= w < self.workers@.len() ==> (#[trigger] self.workers@[w]).number() == w
    }

    /// The pool is consistent within, and its state keeps the protocol's
    /// invariant.
    pub open spec fn wf(&self) -> bool {
        self.consistent() && self@.inv()
    }

    /// Makes a pool of `size` waiting workers around an open, empty channel.
    /// A pool of no workers is refused.
    pub fn new(size: usize) -> (result: Result<Self, PoolError>)
        ensures
            match result {
                Ok(pool) => size > 0 && pool.wf() && pool@ == PoolState::<J>::init(size as nat),
                Err(error) => size == 0 && error == PoolError::ConstructionError,
            },
    {
        if size == 0 {
            return Err(PoolError::ConstructionError);
        }
        let mut workers: Vec<Worker> = Vec::with_capacity(size);
        let mut id: usize = 0;
        while id < size
            invariant
                id <= size,
                workers@.len() == id,
                forall|w: int| 0 <= w < id ==> (#[trigger] workers@[w]).number() == w,
                forall|w: int| 0 <= w < id ==> (#[trigger] workers@[w])@ == Slot::Running,
            decreases size - id,
        {
            workers.push(Worker::new(id));
            id += 1;
        }
        let pool = ThreadPool { workers, channel: JobChannel::new(), outcomes: Ghost(Map::empty()) };
        proof {
            assert(pool@.slots =~= PoolState::<J>::init(size as nat).slots);
            PoolState::<J>::lemma_init_inv(size as nat);
        }
        Ok(pool)
    }

    /// Submits `job`: hands it to the channel for whichever worker asks next.
    /// The job is never run here. It is accepted however many jobs wait and
    /// however busy the workers are; only a pool that was shut down refuses.
    pub fn execute(&mut self, job: J) -> (result: Result<(), PoolError>)
        requires
            old(self).wf(),
        ensures
            final(self).wf(),
            final(self)@ == old(self)@.submit(job),
            result == if old(self)@.channel.closed {
                Err::<(), PoolError>(PoolError::PoolClosed)
            } else {
                Ok::<(), PoolError>(())
            },
    {
        proof {
            self@.lemma_step_inv(Event::Submit(job));
        }
        match self.channel.send(job) {
            Ok(()) => Ok(()),
            Err(_) => Err(PoolError::PoolClosed),
        }
    }

    /// Answers worker `id`, which asks for a job. A waiting worker is handed
    /// the oldest waiting job and runs it from now on, or is told to wait, or
    /// is told that the channel is closed and has left from now on. A worker
    /// that has left is told so again. A worker that is running a job, or a
    /// number that names no worker, gets `None`, and nothing changes.
    pub fn receive(&mut self, id: usize) -> (reply: Option<Received<J>>)
        requires
            old(self).wf(),
        ensures
            final(self).wf(),
            reply == old(self)@.reply(id as int),
            final(self)@ == old(self)@.receive(id as int),
    {
        proof {
            self@.lemma_step_inv(Event::Receive(id as int));
        }
        if id >= self.workers.len() {
            return None;
        }
        match self.workers[id].state() {
            WorkerState::Executing => None,
            WorkerState::Terminated => Some(Received::Closed),
            WorkerState::Running => {
                let ghost fresh = self.channel@.taken;
                let received = self.channel.receive();
                match received {
                    Received::Job(_) => {
                        self.workers[id].start(Ghost(fresh));
                    },
                    Received::Closed => {
                        self.workers[id].stop();
                    },
                    Received::Wait => {},
                }
                assert(self@.slots =~= old(self)@.receive(id as int).slots);
                Some(received)
            },
        }
    }

    /// Records that the job of worker `id` ended with `outcome`. The worker
    /// waits for the next job, whatever the outcome was. A fault is handed
    /// back as a report. A worker that is running no job changes nothing and
    /// reports nothing.
    pub fn finish(&mut self, id: usize, outcome: Outcome) -> (report: Option<JobFault>)
        requires
            old(self).wf(),
        ensures
            final(self).wf(),
            report == old(self)@.fault(id as int, outcome),
            final(self)@ == old(self)@.finish(id as int, outcome),
    {
        proof {
            self@.lemma_step_inv(Event::Finish(id as int, outcome));
        }
        if id >= self.workers.len() {
            return None;
        }
        match self.workers[id].state() {
            WorkerState::Executing => {
                let ghost ended = self@.slots[id as int]->job;
                self.workers[id].rest();
                self.outcomes = Ghost(self.outcomes@.insert(ended, outcome));
                assert(self@.slots =~= old(self)@.finish(id as int, outcome).slots);
                match outcome {
                    Outcome::Faulted => Some(JobFault { worker: id }),
                    Outcome::Completed => None,
                }
            },
            _ => None,
        }
    }

    /// Shuts the pool down: closes the channel, so that no further job is
    /// accepted and every worker leaves once no job waits. A second shutdown
    /// changes nothing.
    pub fn shutdown(&mut self)
        requires
            old(self).wf(),
        ensures
            final(self).wf(),
            final(self)@ == old(self)@.shutdown(),
    {
        proof {
            self@.lemma_step_inv(Event::Shutdown);
        }
        self.channel.close();
    }

    /// The number of workers, fixed when the pool was made.
    pub fn size(&self) -> (size: usize)
        ensures
            size == self@.slots.len(),
    {
        self.workers.len()
    }

    /// The number of jobs that wait for a worker.
    pub fn pending(&self) -> (pending: usize)
        requires
            self.wf(),
        ensures
            pending == self@.channel.pending().len(),
    {
        self.channel.len()
    }

    /// Whether the pool has been shut down.
    pub fn is_closed(&self) -> (closed: bool)
        ensures
            closed == self@.channel.closed,
    {
        self.channel.is_closed()
    }

    /// The state of worker `id`, or `None` if the pool has no such worker.
    pub fn worker_state(&self, id: usize) -> (state: Option<WorkerState>)
        ensures
            state == if self@.has_worker(id as int) {
                Some(self@.slots[id as int].state())
            } else {
                None
            },
    {
        if id < self.workers.len() {
            Some(self.workers[id].state())
        } else {
            None
        }
    }

    /// Whether every worker has left, so that waiting for them all is over.
    /// Once they have, every job that the pool ever accepted has ended.
    pub fn is_terminated(&self) -> (terminated: bool)
        requires
            self.wf(),
        ensures
            terminated == self@.all_terminated(),
            terminated ==> self@.all_done() && self@.channel.pending().len() == 0,
    {
        proof {
            if self@.all_terminated() {
                lemma_terminated_pool_is_done(self@);
            }
        }
        let mut id: usize = 0;
        while id < self.workers.len()
            invariant
                id <= self.workers@.len(),
                forall|w: int| 0 <= w < id ==> #[trigger] self@.slots[w] is Terminated,
            decreases self.workers@.len() - id,
        {
            match self.workers[id].state() {
                WorkerState::Terminated => {},
                _ => {
                    assert(!(self@.slots[id as int] is Terminated));
                    return false;
                },
            }
            id += 1;
        }
        true
    }
}

} // verus!
