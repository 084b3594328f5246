//! The dispatch protocol as a state machine: what a pool is, what each event
//! does to it, and the invariant that every reachable pool keeps.

use crate::channel::{ChannelState, Received};
use crate::worker::{JobFault, Outcome, WorkerState};
use vstd::prelude::*;

verus! {

/// A worker as the protocol sees it.
pub enum Slot {
    /// Waiting for a job.
    Running,
    /// Running the job with the number `job`.
    Executing { job: nat },
    /// Gone for good.
    Terminated,
}

impl Slot {
    /// The state that the worker shows to the outside.
    pub open spec fn state(self) -> WorkerState {
        match self {
            Slot::Running => WorkerState::Running,
            Slot::Executing { .. } => WorkerState::Executing,
            Slot::Terminated => WorkerState::Terminated,
        }
    }
}

/// Where a job stands in its life. A job only ever moves down this list.
pub enum Stage {
    /// Not submitted, or refused.
    Absent,
    /// Accepted, and waiting in the channel.
    Waiting,
    /// With a worker that is running it.
    Running,
    /// Ended, with an outcome.
    Ended,
}

impl Stage {
    /// The stage's place in the order of a job's life.
    pub open spec fn rank(self) -> nat {
        match self {
            Stage::Absent => 0,
            Stage::Waiting => 1,
            Stage::Running => 2,
            Stage::Ended => 3,
        }
    }
}

/// One handing of a job to a worker.
pub struct Dispatch {
    /// The worker that asked.
    pub worker: int,
    /// The number of the job that it was handed.
    pub job: nat,
}

/// Something that happens to a pool.
pub enum Event<J> {
    /// The producer submits a job.
    Submit(J),
    /// The worker with this number asks for a job.
    Receive(int),
    /// The worker with this number reports how its job ended.
    Finish(int, Outcome),
    /// The producer shuts the pool down.
    Shutdown,
}

/// A pool in full: its workers, its channel, and the outcome of every job
/// that has ended. Jobs are known by their number, the position at which the
/// channel accepted them.
pub struct PoolState<J> {
    /// The workers by number.
    pub slots: Seq<Slot>,
    /// The channel that all workers share.
    pub channel: ChannelState<J>,
    /// The jobs that have ended, each with its outcome.
    pub outcomes: Map<nat, Outcome>,
}

impl<J> PoolState<J> {
    /// A fresh pool of `size` waiting workers.
    pub open spec fn init(size: nat) -> Self {
        PoolState {
            slots: Seq::new(size, |w: int| Slot::Running),
            channel: ChannelState::empty(),
            outcomes: Map::empty(),
        }
    }

    /// Whether the pool has a worker with the number `w`.
    pub open spec fn has_worker(self, w: int) -> bool {
        0 <= w < self.slots.len()
    }

    /// Whether worker `w` is running job `k`.
    pub open spec fn holds(self, w: int, k: nat) -> bool {
        self.has_worker(w) && self.slots[w] == (Slot::Executing { job: k })
    }

    /// Whether job `k` has been accepted and waits in the channel.
    pub open spec fn is_pending(self, k: nat) -> bool {
        self.channel.taken <= k < self.channel.sent.len()
    }

    /// Whether some worker is running job `k`.
    pub open spec fn is_running(self, k: nat) -> bool {
        exists|w: int| self.holds(w, k)
    }

    /// Whether job `k` has ended.
    pub open spec fn is_finished(self, k: nat) -> bool {
        self.outcomes.dom().contains(k)
    }

    /// The stage of job `k`.
    pub open spec fn stage(self, k: nat) -> Stage {
        if self.is_finished(k) {
            Stage::Ended
        } else if self.is_running(k) {
            Stage::Running
        } else if self.is_pending(k) {
            Stage::Waiting
        } else {
            Stage::Absent
        }
    }

    /// Whether worker `w` has not left.
    pub open spec fn is_live(self, w: int) -> bool {
        self.has_worker(w) && !(self.slots[w] is Terminated)
    }

    /// Whether every accepted job has ended.
    pub open spec fn all_done(self) -> bool {
        forall|k: nat| k < self.channel.sent.len() ==> self.is_finished(k)
    }

    /// Whether no worker is running a job.
    pub open spec fn none_executing(self) -> bool {
        forall|w: int| self.has_worker(w) ==> !(#[trigger] self.slots[w] is Executing)
    }

    /// Whether every worker has left.
    pub open spec fn all_terminated(self) -> bool {
        forall|w: int| self.has_worker(w) ==> #[trigger] self.slots[w] is Terminated
    }

    /// The pool after the producer submits `job`: the channel takes it in, or
    /// refuses it if the pool is shut down. No worker is touched.
    pub open spec fn submit(self, job: J) -> Self {
        PoolState { channel: self.channel.send(job), ..self }
    }

    /// What worker `w` is told when it asks for a job. A waiting worker gets
    /// the channel's offer. A worker that has left is told again that the
    /// channel is closed. A worker that is running a job, or a number that
    /// names no worker, gets no answer.
    pub open spec fn reply(self, w: int) -> Option<Received<J>> {
        if !self.has_worker(w) {
            None
        } else {
            match self.slots[w] {
                Slot::Running => Some(self.channel.offer()),
                Slot::Executing { .. } => None,
                Slot::Terminated => Some(Received::Closed),
            }
        }
    }

    /// The pool after worker `w` asks for a job. A waiting worker that is
    /// offered a job takes it out of the channel and runs it; one that finds
    /// the channel closed leaves. Nothing else changes anything.
    pub open spec fn receive(self, w: int) -> Self {
        if self.has_worker(w) && self.slots[w] is Running {
            match self.channel.offer() {
                Received::Job(_) => PoolState {
                    slots: self.slots.update(w, Slot::Executing { job: self.channel.taken }),
                    channel: self.channel.take(),
                    ..self
                },
                Received::Closed => PoolState {
                    slots: self.slots.update(w, Slot::Terminated),
                    ..self
                },
                Received::Wait => self,
            }
        } else {
            self
        }
    }

    /// The pool after worker `w` reports that its job ended with `outcome`:
    /// the outcome is recorded and the worker waits again, whatever the
    /// outcome was. A worker that runs no job changes nothing.
    pub open spec fn finish(self, w: int, outcome: Outcome) -> Self {
        if self.has_worker(w) && self.slots[w] is Executing {
            PoolState {
                slots: self.slots.update(w, Slot::Running),
                outcomes: self.outcomes.insert(self.slots[w]->job, outcome),
                ..self
            }
        } else {
            self
        }
    }

    /// The report that goes with `finish`: a fault of a job that worker `w`
    /// was running is reported, and nothing else is.
    pub open spec fn fault(self, w: int, outcome: Outcome) -> Option<JobFault> {
        if self.has_worker(w) && self.slots[w] is Executing && outcome is Faulted {
            Some(JobFault { worker: w as usize })
        } else {
            None
        }
    }

    /// The pool after a shutdown: the channel is closed.
    pub open spec fn shutdown(self) -> Self {
        PoolState { channel: self.channel.close(), ..self }
    }

    /// The pool after one event.
    pub open spec fn step(self, event: Event<J>) -> Self {
        match event {
            Event::Submit(job) => self.submit(job),
            Event::Receive(w) => self.receive(w),
            Event::Finish(w, outcome) => self.finish(w, outcome),
            Event::Shutdown => self.shutdown(),
        }
    }

    /// The pool after a sequence of events, taken in order.
    pub open spec fn run(self, events: Seq<Event<J>>) -> Self
        decreases events.len(),
    {
        if events.len() == 0 {
            self
        } else {
            self.run(events.drop_last()).step(events.last())
        }
    }

    /// The jobs handed out in the course of `events`, in the order in which
    /// they were handed out.
    pub open spec fn dispatched(self, events: Seq<Event<J>>) -> Seq<Dispatch>
        decreases events.len(),
    {
        if events.len() == 0 {
            Seq::empty()
        } else {
            let before = self.run(events.drop_last());
            let earlier = self.dispatched(events.drop_last());
            match events.last() {
                Event::Receive(w) => if before.reply(w) matches Some(Received::Job(_)) {
                    earlier.push(Dispatch { worker: w, job: before.channel.taken })
                } else {
                    earlier
                },
                _ => earlier,
            }
        }
    }

    /// What holds of every pool that was made by `init` with at least one
    /// worker and then went through any events.
    pub open spec fn inv(self) -> bool {
        &&& self.slots.len() > 0
        &&& self.channel.wf()
        // Only jobs that were handed out have ended.
        &&& forall|k: nat| #[trigger] self.is_finished(k) ==> k < self.channel.taken
        // A job that a worker is running was handed out and has not ended.
        &&& forall|w: int, k: nat| #[trigger]
            self.holds(w, k) ==> k < self.channel.taken && !self.is_finished(k)
        // No job is with two workers.
        &&& forall|w1: int, w2: int, k: nat| #[trigger]
            self.holds(w1, k) && #[trigger] self.holds(w2, k) ==> w1 == w2
        // A job that was handed out is with a worker or has ended.
        &&& forall|k: nat|
            k < self.channel.taken ==> #[trigger] self.is_finished(k) || self.is_running(k)
        // A worker leaves only when the channel is closed and empty.
        &&& forall|w: int|
            self.has_worker(w) && #[trigger] self.slots[w] is Terminated ==> self.channel.closed
                && self.channel.taken == self.channel.sent.len()
    }

    /// A fresh pool with at least one worker keeps the invariant.
    pub proof fn lemma_init_inv(size: nat)
        requires
            size > 0,
        ensures
            Self::init(size).inv(),
    {
    }

    /// No event breaks the invariant.
    pub proof fn lemma_step_inv(self, event: Event<J>)
        requires
            self.inv(),
        ensures
            self.step(event).inv(),
    {
        let next = self.step(event);
        match event {
            Event::Submit(job) => {
                assert forall|k: nat| #[trigger] next.is_finished(k) == self.is_finished(k) by {}
                assert forall|w: int, k: nat| #[trigger] next.holds(w, k) implies self.holds(w, k) by {}
                assert forall|k: nat| self.is_running(k) implies next.is_running(k) by {
                    let w = choose|w: int| self.holds(w, k);
                    assert(next.holds(w, k));
                }
            },
            Event::Receive(w0) => {
                if self.has_worker(w0) && self.slots[w0] is Running {
                    let fresh = self.channel.taken;
                    assert forall|k: nat| #[trigger]
                        next.is_finished(k) == self.is_finished(k) by {}
                    assert forall|w: int, k: nat| #[trigger] next.holds(w, k) implies self.holds(w, k)
                        || (w == w0 && k == fresh && next.channel.taken == fresh + 1) by {}
                    assert forall|k: nat| self.is_running(k) implies next.is_running(k) by {
                        let w = choose|w: int| self.holds(w, k);
                        assert(next.holds(w, k));
                    }
                    if self.channel.offer() is Job {
                        assert(next.holds(w0, fresh));
                    }
                }
            },
            Event::Finish(w0, outcome) => {
                if self.has_worker(w0) && self.slots[w0] is Executing {
                    let ended = self.slots[w0]->job;
                    assert(self.holds(w0, ended));
                    assert forall|k: nat| #[trigger]
                        next.is_finished(k) == (self.is_finished(k) || k == ended) by {}
                    assert forall|w: int, k: nat| #[trigger] next.holds(w, k) implies self.holds(w, k)
                        && w != w0 && k != ended by {}
                    assert forall|k: nat| k != ended && self.is_running(k) implies next.is_running(
                        k,
                    ) by {
                        let w = choose|w: int| self.holds(w, k);
                        assert(next.holds(w, k));
                    }
                }
            },
            Event::Shutdown => {
                assert forall|k: nat| #[trigger] next.is_finished(k) == self.is_finished(k) by {}
                assert forall|w: int, k: nat| #[trigger] next.holds(w, k) implies self.holds(w, k) by {}
                assert forall|k: nat| self.is_running(k) implies next.is_running(k) by {
                    let w = choose|w: int| self.holds(w, k);
                    assert(next.holds(w, k));
                }
            },
        }
    }
}

} // verus!
