//! The conduit that carries jobs from the submitter to the workers.

use std::collections::VecDeque;
use vstd::prelude::*;

verus! {

/// The answer a receiver gets from the channel.
#[derive(Debug, PartialEq, Eq)]
pub enum Received<J> {
    /// The oldest waiting job, now owned by the receiver alone.
    Job(J),
    /// Nothing is waiting and the channel is open: block until a job is sent
    /// or the channel is closed, then ask again.
    Wait,
    /// Nothing is waiting and nothing will ever come.
    Closed,
}

/// The error of a send on a closed channel.
#[derive(Clone, Copy, Debug, PartialEq, Eq)]
pub struct Closed;

/// What a channel is, in full: every job ever accepted, how many of them have
/// been handed out, and whether it has been closed.
pub struct ChannelState<J> {
    /// Every accepted job, oldest first. A job's position is its number.
    pub sent: Seq<J>,
    /// Jobs `0..taken` have been handed to a receiver, each exactly once.
    pub taken: nat,
    /// True once the channel has been closed; never false again.
    pub closed: bool,
}

impl<J> ChannelState<J> {
    /// An open channel through which nothing has passed.
    pub open spec fn empty() -> Self {
        ChannelState { sent: Seq::empty(), taken: 0, closed: false }
    }

    /// No job is handed out before it is sent.
    pub open spec fn wf(self) -> bool {
        self.taken <= self.sent.len()
    }

    /// The jobs that still wait for a receiver, oldest first.
    pub open spec fn pending(self) -> Seq<J> {
        self.sent.skip(self.taken as int)
    }

    /// The channel after a send: an open channel takes the job in at the back,
    /// a closed one is left as it is.
    pub open spec fn send(self, job: J) -> Self {
        if self.closed {
            self
        } else {
            ChannelState { sent: self.sent.push(job), ..self }
        }
    }

    /// What the next receiver is told.
    pub open spec fn offer(self) -> Received<J> {
        if self.taken < self.sent.len() {
            Received::Job(self.sent[self.taken as int])
        } else if self.closed {
            Received::Closed
        } else {
            Received::Wait
        }
    }

    /// The channel after a receive: the offered job, if there was one, is gone.
    pub open spec fn take(self) -> Self {
        if self.taken < self.sent.len() {
            ChannelState { taken: self.taken + 1, ..self }
        } else {
            self
        }
    }

    /// The channel after a close.
    pub open spec fn close(self) -> Self {
        ChannelState { closed: true, ..self }
    }
}

/// A first-in, first-out channel of jobs with a terminal closed state.
///
/// Jobs that were accepted before the close are still delivered after it;
/// only when none is left does a receiver learn that the channel is closed.
pub struct JobChannel<J> {
    queue: VecDeque<J>,
    closed: bool,
    sent: Ghost<Seq<J>>,
}

impl<J> View for JobChannel<J> {
    type V = ChannelState<J>;

    closed spec fn view(&self) -> ChannelState<J> {
        ChannelState {
            sent: self.sent@,
            taken: (self.sent@.len() - self.queue@.len()) as nat,
            closed: self.closed,
        }
    }
}

impl<J> JobChannel<J> {
    /// The queue holds exactly the jobs that were sent and not yet taken.
    pub closed spec fn consistent(&self) -> bool {
        &&& self.queue@.len() <= self.sent@.len()
        &&& self.queue@ =~= self.sent@.skip(self.sent@.len() - self.queue@.len())
    }

    /// The channel is consistent within, and its state is well-formed.
    pub open spec fn wf(&self) -> bool {
        self.consistent() && self@.wf()
    }

    /// Makes an open, empty channel.
    pub fn new() -> (channel: Self)
        ensures
            channel.wf(),
            channel@ == ChannelState::<J>::empty(),
    {
        JobChannel { queue: VecDeque::new(), closed: false, sent: Ghost(Seq::empty()) }
    }

    /// Hands `job` to the channel. An open channel accepts it behind every job
    /// that already waits; a closed channel refuses it and stays as it is.
    pub fn send(&mut self, job: J) -> (result: Result<(), Closed>)
        requires
            old(self).wf(),
        ensures
            final(self).wf(),
            final(self)@ == old(self)@.send(job),
            result is Err <==> old(self)@.closed,
    {
        if self.closed {
            return Err(Closed);
        }
        let ghost accepted = job;
        self.queue.push_back(job);
        self.sent = Ghost(self.sent@.push(accepted));
        Ok(())
    }

    /// Claims the oldest waiting job for the caller, or says why there is
    /// none. The claimed job leaves the channel, so no other receiver gets it.
    pub fn receive(&mut self) -> (received: Received<J>)
        requires
            old(self).wf(),
        ensures
            final(self).wf(),
            received == old(self)@.offer(),
            final(self)@ == old(self)@.take(),
    {
        match self.queue.pop_front() {
            Some(job) => Received::Job(job),
            None => if self.closed {
                Received::Closed
            } else {
                Received::Wait
            },
        }
    }

    /// Closes the channel for good. Closing a closed channel changes nothing.
    pub fn close(&mut self)
        requires
            old(self).wf(),
        ensures
            final(self).wf(),
            final(self)@ == old(self)@.close(),
    {
        self.closed = true;
    }

    /// Whether the channel has been closed.
    pub fn is_closed(&self) -> (closed: bool)
        ensures
            closed == self@.closed,
    {
        self.closed
    }

    /// The number of jobs that wait for a receiver.
    pub fn len(&self) -> (len: usize)
        requires
            self.wf(),
        ensures
            len == self@.pending().len(),
    {
        self.queue.len()
    }
}

} // verus!
