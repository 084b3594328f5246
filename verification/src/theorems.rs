//! What the protocol guarantees, proved of every pool that keeps the
//! invariant and of every sequence of events.

use crate::channel::Received;
use crate::protocol::{Event, PoolState, Slot};
use crate::worker::Outcome;
use vstd::prelude::*;

verus! {

/// The invariant holds after any sequence of events, whatever their order.
pub proof fn lemma_run_inv<J>(pool: PoolState<J>, events: Seq<Event<J>>)
    requires
        pool.inv(),
    ensures
        pool.run(events).inv(),
    decreases events.len(),
{
    if events.len() > 0 {
        lemma_run_inv(pool, events.drop_last());
        pool.run(events.drop_last()).lemma_step_inv(events.last());
    }
}

/// Every accepted job is in exactly one place: waiting in the channel, with
/// one single worker, or ended.
pub proof fn lemma_job_in_one_place<J>(pool: PoolState<J>, k: nat)
    requires
        pool.inv(),
        k < pool.channel.sent.len(),
    ensures
        pool.is_pending(k) || pool.is_running(k) || pool.is_finished(k),
        !(pool.is_pending(k) && pool.is_running(k)),
        !(pool.is_pending(k) && pool.is_finished(k)),
        !(pool.is_running(k) && pool.is_finished(k)),
        forall|w1: int, w2: int| pool.holds(w1, k) && pool.holds(w2, k) ==> w1 == w2,
{
    if pool.is_running(k) {
        let w = choose|w: int| pool.holds(w, k);
        assert(pool.holds(w, k));
    }
}

/// A job never goes back: with each event it stays at its stage or moves on
/// to the next one. An outcome, once recorded, stays; and a job that is still
/// running after the event is with the worker that had it before.
pub proof fn lemma_job_moves_forward<J>(pool: PoolState<J>, event: Event<J>, k: nat)
    requires
        pool.inv(),
    ensures
        pool.stage(k).rank() <= pool.step(event).stage(k).rank() <= pool.stage(k).rank() + 1,
        pool.is_finished(k) ==> pool.step(event).outcomes[k] == pool.outcomes[k],
        forall|w: int| pool.holds(w, k) && pool.step(event).is_running(k)
            ==> pool.step(event).holds(w, k),
{
    let next = pool.step(event);
    pool.lemma_step_inv(event);
    if pool.is_running(k) {
        let w = choose|w: int| pool.holds(w, k);
        assert(pool.holds(w, k));
        if !(event is Finish && event->Finish_0 == w) {
            assert(next.holds(w, k));
        }
    }
    if next.is_running(k) {
        let w = choose|w: int| next.holds(w, k);
        assert(next.holds(w, k));
        if !pool.holds(w, k) {
            assert(event is Receive && event->Receive_0 == w && k == pool.channel.taken);
        }
    }
    if pool.is_finished(k) {
        if let Event::Finish(w, _) = event {
            if pool.has_worker(w) && pool.slots[w] is Executing {
                assert(pool.holds(w, pool.slots[w]->job));
            }
        }
        assert(next.is_finished(k));
    }
    if next.is_finished(k) && !pool.is_finished(k) {
        assert(event is Finish);
        let w = event->Finish_0;
        assert(pool.holds(w, k));
    }
}

/// The jobs are handed out in the order of their numbers, each one once: in
/// the course of any events, the handings are those of the jobs from the
/// first that waited at the start up to the last that was taken, in order,
/// and no two handings are of the same job.
pub proof fn lemma_jobs_dispatched_once<J>(pool: PoolState<J>, events: Seq<Event<J>>)
    requires
        pool.inv(),
    ensures
        pool.channel.taken <= pool.run(events).channel.taken,
        pool.dispatched(events).len() == pool.run(events).channel.taken - pool.channel.taken,
        forall|i: int|
            0 <= i < pool.dispatched(events).len() ==> (#[trigger] pool.dispatched(
                events,
            )[i]).job == pool.channel.taken + i,
        forall|i: int, j: int|
            0 <= i < j < pool.dispatched(events).len() ==> (#[trigger] pool.dispatched(
                events,
            )[i]).job != (#[trigger] pool.dispatched(events)[j]).job,
    decreases events.len(),
{
    if events.len() > 0 {
        lemma_jobs_dispatched_once(pool, events.drop_last());
    }
}

/// A worker that is running a job is handed no other: its request gets no
/// answer and changes nothing.
pub proof fn lemma_busy_worker_gets_no_job<J>(pool: PoolState<J>, w: int, k: nat)
    requires
        pool.holds(w, k),
    ensures
        pool.reply(w) is None,
        pool.receive(w) == pool,
{
}

/// A worker keeps its job until it reports the job's end: through any events
/// among which that worker reports nothing, it is still running the same job.
/// Together with the law before, no two jobs are ever on one worker at once.
pub proof fn lemma_worker_keeps_job<J>(pool: PoolState<J>, events: Seq<Event<J>>, w: int, k: nat)
    requires
        pool.holds(w, k),
        forall|i: int| 0 <= i < events.len() ==> !(#[trigger] events[i] matches Event::Finish(v, _)
            && v == w),
    ensures
        pool.run(events).holds(w, k),
    decreases events.len(),
{
    if events.len() > 0 {
        let earlier = events.drop_last();
        assert forall|i: int| 0 <= i < earlier.len() implies !(#[trigger] earlier[i]
            matches Event::Finish(v, _) && v == w) by {
            assert(earlier[i] == events[i]);
        }
        lemma_worker_keeps_job(pool, earlier, w, k);
        assert(events.last() == events[events.len() - 1]);
    }
}

/// A submission only ever puts the job into the channel. It touches no
/// worker, hands out nothing and ends nothing, so the job is not run by the
/// one who submits it. An open pool takes the job in behind all that wait,
/// however many they are and whether or not a worker is free.
pub proof fn lemma_submit_only_enqueues<J>(pool: PoolState<J>, job: J)
    ensures
        pool.submit(job).slots == pool.slots,
        pool.submit(job).outcomes == pool.outcomes,
        pool.submit(job).channel.taken == pool.channel.taken,
        pool.submit(job).channel.closed == pool.channel.closed,
        pool.channel.closed ==> pool.submit(job) == pool,
        !pool.channel.closed && pool.channel.wf() ==> pool.submit(job).channel.pending()
            == pool.channel.pending().push(job),
{
}

/// Once every worker has left, every job that was ever accepted has ended,
/// and none waits.
pub proof fn lemma_terminated_pool_is_done<J>(pool: PoolState<J>)
    requires
        pool.inv(),
        pool.all_terminated(),
    ensures
        pool.all_done(),
        pool.channel.pending().len() == 0,
        pool.channel.closed,
{
    assert(pool.slots[0] is Terminated);
    assert forall|k: nat| k < pool.channel.sent.len() implies pool.is_finished(k) by {
        if pool.is_running(k) {
            let w = choose|w: int| pool.holds(w, k);
            assert(pool.slots[w] is Terminated);
        }
    }
}

/// A shutdown loses no job: the jobs that waited still wait, in their order,
/// and the next worker that asks is still handed the oldest of them.
pub proof fn lemma_shutdown_keeps_jobs<J>(pool: PoolState<J>)
    ensures
        pool.shutdown().channel.pending() == pool.channel.pending(),
        pool.shutdown().slots == pool.slots,
        pool.shutdown().outcomes == pool.outcomes,
        pool.channel.offer() is Job ==> pool.shutdown().channel.offer() == pool.channel.offer(),
        pool.shutdown().shutdown() == pool.shutdown(),
{
}

/// A shutdown is for good: whatever happens after it, the pool stays closed,
/// and a submission is refused and changes nothing.
pub proof fn lemma_shutdown_is_final<J>(pool: PoolState<J>, events: Seq<Event<J>>, job: J)
    ensures
        pool.shutdown().run(events).channel.closed,
        pool.shutdown().run(events).channel.sent == pool.channel.sent,
        pool.shutdown().run(events).submit(job) == pool.shutdown().run(events),
    decreases events.len(),
{
    if events.len() > 0 {
        lemma_shutdown_is_final(pool, events.drop_last(), job);
    }
}

/// A fault costs the pool nothing. The worker whose job raised it waits for
/// the next job exactly as after a job that completed; the same workers are
/// alive as before; the channel is untouched. If the pool is open, a job
/// submitted next is accepted, and the worker is handed a job when it asks.
pub proof fn lemma_fault_keeps_worker<J>(pool: PoolState<J>, w: int, job: J)
    requires
        pool.inv(),
        pool.has_worker(w),
        pool.slots[w] is Executing,
    ensures
        pool.finish(w, Outcome::Faulted).slots[w] == Slot::Running,
        pool.finish(w, Outcome::Faulted).slots == pool.finish(w, Outcome::Completed).slots,
        pool.finish(w, Outcome::Faulted).channel == pool.channel,
        forall|v: int| pool.finish(w, Outcome::Faulted).is_live(v) == pool.is_live(v),
        !pool.channel.closed ==> pool.finish(w, Outcome::Faulted).submit(job).reply(w) matches Some(
            Received::Job(_),
        ),
{
}

/// From a fresh pool of any size, through any events: the invariant holds;
/// the handings are exactly those of the jobs taken so far, the job with the
/// number `k` at the `k`-th handing and at no other; and once every worker
/// has left, every accepted job has been handed out and has ended.
pub proof fn lemma_every_job_runs_once<J>(size: nat, events: Seq<Event<J>>)
    requires
        size > 0,
    ensures
        PoolState::<J>::init(size).run(events).inv(),
        PoolState::<J>::init(size).dispatched(events).len() == PoolState::<J>::init(size).run(
            events,
        ).channel.taken,
        forall|k: int|
            0 <= k < PoolState::<J>::init(size).dispatched(events).len() ==> (
            #[trigger] PoolState::<J>::init(size).dispatched(events)[k]).job == k,
        PoolState::<J>::init(size).run(events).all_terminated() ==> {
            &&& PoolState::<J>::init(size).run(events).channel.taken == PoolState::<J>::init(
                size,
            ).run(events).channel.sent.len()
            &&& PoolState::<J>::init(size).run(events).all_done()
        },
{
    let fresh = PoolState::<J>::init(size);
    PoolState::<J>::lemma_init_inv(size);
    lemma_run_inv(fresh, events);
    lemma_jobs_dispatched_once(fresh, events);
    if fresh.run(events).all_terminated() {
        lemma_terminated_pool_is_done(fresh.run(events));
    }
}

/// Whether only workers act in `events`: nothing is submitted and the pool is
/// not shut down.
pub open spec fn only_workers_act<J>(events: Seq<Event<J>>) -> bool {
    forall|i: int| 0 <= i < events.len() ==> (#[trigger] events[i]) is Receive || events[i] is Finish
}

/// Events may be taken in two parts.
pub proof fn lemma_run_concat<J>(pool: PoolState<J>, first: Seq<Event<J>>, then: Seq<Event<J>>)
    ensures
        pool.run(first + then) == pool.run(first).run(then),
    decreases then.len(),
{
    if then.len() == 0 {
        assert(first + then =~= first);
    } else {
        assert((first + then).drop_last() =~= first + then.drop_last());
        lemma_run_concat(pool, first, then.drop_last());
    }
}

/// The workers below `upto` that run a job can each report its end.
proof fn lemma_running_jobs_can_end<J>(pool: PoolState<J>, upto: nat) -> (events: Seq<Event<J>>)
    requires
        pool.inv(),
        upto <= pool.slots.len(),
    ensures
        only_workers_act(events),
        pool.run(events).inv(),
        pool.run(events).channel == pool.channel,
        pool.run(events).slots.len() == pool.slots.len(),
        forall|w: int| 0 <= w < upto ==> !(#[trigger] pool.run(events).slots[w] is Executing),
        forall|w: int| upto <= w < pool.slots.len() ==> #[trigger] pool.run(events).slots[w] == pool.slots[w],
    decreases upto,
{
    if upto == 0 {
        Seq::empty()
    } else {
        let w = (upto - 1) as int;
        let earlier = lemma_running_jobs_can_end(pool, (upto - 1) as nat);
        let before = pool.run(earlier);
        if before.slots[w] is Executing {
            let events = earlier.push(Event::Finish(w, Outcome::Completed));
            assert(events.drop_last() =~= earlier);
            before.lemma_step_inv(events.last());
            events
        } else {
            earlier
        }
    }
}

/// While no worker runs a job, the first worker can take the waiting jobs
/// one after the other and end each.
proof fn lemma_waiting_jobs_can_end<J>(pool: PoolState<J>) -> (events: Seq<Event<J>>)
    requires
        pool.inv(),
        pool.none_executing(),
    ensures
        only_workers_act(events),
        pool.run(events).inv(),
        pool.run(events).none_executing(),
        pool.run(events).channel.sent == pool.channel.sent,
        pool.run(events).channel.closed == pool.channel.closed,
        pool.run(events).channel.taken == pool.channel.sent.len(),
    decreases pool.channel.sent.len() - pool.channel.taken,
{
    if pool.channel.taken == pool.channel.sent.len() {
        Seq::empty()
    } else {
        let first = seq![Event::Receive(0), Event::Finish(0, Outcome::Completed)];
        assert(pool.slots[0] is Running);
        let taken = pool.receive(0);
        let ended = taken.finish(0, Outcome::Completed);
        pool.lemma_step_inv(first[0]);
        taken.lemma_step_inv(first[1]);
        assert(pool.run(first) == ended) by {
            assert(first.drop_last() =~= seq![first[0]]);
            assert(first.drop_last().drop_last() =~= Seq::<Event<J>>::empty());
            assert(pool.run(first.drop_last().drop_last()) == pool);
            assert(pool.run(first.drop_last()) == taken);
        }
        let rest = lemma_waiting_jobs_can_end(ended);
        lemma_run_concat(pool, first, rest);
        first + rest
    }
}

/// In a closed pool in which no job waits or runs, the workers below `upto`
/// can each ask once more, and leave.
proof fn lemma_idle_workers_can_leave<J>(pool: PoolState<J>, upto: nat) -> (events: Seq<Event<J>>)
    requires
        pool.inv(),
        pool.none_executing(),
        pool.channel.closed,
        pool.channel.taken == pool.channel.sent.len(),
        upto <= pool.slots.len(),
    ensures
        only_workers_act(events),
        pool.run(events).inv(),
        pool.run(events).channel == pool.channel,
        pool.run(events).slots.len() == pool.slots.len(),
        pool.run(events).none_executing(),
        forall|w: int| 0 <= w < upto ==> #[trigger] pool.run(events).slots[w] is Terminated,
    decreases upto,
{
    if upto == 0 {
        Seq::empty()
    } else {
        let w = (upto - 1) as int;
        let earlier = lemma_idle_workers_can_leave(pool, (upto - 1) as nat);
        let before = pool.run(earlier);
        let events = earlier.push(Event::Receive(w));
        assert(events.drop_last() =~= earlier);
        before.lemma_step_inv(events.last());
        assert(!(before.slots[w] is Executing));
        events
    }
}

/// The pool is never stuck. From any state the workers alone can bring every
/// accepted job to its end: the returned events, in which nothing is
/// submitted, do so. If the pool is shut down, they also lead every worker to
/// leave, so that waiting for all workers comes to an end.
pub proof fn lemma_jobs_can_all_end<J>(pool: PoolState<J>) -> (events: Seq<Event<J>>)
    requires
        pool.inv(),
    ensures
        only_workers_act(events),
        pool.run(events).channel.sent == pool.channel.sent,
        pool.run(events).all_done(),
        pool.channel.closed ==> pool.run(events).all_terminated(),
{
    let first = lemma_running_jobs_can_end(pool, pool.slots.len());
    let idle = pool.run(first);
    assert(idle.none_executing());
    let second = lemma_waiting_jobs_can_end(idle);
    let drained = idle.run(second);
    lemma_run_concat(pool, first, second);
    assert forall|k: nat| k < drained.channel.sent.len() implies drained.is_finished(k) by {
        if drained.is_running(k) {
            let w = choose|w: int| drained.holds(w, k);
            assert(drained.slots[w] is Executing);
        }
    }
    if pool.channel.closed {
        let third = lemma_idle_workers_can_leave(drained, drained.slots.len());
        let left = drained.run(third);
        lemma_run_concat(pool, first + second, third);
        lemma_run_inv(pool, first + second + third);
        lemma_terminated_pool_is_done(left);
        first + second + third
    } else {
        first + second
    }
}

} // verus!
