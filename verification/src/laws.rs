//! What follows from the pool's invariant and from what its operations do.
//!
//! Each statement here is about [`PoolView`], the value that the contracts of
//! [`crate::pool::WorkerPool`] speak of. A pool that came from `new` and was
//! changed by its operations alone meets `inv()` at every moment, so each
//! statement holds of it.
use vstd::prelude::*;
use vstd::set_lib::{lemma_int_range, set_int_range};
use crate::model::{live_count, JobOutcome, PoolState, PoolView, Step, WorkerState, WorkerView};
use crate::model::{
    lemma_fresh_inv,
    lemma_job_done_inv,
    lemma_join_worker_inv,
    lemma_next_step_inv,
    lemma_shutdown_inv,
    lemma_submit_inv,
};

verus! {

/// The place of a phase in the order of a pool's life.
pub open spec fn phase_rank(phase: PoolState) -> int {
    match phase {
        PoolState::Constructing => 0,
        PoolState::Running => 1,
        PoolState::ShuttingDown => 2,
        PoolState::Terminated => 3,
    }
}

/// Right after construction every worker is in its loop: a pool made with
/// `size` workers has exactly `size` live workers, none of them joined, and
/// nothing in its queue.
pub proof fn lemma_new_pool_has_all_workers_live<J>(size: nat)
    requires
        size >= 1,
    ensures
        PoolView::<J>::fresh(size).workers.len() == size,
        forall|i: int| 0 <= i < size ==> PoolView::<J>::fresh(size).is_idle(i),
        forall|i: int| 0 <= i < size ==> !PoolView::<J>::fresh(size).workers[i].joined,
        PoolView::<J>::fresh(size).live_workers() == size,
        PoolView::<J>::fresh(size).phase == PoolState::Running,
        PoolView::<J>::fresh(size).queue.pending.len() == 0,
        PoolView::<J>::fresh(size).submitted.len() == 0,
{
    lemma_fresh_live_prefix::<J>(size, size as int);
}

proof fn lemma_fresh_live_prefix<J>(size: nat, n: int)
    requires
        0 <= n <= size,
    ensures
        live_count(PoolView::<J>::fresh(size).workers, n) == n,
    decreases n,
{
    if n > 0 {
        lemma_fresh_live_prefix::<J>(size, n - 1);
    }
}

/// Jobs go to workers in the order in which they were accepted: an idle
/// worker that asks while jobs wait is given the oldest accepted job that no
/// worker has had, and from then on holds that job's ticket.
pub proof fn lemma_next_step_takes_oldest<J>(pool: PoolView<J>, worker: int)
    requires
        pool.inv(),
        pool.is_idle(worker),
        pool.queue.pending.len() > 0,
    ensures
        0 <= pool.delivered() < pool.submitted.len(),
        pool.step_for(worker) == Some(Step::Run(pool.submitted[pool.delivered()])),
        pool.next_step(worker).holds(worker, pool.delivered()),
        pool.next_step(worker).delivered() == pool.delivered() + 1,
{
}

/// No job overtakes an older one: once the job with ticket `later` has gone
/// to a worker, so has every job that was accepted before it.
pub proof fn lemma_dispatch_in_submission_order<J>(pool: PoolView<J>, earlier: int, later: int)
    requires
        pool.inv(),
        0 <= earlier <= later,
        pool.dispatched(later),
    ensures
        pool.dispatched(earlier),
{
    if pool.completed.contains(later) {
        let k = choose|k: int| 0 <= k < pool.completed.len() && pool.completed[k] == later;
        assert(pool.completed[k] < pool.delivered());
    } else {
        let w = choose|w: int| pool.holds(w, later);
        assert(pool.workers[w].holding());
    }
    assert(later < pool.delivered());
}

/// A job that was dispatched was accepted before: its ticket is that of a
/// submitted job, and no job still in the queue has it.
pub proof fn lemma_dispatched_was_submitted<J>(pool: PoolView<J>, ticket: int)
    requires
        pool.inv(),
        pool.dispatched(ticket),
    ensures
        0 <= ticket < pool.delivered() <= pool.submitted.len(),
{
    if pool.completed.contains(ticket) {
        let k = choose|k: int| 0 <= k < pool.completed.len() && pool.completed[k] == ticket;
        assert(0 <= pool.completed[k] < pool.delivered());
    } else {
        let w = choose|w: int| pool.holds(w, ticket);
        assert(pool.workers[w].holding());
    }
}

/// After shutdown every job has run exactly once: in a terminated pool in
/// which no job failed, the record of completed jobs holds the ticket of each
/// accepted job, holds none twice, and holds nothing else.
pub proof fn lemma_every_job_ran_once<J>(pool: PoolView<J>)
    requires
        pool.inv(),
        pool.phase == PoolState::Terminated,
        pool.no_fault(),
    ensures
        pool.queue.pending.len() == 0,
        pool.completed.len() == pool.submitted.len(),
        pool.completed.no_duplicates(),
        forall|t: int| 0 <= t < pool.submitted.len() <==> pool.completed.contains(t),
{
    let n = pool.submitted.len() as int;
    assert forall|i: int| 0 <= i < pool.workers.len() implies (#[trigger] pool.workers[i]).state
        == WorkerState::Exited by {
        assert(pool.workers[i].joined);
    }
    assert(pool.workers[0].state == WorkerState::Exited);
    assert(pool.delivered() == n);
    assert forall|t: int| 0 <= t < n implies pool.completed.contains(t) by {
        assert(pool.dispatched(t));
        if exists|w: int| pool.holds(w, t) {
            let w = choose|w: int| pool.holds(w, t);
            assert(pool.workers[w].state == WorkerState::Exited);
        }
    }
    assert forall|t: int| pool.completed.contains(t) implies 0 <= t < n by {
        let k = choose|k: int| 0 <= k < pool.completed.len() && pool.completed[k] == t;
        assert(0 <= pool.completed[k] < pool.delivered());
    }
    assert(pool.completed.to_set() =~= set_int_range(0, n));
    pool.completed.unique_seq_to_set();
    lemma_int_range(0, n);
}

/// A slow job holds up no other worker: while `slow` runs its job, an idle
/// worker `fast` is given the oldest waiting job at once, and that job can
/// run to its end while the slow one still runs.
pub proof fn lemma_busy_worker_delays_no_other<J>(pool: PoolView<J>, slow: int, fast: int)
    requires
        pool.inv(),
        pool.is_busy(slow),
        pool.is_idle(fast),
        pool.queue.pending.len() > 0,
    ensures
        pool.step_for(fast) == Some(Step::Run(pool.queue.pending[0])),
        pool.next_step(fast).is_busy(fast),
        pool.next_step(fast).is_busy(slow),
        ({
            let done = pool.next_step(fast).job_done(fast, JobOutcome::Completed);
            &&& done.completed == pool.completed.push(pool.delivered())
            &&& done.is_idle(fast)
            &&& done.is_busy(slow)
            &&& !done.completed.contains(pool.workers[slow].ticket)
        }),
{
    broadcast use vstd::seq_lib::lemma_seq_contains_after_push;

    assert(pool.workers[slow].holding());
}

/// Shutdown does not end before the jobs in flight do: a worker that runs a
/// job cannot be joined, and a pool with such a worker is not terminated.
pub proof fn lemma_busy_worker_keeps_pool_alive<J>(pool: PoolView<J>, worker: int)
    requires
        pool.inv(),
        pool.is_busy(worker),
    ensures
        pool.phase != PoolState::Terminated,
        !pool.can_join(worker),
        pool.join_worker(worker) == pool,
        pool.shutdown().is_busy(worker),
        pool.shutdown().phase != PoolState::Terminated,
{
    assert(!pool.workers[worker].joined);
}

/// In a terminated pool nothing runs and nothing waits to be joined: every
/// worker has left its loop, and every job that went to a worker has either
/// run to its end or failed.
pub proof fn lemma_terminated_pool_is_quiet<J>(pool: PoolView<J>)
    requires
        pool.inv(),
        pool.phase == PoolState::Terminated,
    ensures
        pool.queue.closed,
        forall|i: int| 0 <= i < pool.workers.len() ==> !(#[trigger] pool.workers[i]).live(),
        forall|i: int| 0 <= i < pool.workers.len() ==> (#[trigger] pool.workers[i]).joined,
        pool.live_workers() == 0,
        forall|t: int|
            0 <= t < pool.delivered() ==> pool.completed.contains(t) || exists|w: int|
                #[trigger] pool.holds(w, t) && pool.workers[w].state == WorkerState::Faulted,
{
    assert forall|i: int| 0 <= i < pool.workers.len() implies !(#[trigger] pool.workers[i]).live() by {
        assert(pool.workers[i].joined);
    }
    lemma_none_live(pool, pool.workers.len() as int);
    assert forall|t: int| 0 <= t < pool.delivered() implies pool.completed.contains(t)
        || exists|w: int|
        #[trigger] pool.holds(w, t) && pool.workers[w].state == WorkerState::Faulted by {
        assert(pool.dispatched(t));
        if !pool.completed.contains(t) {
            let w = choose|w: int| pool.holds(w, t);
            assert(!pool.workers[w].live());
            assert(pool.holds(w, t) && pool.workers[w].state == WorkerState::Faulted);
        }
    }
}

proof fn lemma_none_live<J>(pool: PoolView<J>, n: int)
    requires
        0 <= n <= pool.workers.len(),
        forall|i: int| 0 <= i < pool.workers.len() ==> !(#[trigger] pool.workers[i]).live(),
    ensures
        live_count(pool.workers, n) == 0,
    decreases n,
{
    if n > 0 {
        lemma_none_live(pool, n - 1);
    }
}

/// Once shutdown has begun the pool accepts nothing: `submit` leaves a pool
/// that is not running as it is, whatever the job. This holds in particular
/// of any pool right after `shutdown`.
pub proof fn lemma_no_submit_after_shutdown<J>(pool: PoolView<J>, job: J)
    requires
        pool.inv(),
    ensures
        pool.phase != PoolState::Running ==> pool.submit(job) == pool,
        pool.shutdown().phase != PoolState::Running,
        pool.shutdown().submit(job) == pool.shutdown(),
{
}

/// While the pool runs, `submit` accepts: the job becomes the newest of the
/// waiting jobs and gets the next ticket.
pub proof fn lemma_running_pool_accepts<J>(pool: PoolView<J>, job: J)
    requires
        pool.inv(),
        pool.phase == PoolState::Running,
    ensures
        pool.submit(job).submitted == pool.submitted.push(job),
        pool.submit(job).queue.pending == pool.queue.pending.push(job),
        pool.submit(job).submitted[pool.submitted.len() as int] == job,
        pool.submit(job).delivered() == pool.delivered(),
{
}

/// Shutdown drops no job: the jobs that wait when shutdown begins stay in
/// the queue, and workers are still given them, oldest first.
pub proof fn lemma_shutdown_keeps_pending_jobs<J>(pool: PoolView<J>, worker: int)
    requires
        pool.inv(),
        pool.is_idle(worker),
        pool.queue.pending.len() > 0,
    ensures
        pool.shutdown().queue.pending == pool.queue.pending,
        pool.shutdown().step_for(worker) == Some(Step::Run(pool.queue.pending[0])),
{
}

/// `shutdown` can be asked for any number of times: the second changes nothing.
pub proof fn lemma_shutdown_is_idempotent<J>(pool: PoolView<J>)
    requires
        pool.inv(),
    ensures
        pool.shutdown().shutdown() == pool.shutdown(),
{
}

/// A pool's life goes one way: no operation takes a pool back to an earlier
/// phase, and none but `shutdown` and `join_worker` changes the phase at all.
pub proof fn lemma_phase_never_goes_back<J>(
    pool: PoolView<J>,
    job: J,
    worker: int,
    outcome: JobOutcome,
)
    requires
        pool.inv(),
    ensures
        pool.submit(job).phase == pool.phase,
        pool.next_step(worker).phase == pool.phase,
        pool.job_done(worker, outcome).phase == pool.phase,
        phase_rank(pool.phase) <= phase_rank(pool.shutdown().phase),
        phase_rank(pool.phase) <= phase_rank(pool.join_worker(worker).phase),
{
    if pool.can_join(worker) && pool.phase == PoolState::Terminated {
        let workers = pool.workers.update(
            worker,
            WorkerView { joined: true, ..pool.workers[worker] },
        );
        assert(pool.workers[worker].joined);
        assert(workers =~= pool.workers);
    }
}

/// No job goes to two workers, and no job that has ended is run again.
pub proof fn lemma_no_job_runs_twice<J>(pool: PoolView<J>, a: int, b: int, ticket: int)
    requires
        pool.inv(),
        pool.holds(a, ticket),
    ensures
        pool.holds(b, ticket) ==> a == b,
        !pool.completed.contains(ticket),
{
    if pool.holds(b, ticket) && a != b {
        if a < b {
            assert(pool.workers[a].ticket != pool.workers[b].ticket);
        } else {
            assert(pool.workers[b].ticket != pool.workers[a].ticket);
        }
    }
}

/// A failing job stops its own worker and nothing else: the other workers,
/// the queue, the phase and the record of completed jobs stay as they are,
/// and the pool goes on taking jobs if it did before.
pub proof fn lemma_fault_is_confined<J>(pool: PoolView<J>, worker: int, other: int)
    requires
        pool.inv(),
        pool.is_busy(worker),
        0 <= other < pool.workers.len(),
        other != worker,
    ensures
        ({
            let after = pool.job_done(worker, JobOutcome::Faulted);
            &&& after.workers[worker].state == WorkerState::Faulted
            &&& after.workers[other] == pool.workers[other]
            &&& after.queue == pool.queue
            &&& after.phase == pool.phase
            &&& after.submitted == pool.submitted
            &&& after.completed == pool.completed
            &&& after.step_for(other) == pool.step_for(other)
        }),
{
}

/// A closed queue keeps no worker waiting: once shutdown has begun, an idle
/// worker that asks is given a job or told to leave. And once one worker
/// was told to leave, no job is left for any other.
pub proof fn lemma_no_wait_after_shutdown<J>(pool: PoolView<J>, worker: int, gone: int)
    requires
        pool.inv(),
    ensures
        pool.phase != PoolState::Running ==> pool.step_for(worker) != Some(Step::<J>::Wait),
        0 <= gone < pool.workers.len() && pool.workers[gone].state == WorkerState::Exited
            && pool.is_idle(worker) ==> pool.step_for(worker) == Some(Step::<J>::Exit),
{
}

/// Where a terminated pool has left jobs in its queue, every one of its
/// workers was stopped by a failing job.
pub proof fn lemma_jobs_are_left_only_by_failed_workers<J>(pool: PoolView<J>)
    requires
        pool.inv(),
        pool.phase == PoolState::Terminated,
        pool.queue.pending.len() > 0,
    ensures
        forall|i: int|
            0 <= i < pool.workers.len() ==> (#[trigger] pool.workers[i]).state
                == WorkerState::Faulted,
{
    assert forall|i: int| 0 <= i < pool.workers.len() implies (#[trigger] pool.workers[i]).state
        == WorkerState::Faulted by {
        assert(pool.workers[i].joined);
    }
}

/// One thing that happens to a pool.
pub enum Event<J> {
    /// A job is handed in.
    Submit(J),
    /// A worker asks for its next step.
    NextStep(int),
    /// A worker reports the end of its job.
    JobDone(int, JobOutcome),
    /// Shutdown is asked for.
    Shutdown,
    /// A worker is reported as joined.
    JoinWorker(int),
}

/// The pool after one event.
pub open spec fn after<J>(pool: PoolView<J>, event: Event<J>) -> PoolView<J> {
    match event {
        Event::Submit(job) => pool.submit(job),
        Event::NextStep(worker) => pool.next_step(worker),
        Event::JobDone(worker, outcome) => pool.job_done(worker, outcome),
        Event::Shutdown => pool.shutdown(),
        Event::JoinWorker(worker) => pool.join_worker(worker),
    }
}

/// The pool after a run of events, the first of them first.
pub open spec fn after_all<J>(pool: PoolView<J>, events: Seq<Event<J>>) -> PoolView<J>
    decreases events.len(),
{
    if events.len() == 0 {
        pool
    } else {
        after(after_all(pool, events.drop_last()), events.last())
    }
}

/// Whatever happens to a pool, in whatever order, the invariant holds, no
/// worker comes or goes, the pool does not go back to an earlier phase, and
/// its history only grows.
pub proof fn lemma_inv_holds_throughout<J>(pool: PoolView<J>, events: Seq<Event<J>>)
    requires
        pool.inv(),
    ensures
        after_all(pool, events).inv(),
        after_all(pool, events).workers.len() == pool.workers.len(),
        phase_rank(pool.phase) <= phase_rank(after_all(pool, events).phase),
        pool.submitted.is_prefix_of(after_all(pool, events).submitted),
        pool.completed.is_prefix_of(after_all(pool, events).completed),
        pool.delivered() <= after_all(pool, events).delivered(),
    decreases events.len(),
{
    if events.len() > 0 {
        let before = after_all(pool, events.drop_last());
        lemma_inv_holds_throughout(pool, events.drop_last());
        match events.last() {
            Event::Submit(job) => {
                lemma_submit_inv(before, job);
                lemma_phase_never_goes_back(before, job, 0, JobOutcome::Completed);
            },
            Event::NextStep(worker) => {
                lemma_next_step_inv(before, worker);
            },
            Event::JobDone(worker, outcome) => {
                lemma_job_done_inv(before, worker, outcome);
            },
            Event::Shutdown => {
                lemma_shutdown_inv(before);
            },
            Event::JoinWorker(worker) => {
                lemma_join_worker_inv(before, worker);
                lemma_phase_never_goes_back(before, arbitrary(), worker, JobOutcome::Completed);
            },
        }
    }
}

/// Every pool that grew out of a new pool meets the invariant.
pub proof fn lemma_inv_holds_from_the_start<J>(size: nat, events: Seq<Event<J>>)
    requires
        size >= 1,
    ensures
        after_all(PoolView::<J>::fresh(size), events).inv(),
        after_all(PoolView::<J>::fresh(size), events).workers.len() == size,
{
    lemma_fresh_inv::<J>(size);
    lemma_inv_holds_throughout(PoolView::<J>::fresh(size), events);
}

/// However submissions, steps and reports were interleaved: once a pool has
/// terminated and no job has failed, every job that was accepted has run to
/// its end exactly once.
pub proof fn lemma_all_jobs_run_whatever_the_order<J>(size: nat, events: Seq<Event<J>>)
    requires
        size >= 1,
        after_all(PoolView::<J>::fresh(size), events).phase == PoolState::Terminated,
        after_all(PoolView::<J>::fresh(size), events).no_fault(),
    ensures
        ({
            let end = after_all(PoolView::<J>::fresh(size), events);
            &&& end.completed.len() == end.submitted.len()
            &&& end.completed.no_duplicates()
            &&& forall|t: int| 0 <= t < end.submitted.len() <==> end.completed.contains(t)
        }),
{
    lemma_inv_holds_from_the_start(size, events);
    lemma_every_job_ran_once(after_all(PoolView::<J>::fresh(size), events));
}

/// Of two jobs handed in one after the other, the first goes to a worker no
/// later than the second, whatever happens after they were handed in.
pub proof fn lemma_earlier_job_goes_first<J>(
    pool: PoolView<J>,
    first: J,
    second: J,
    events: Seq<Event<J>>,
)
    requires
        pool.inv(),
        pool.phase == PoolState::Running,
    ensures
        ({
            let ticket = pool.submitted.len() as int;
            let end = after_all(pool.submit(first).submit(second), events);
            &&& end.submitted[ticket] == first
            &&& end.submitted[ticket + 1] == second
            &&& end.dispatched(ticket + 1) ==> end.dispatched(ticket)
        }),
{
    let ticket = pool.submitted.len() as int;
    let start = pool.submit(first).submit(second);
    let end = after_all(start, events);
    lemma_submit_inv(pool, first);
    lemma_submit_inv(pool.submit(first), second);
    lemma_inv_holds_throughout(start, events);
    assert(start.submitted[ticket] == first);
    assert(start.submitted[ticket + 1] == second);
    if end.dispatched(ticket + 1) {
        lemma_dispatch_in_submission_order(end, ticket, ticket + 1);
    }
}

/// Shutdown outlasts the jobs in flight: if a pool in which `worker` runs a
/// job is seen terminated later on, that job has ended by then, either run
/// to its end or failed.
pub proof fn lemma_termination_outlasts_running_jobs<J>(
    pool: PoolView<J>,
    worker: int,
    events: Seq<Event<J>>,
)
    requires
        pool.inv(),
        pool.is_busy(worker),
        after_all(pool, events).phase == PoolState::Terminated,
    ensures
        events.len() > 0,
        ({
            let ticket = pool.workers[worker].ticket;
            let end = after_all(pool, events);
            end.completed.contains(ticket) || exists|w: int|
                #[trigger] end.holds(w, ticket) && end.workers[w].state == WorkerState::Faulted
        }),
{
    let ticket = pool.workers[worker].ticket;
    let end = after_all(pool, events);
    assert(pool.workers[worker].holding());
    lemma_busy_worker_keeps_pool_alive(pool, worker);
    lemma_inv_holds_throughout(pool, events);
    lemma_terminated_pool_is_quiet(end);
    assert(0 <= ticket < end.delivered());
}

} // verus!
