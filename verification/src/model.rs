//! The pool as a mathematical object: its phases, its workers, the history of
//! its jobs, and what each operation does to them.
//!
//! Every job that the pool accepts gets a ticket: its position in the order of
//! acceptance, counted from 0. Tickets tell apart two jobs that are equal as
//! values, so "this job ran once" can be said of each of them.
use vstd::prelude::*;
use crate::queue::{QueueView, Received};

verus! {

/// The phases of a pool's life, in the order in which a pool goes through them.
#[derive(Debug, Clone, Copy, PartialEq, Eq, Structural, Hash)]
pub enum PoolState {
    /// The workers are being set up. No pool is handed out in this phase.
    Constructing,
    /// The pool accepts jobs.
    Running,
    /// The queue is closed; workers finish what is left and stop.
    ShuttingDown,
    /// Every worker has stopped and has been joined.
    Terminated,
}

/// What a worker is doing.
#[derive(Debug, Clone, Copy, PartialEq, Eq, Structural, Hash)]
pub enum WorkerState {
    /// In its loop, between two jobs.
    Idle,
    /// Running a job.
    Busy,
    /// Out of its loop, after it found the queue closed and empty.
    Exited,
    /// Stopped by a job that failed.
    Faulted,
}

/// How a job ended.
#[derive(Debug, Clone, Copy, PartialEq, Eq, Structural, Hash)]
pub enum JobOutcome {
    /// The job ran to its end.
    Completed,
    /// The job failed part-way. Its worker stops.
    Faulted,
}

/// What a worker does next.
#[derive(Debug, PartialEq, Eq)]
pub enum Step<J> {
    /// Run this job, then report how it ended.
    Run(J),
    /// Nothing to do yet: wait until a job is submitted or the pool shuts down.
    Wait,
    /// Leave the loop: the queue is closed and empty.
    Exit,
}

/// One worker, to a contract.
pub struct WorkerView {
    pub state: WorkerState,
    /// Whether the pool has waited for this worker's end.
    pub joined: bool,
    /// The ticket of the job that a busy worker runs, or that a faulted worker
    /// failed on. It means nothing in the other states.
    pub ticket: int,
}

impl WorkerView {
    /// A worker that has just entered its loop.
    pub open spec fn fresh() -> Self {
        WorkerView { state: WorkerState::Idle, joined: false, ticket: 0 }
    }

    /// The worker is still in its loop.
    pub open spec fn live(self) -> bool {
        self.state == WorkerState::Idle || self.state == WorkerState::Busy
    }

    /// The worker has taken a job and not completed it.
    pub open spec fn holding(self) -> bool {
        self.state == WorkerState::Busy || self.state == WorkerState::Faulted
    }
}

/// How many of the first `n` workers are still in their loops.
pub open spec fn live_count(workers: Seq<WorkerView>, n: int) -> int
    decreases n,
{
    if n <= 0 {
        0
    } else {
        live_count(workers, n - 1) + if workers[n - 1].live() {
            1int
        } else {
            0int
        }
    }
}

/// A pool, to a contract: its phase, its queue and its workers, and the
/// history of its jobs.
pub struct PoolView<J> {
    pub phase: PoolState,
    pub queue: QueueView<J>,
    /// The workers; a worker's identifier is its position here.
    pub workers: Seq<WorkerView>,
    /// Every job that was accepted, in the order of acceptance. The position
    /// of a job here is its ticket.
    pub submitted: Seq<J>,
    /// The tickets of the jobs that ran to their end, in the order in which
    /// they ended.
    pub completed: Seq<int>,
}

impl<J> PoolView<J> {
    /// How many jobs have left the queue.
    pub open spec fn delivered(self) -> int {
        self.submitted.len() - self.queue.pending.len()
    }

    /// `worker` has taken the job with this ticket and not completed it.
    pub open spec fn holds(self, worker: int, ticket: int) -> bool {
        &&& 0 <= worker < self.workers.len()
        &&& self.workers[worker].holding()
        &&& self.workers[worker].ticket == ticket
    }

    /// The job with this ticket was handed to a worker: it ran to its end, or
    /// a worker holds it.
    pub open spec fn dispatched(self, ticket: int) -> bool {
        self.completed.contains(ticket) || exists|worker: int| self.holds(worker, ticket)
    }

    /// How many workers are still in their loops.
    pub open spec fn live_workers(self) -> int {
        live_count(self.workers, self.workers.len() as int)
    }

    /// Every worker has been joined.
    pub open spec fn all_joined(self) -> bool {
        forall|i: int| 0 <= i < self.workers.len() ==> (#[trigger] self.workers[i]).joined
    }

    /// No worker was stopped by a failing job.
    pub open spec fn no_fault(self) -> bool {
        forall|i: int|
            0 <= i < self.workers.len() ==> (#[trigger] self.workers[i]).state
                != WorkerState::Faulted
    }

    /// What holds of a pool at every moment of its life.
    pub open spec fn inv(self) -> bool {
        &&& self.workers.len() >= 1
        &&& self.phase != PoolState::Constructing
        // The queue is open exactly while the pool runs.
        &&& (self.phase == PoolState::Running <==> !self.queue.closed)
        // The pool is terminated exactly when every worker was joined.
        &&& (self.phase == PoolState::Terminated <==> self.all_joined())
        // Only a stopped worker is joined, and only once shutdown has begun.
        &&& forall|i: int|
            0 <= i < self.workers.len() && (#[trigger] self.workers[i]).joined ==> {
                &&& !self.workers[i].live()
                &&& self.phase != PoolState::Running
            }
        // A worker leaves its loop only on a closed and empty queue.
        &&& forall|i: int|
            0 <= i < self.workers.len() && (#[trigger] self.workers[i]).state
                == WorkerState::Exited ==> self.queue.closed && self.queue.pending.len() == 0
        // The queue holds the accepted jobs that were not delivered, in order.
        &&& 0 <= self.delivered()
        &&& self.queue.pending == self.submitted.skip(self.delivered())
        // No job ends twice, and only delivered jobs end.
        &&& self.completed.no_duplicates()
        &&& forall|k: int|
            0 <= k < self.completed.len() ==> 0 <= (#[trigger] self.completed[k])
                < self.delivered()
        // A job that a worker holds was delivered, has not ended, and is held
        // by no other worker.
        &&& forall|i: int|
            0 <= i < self.workers.len() && (#[trigger] self.workers[i]).holding() ==> {
                &&& 0 <= self.workers[i].ticket < self.delivered()
                &&& !self.completed.contains(self.workers[i].ticket)
            }
        &&& forall|i: int, j: int|
            0 <= i < j < self.workers.len() && (#[trigger] self.workers[i]).holding() && (
            #[trigger] self.workers[j]).holding() ==> self.workers[i].ticket
                != self.workers[j].ticket
        // Every delivered job went to a worker.
        &&& forall|t: int| 0 <= t < self.delivered() ==> #[trigger] self.dispatched(t)
    }

    /// The pool right after its construction with `size` workers.
    pub open spec fn fresh(size: nat) -> Self {
        PoolView {
            phase: PoolState::Running,
            queue: QueueView::fresh(),
            workers: Seq::new(size, |i: int| WorkerView::fresh()),
            submitted: Seq::empty(),
            completed: Seq::empty(),
        }
    }

    /// The pool after `submit(job)`: a pool whose queue is closed takes nothing.
    pub open spec fn submit(self, job: J) -> Self {
        if self.queue.closed {
            self
        } else {
            PoolView {
                queue: self.queue.send(job),
                submitted: self.submitted.push(job),
                ..self
            }
        }
    }

    /// `worker` is one of the pool's workers and is between two jobs.
    pub open spec fn is_idle(self, worker: int) -> bool {
        0 <= worker < self.workers.len() && self.workers[worker].state == WorkerState::Idle
    }

    /// `worker` is one of the pool's workers and runs a job.
    pub open spec fn is_busy(self, worker: int) -> bool {
        0 <= worker < self.workers.len() && self.workers[worker].state == WorkerState::Busy
    }

    /// What `worker` is told when it asks for its next step: nothing, unless
    /// it is idle; else what the queue has for it.
    pub open spec fn step_for(self, worker: int) -> Option<Step<J>> {
        if !self.is_idle(worker) {
            None
        } else {
            match self.queue.front() {
                Received::Job(job) => Some(Step::Run(job)),
                Received::Closed => Some(Step::Exit),
                Received::Empty => Some(Step::Wait),
            }
        }
    }

    /// The pool after `worker` asked for its next step.
    pub open spec fn next_step(self, worker: int) -> Self {
        if !self.is_idle(worker) {
            self
        } else {
            match self.queue.front() {
                Received::Job(_) => PoolView {
                    queue: self.queue.receive(),
                    workers: self.workers.update(
                        worker,
                        WorkerView {
                            state: WorkerState::Busy,
                            ticket: self.delivered(),
                            ..self.workers[worker]
                        },
                    ),
                    ..self
                },
                Received::Closed => PoolView {
                    workers: self.workers.update(
                        worker,
                        WorkerView { state: WorkerState::Exited, ..self.workers[worker] },
                    ),
                    ..self
                },
                Received::Empty => self,
            }
        }
    }

    /// What `worker` is in after it reported the end of its job: nothing,
    /// unless it was busy.
    pub open spec fn state_after_job(self, worker: int, outcome: JobOutcome) -> Option<
        WorkerState,
    > {
        if !self.is_busy(worker) {
            None
        } else {
            match outcome {
                JobOutcome::Completed => Some(WorkerState::Idle),
                JobOutcome::Faulted => Some(WorkerState::Faulted),
            }
        }
    }

    /// The pool after `worker` reported the end of its job.
    pub open spec fn job_done(self, worker: int, outcome: JobOutcome) -> Self {
        if !self.is_busy(worker) {
            self
        } else {
            match outcome {
                JobOutcome::Completed => PoolView {
                    workers: self.workers.update(
                        worker,
                        WorkerView { state: WorkerState::Idle, ..self.workers[worker] },
                    ),
                    completed: self.completed.push(self.workers[worker].ticket),
                    ..self
                },
                JobOutcome::Faulted => PoolView {
                    workers: self.workers.update(
                        worker,
                        WorkerView { state: WorkerState::Faulted, ..self.workers[worker] },
                    ),
                    ..self
                },
            }
        }
    }

    /// The pool after `shutdown()`: a running pool closes its queue; any
    /// other pool stays as it is.
    pub open spec fn shutdown(self) -> Self {
        if self.phase == PoolState::Running {
            PoolView { phase: PoolState::ShuttingDown, queue: self.queue.close(), ..self }
        } else {
            self
        }
    }

    /// `worker` can be joined: shutdown has begun and the worker has stopped.
    pub open spec fn can_join(self, worker: int) -> bool {
        &&& 0 <= worker < self.workers.len()
        &&& self.phase != PoolState::Running
        &&& !self.workers[worker].live()
    }

    /// The pool after `join_worker(worker)`. The last join ends the pool's life.
    pub open spec fn join_worker(self, worker: int) -> Self {
        if !self.can_join(worker) {
            self
        } else {
            let workers = self.workers.update(
                worker,
                WorkerView { joined: true, ..self.workers[worker] },
            );
            let joined = PoolView { workers, ..self };
            PoolView {
                phase: if joined.all_joined() {
                    PoolState::Terminated
                } else {
                    PoolState::ShuttingDown
                },
                ..joined
            }
        }
    }
}

/// A new pool meets the invariant.
pub proof fn lemma_fresh_inv<J>(size: nat)
    requires
        size >= 1,
    ensures
        PoolView::<J>::fresh(size).inv(),
{
    let pool = PoolView::<J>::fresh(size);
    assert(!pool.workers[0].joined);
    assert(pool.queue.pending =~= pool.submitted.skip(pool.delivered()));
}

/// `submit` keeps the invariant.
pub proof fn lemma_submit_inv<J>(pool: PoolView<J>, job: J)
    requires
        pool.inv(),
    ensures
        pool.submit(job).inv(),
{
    let next = pool.submit(job);
    if !pool.queue.closed {
        assert(next.delivered() == pool.delivered());
        assert(next.queue.pending =~= next.submitted.skip(next.delivered()));
        assert(next.all_joined() == pool.all_joined());
        assert forall|t: int| 0 <= t < next.delivered() implies #[trigger] next.dispatched(t) by {
            assert(pool.dispatched(t));
            if !pool.completed.contains(t) {
                let w = choose|w: int| pool.holds(w, t);
                assert(next.holds(w, t));
            }
        }
    }
}

/// Asking for the next step keeps the invariant.
pub proof fn lemma_next_step_inv<J>(pool: PoolView<J>, worker: int)
    requires
        pool.inv(),
    ensures
        pool.next_step(worker).inv(),
{
    let next = pool.next_step(worker);
    if pool.is_idle(worker) {
        match pool.queue.front() {
            Received::Job(_) => {
                let d = pool.delivered();
                assert(next.delivered() == d + 1);
                assert(next.queue.pending =~= next.submitted.skip(next.delivered()));
                assert(!pool.workers[worker].joined);
                assert(next.all_joined() == pool.all_joined()) by {
                    if pool.all_joined() {
                        assert(pool.workers[worker].joined);
                    }
                    if next.all_joined() {
                        assert(next.workers[worker].joined);
                    }
                }
                assert forall|i: int|
                    0 <= i < next.workers.len() && (#[trigger] next.workers[i]).state
                        == WorkerState::Exited implies false by {
                    assert(pool.workers[i].state == WorkerState::Exited);
                }
                assert forall|i: int|
                    0 <= i < next.workers.len() && (#[trigger] next.workers[i]).holding() implies {
                    &&& 0 <= next.workers[i].ticket < next.delivered()
                    &&& !next.completed.contains(next.workers[i].ticket)
                } by {
                    if i == worker {
                        if pool.completed.contains(d) {
                            let k = choose|k: int|
                                0 <= k < pool.completed.len() && pool.completed[k] == d;
                            assert(pool.completed[k] < d);
                        }
                    } else {
                        assert(pool.workers[i].holding());
                    }
                }
                assert forall|i: int, j: int|
                    0 <= i < j < next.workers.len() && (#[trigger] next.workers[i]).holding() && (
                    #[trigger] next.workers[j]).holding() implies next.workers[i].ticket
                    != next.workers[j].ticket by {
                    if i != worker {
                        assert(pool.workers[i].holding());
                    }
                    if j != worker {
                        assert(pool.workers[j].holding());
                    }
                }
                assert forall|t: int| 0 <= t < next.delivered() implies #[trigger] next.dispatched(
                    t,
                ) by {
                    if t == d {
                        assert(next.holds(worker, t));
                    } else {
                        assert(pool.dispatched(t));
                        if !pool.completed.contains(t) {
                            let w = choose|w: int| pool.holds(w, t);
                            assert(w != worker);
                            assert(next.holds(w, t));
                        }
                    }
                }
            },
            Received::Closed => {
                assert(!pool.workers[worker].joined);
                assert(next.all_joined() == pool.all_joined()) by {
                    if pool.all_joined() {
                        assert(pool.workers[worker].joined);
                    }
                    if next.all_joined() {
                        assert(next.workers[worker].joined);
                    }
                }
                assert forall|i: int|
                    0 <= i < next.workers.len() && (#[trigger] next.workers[i]).holding() implies {
                    &&& 0 <= next.workers[i].ticket < next.delivered()
                    &&& !next.completed.contains(next.workers[i].ticket)
                } by {
                    assert(pool.workers[i].holding());
                }
                assert forall|i: int, j: int|
                    0 <= i < j < next.workers.len() && (#[trigger] next.workers[i]).holding() && (
                    #[trigger] next.workers[j]).holding() implies next.workers[i].ticket
                    != next.workers[j].ticket by {
                    assert(pool.workers[i].holding());
                    assert(pool.workers[j].holding());
                }
                assert forall|t: int| 0 <= t < next.delivered() implies #[trigger] next.dispatched(
                    t,
                ) by {
                    assert(pool.dispatched(t));
                    if !pool.completed.contains(t) {
                        let w = choose|w: int| pool.holds(w, t);
                        assert(w != worker);
                        assert(next.holds(w, t));
                    }
                }
            },
            Received::Empty => {},
        }
    }
}

/// Reporting the end of a job keeps the invariant.
pub proof fn lemma_job_done_inv<J>(pool: PoolView<J>, worker: int, outcome: JobOutcome)
    requires
        pool.inv(),
    ensures
        pool.job_done(worker, outcome).inv(),
{
    broadcast use vstd::seq_lib::lemma_seq_contains_after_push;

    let next = pool.job_done(worker, outcome);
    if pool.is_busy(worker) {
        let ticket = pool.workers[worker].ticket;
        assert(pool.workers[worker].holding());
        assert(!pool.workers[worker].joined);
        assert(next.all_joined() == pool.all_joined()) by {
            if pool.all_joined() {
                assert(pool.workers[worker].joined);
            }
            if next.all_joined() {
                assert(next.workers[worker].joined);
            }
        }
        assert forall|i: int|
            0 <= i < next.workers.len() && (#[trigger] next.workers[i]).state
                == WorkerState::Exited implies next.queue.closed && next.queue.pending.len()
            == 0 by {
            assert(pool.workers[i].state == WorkerState::Exited);
        }
        assert forall|i: int, j: int|
            0 <= i < j < next.workers.len() && (#[trigger] next.workers[i]).holding() && (
            #[trigger] next.workers[j]).holding() implies next.workers[i].ticket
            != next.workers[j].ticket by {
            assert(pool.workers[i].holding());
            assert(pool.workers[j].holding());
        }
        match outcome {
            JobOutcome::Completed => {
                assert(next.completed.no_duplicates()) by {
                    assert forall|a: int, b: int|
                        0 <= a < next.completed.len() && 0 <= b < next.completed.len() && a
                            != b implies next.completed[a] != next.completed[b] by {
                        if a == pool.completed.len() {
                            assert(pool.completed.contains(pool.completed[b]));
                        } else if b == pool.completed.len() {
                            assert(pool.completed.contains(pool.completed[a]));
                        }
                    }
                }
                assert forall|i: int|
                    0 <= i < next.workers.len() && (#[trigger] next.workers[i]).holding() implies {
                    &&& 0 <= next.workers[i].ticket < next.delivered()
                    &&& !next.completed.contains(next.workers[i].ticket)
                } by {
                    assert(i != worker);
                    assert(pool.workers[i].holding());
                    if i < worker {
                        assert(pool.workers[i].ticket != pool.workers[worker].ticket);
                    } else {
                        assert(pool.workers[worker].ticket != pool.workers[i].ticket);
                    }
                }
                assert forall|t: int| 0 <= t < next.delivered() implies #[trigger] next.dispatched(
                    t,
                ) by {
                    assert(pool.dispatched(t));
                    if !pool.completed.contains(t) {
                        let w = choose|w: int| pool.holds(w, t);
                        if w != worker {
                            assert(next.holds(w, t));
                        }
                    }
                }
            },
            JobOutcome::Faulted => {
                assert forall|i: int|
                    0 <= i < next.workers.len() && (#[trigger] next.workers[i]).holding() implies {
                    &&& 0 <= next.workers[i].ticket < next.delivered()
                    &&& !next.completed.contains(next.workers[i].ticket)
                } by {
                    assert(pool.workers[i].holding());
                }
                assert forall|t: int| 0 <= t < next.delivered() implies #[trigger] next.dispatched(
                    t,
                ) by {
                    assert(pool.dispatched(t));
                    if !pool.completed.contains(t) {
                        let w = choose|w: int| pool.holds(w, t);
                        assert(next.holds(w, t));
                    }
                }
            },
        }
    }
}

/// `shutdown` keeps the invariant.
pub proof fn lemma_shutdown_inv<J>(pool: PoolView<J>)
    requires
        pool.inv(),
    ensures
        pool.shutdown().inv(),
{
    let next = pool.shutdown();
    if pool.phase == PoolState::Running {
        assert(!pool.workers[0].joined);
        assert(!next.workers[0].joined);
        assert forall|t: int| 0 <= t < next.delivered() implies #[trigger] next.dispatched(t) by {
            assert(pool.dispatched(t));
            if !pool.completed.contains(t) {
                let w = choose|w: int| pool.holds(w, t);
                assert(next.holds(w, t));
            }
        }
    }
}

/// Joining a worker keeps the invariant.
pub proof fn lemma_join_worker_inv<J>(pool: PoolView<J>, worker: int)
    requires
        pool.inv(),
    ensures
        pool.join_worker(worker).inv(),
{
    let next = pool.join_worker(worker);
    if pool.can_join(worker) {
        let joined = PoolView {
            workers: pool.workers.update(
                worker,
                WorkerView { joined: true, ..pool.workers[worker] },
            ),
            ..pool
        };
        assert(next.all_joined() == joined.all_joined());
        assert forall|i: int|
            0 <= i < next.workers.len() && (#[trigger] next.workers[i]).state
                == WorkerState::Exited implies next.queue.closed && next.queue.pending.len()
            == 0 by {
            assert(pool.workers[i].state == WorkerState::Exited);
        }
        assert forall|i: int|
            0 <= i < next.workers.len() && (#[trigger] next.workers[i]).holding() implies {
            &&& 0 <= next.workers[i].ticket < next.delivered()
            &&& !next.completed.contains(next.workers[i].ticket)
        } by {
            assert(pool.workers[i].holding());
        }
        assert forall|i: int, j: int|
            0 <= i < j < next.workers.len() && (#[trigger] next.workers[i]).holding() && (
            #[trigger] next.workers[j]).holding() implies next.workers[i].ticket
            != next.workers[j].ticket by {
            assert(pool.workers[i].holding());
            assert(pool.workers[j].holding());
        }
        assert forall|i: int|
            0 <= i < next.workers.len() && (#[trigger] next.workers[i]).joined implies {
            &&& !next.workers[i].live()
            &&& next.phase != PoolState::Running
        } by {
            if i != worker {
                assert(pool.workers[i].joined);
            }
        }
        assert forall|t: int| 0 <= t < next.delivered() implies #[trigger] next.dispatched(t) by {
            assert(pool.dispatched(t));
            if !pool.completed.contains(t) {
                let w = choose|w: int| pool.holds(w, t);
                assert(next.holds(w, t));
            }
        }
    }
}

} // verus!
