//! The worker pool: a fixed number of workers that take jobs from one queue.
//!
//! A [`WorkerPool`] decides; it runs nothing. A worker thread asks
//! [`WorkerPool::next_step`] what to do, runs the job it is given with the
//! pool unlocked, and reports the end of the job with
//! [`WorkerPool::job_done`]. The owner of the pool hands jobs in with
//! [`WorkerPool::submit`], ends the pool's life with [`WorkerPool::shutdown`],
//! and tells the pool of each thread it has waited for with
//! [`WorkerPool::join_worker`].
use vstd::prelude::*;
use crate::error::PoolError;
use crate::model::{live_count, JobOutcome, PoolState, PoolView, Step, WorkerState, WorkerView};
use crate::model::{
    lemma_fresh_inv,
    lemma_job_done_inv,
    lemma_join_worker_inv,
    lemma_next_step_inv,
    lemma_shutdown_inv,
    lemma_submit_inv,
};
use crate::queue::{JobQueue, QueueView, Received};

verus! {

/// One worker's record. A worker's identifier is its position in the pool.
struct Worker {
    state: WorkerState,
    joined: bool,
    ticket: Ghost<int>,
}

impl View for Worker {
    type V = WorkerView;

    closed spec fn view(&self) -> WorkerView {
        WorkerView { state: self.state, joined: self.joined, ticket: self.ticket@ }
    }
}

/// A fixed-size pool of workers and the queue that feeds them.
pub struct WorkerPool<J> {
    queue: JobQueue<J>,
    workers: Vec<Worker>,
    phase: PoolState,
    submitted: Ghost<Seq<J>>,
    completed: Ghost<Seq<int>>,
}

impl<J> View for WorkerPool<J> {
    type V = PoolView<J>;

    closed spec fn view(&self) -> PoolView<J> {
        PoolView {
            phase: self.phase,
            queue: self.queue@,
            workers: Seq::new(self.workers@.len(), |i: int| self.workers@[i]@),
            submitted: self.submitted@,
            completed: self.completed@,
        }
    }
}

impl<J> WorkerPool<J> {
    /// The pool is in a state that its operations can lead to.
    pub open spec fn wf(&self) -> bool {
        self@.inv()
    }

    /// A running pool of `size` idle workers with an empty queue. A pool
    /// needs at least one worker: any other `size` is refused.
    pub fn new(size: isize) -> (result: Result<Self, PoolError>)
        ensures
            match result {
                Ok(pool) => size >= 1 && pool.wf() && pool@ == PoolView::<J>::fresh(size as nat),
                Err(error) => size <= 0 && error == PoolError::InvalidPoolSize,
            },
    {
        if size <= 0 {
            return Err(PoolError::InvalidPoolSize);
        }
        let count: usize = size as usize;
        let mut pool = WorkerPool {
            queue: JobQueue::new(),
            workers: Vec::new(),
            phase: PoolState::Constructing,
            submitted: Ghost(Seq::empty()),
            completed: Ghost(Seq::empty()),
        };
        while pool.workers.len() < count
            invariant
                pool.phase == PoolState::Constructing,
                pool.queue@ == QueueView::<J>::fresh(),
                pool.submitted@ == Seq::<J>::empty(),
                pool.completed@ == Seq::<int>::empty(),
                pool.workers@.len() <= count,
                forall|i: int|
                    0 <= i < pool.workers@.len() ==> (#[trigger] pool.workers@[i])@
                        == WorkerView::fresh(),
            decreases count - pool.workers@.len(),
        {
            pool.workers.push(Worker { state: WorkerState::Idle, joined: false, ticket: Ghost(0) });
        }
        pool.phase = PoolState::Running;
        proof {
            lemma_fresh_inv::<J>(size as nat);
            assert(pool@.workers =~= PoolView::<J>::fresh(size as nat).workers);
        }
        Ok(pool)
    }

    /// Hands `job` to the pool, behind every job that waits. It returns at
    /// once. Once shutdown has begun the pool takes no job: it says so and
    /// stays as it is.
    pub fn submit(&mut self, job: J) -> (result: Result<(), PoolError>)
        requires
            old(self).wf(),
        ensures
            final(self).wf(),
            final(self)@ == old(self)@.submit(job),
            result == if old(self)@.phase == PoolState::Running {
                Ok::<(), PoolError>(())
            } else {
                Err::<(), PoolError>(PoolError::ChannelClosed)
            },
    {
        let ghost before = self@;
        let ghost accepted = job;
        let result = self.queue.send(job);
        if result.is_ok() {
            self.submitted = Ghost(self.submitted@.push(accepted));
        }
        proof {
            lemma_submit_inv(before, accepted);
            assert(self@.workers =~= before.workers);
        }
        result
    }

    /// One turn of a worker's loop: what `worker` does next. An idle worker
    /// gets the oldest waiting job and becomes busy; with no job waiting it
    /// waits while the queue is open and leaves its loop once the queue is
    /// closed. Whoever else asks (no such worker, or one that is not idle)
    /// gets `None`, and nothing changes.
    pub fn next_step(&mut self, worker: usize) -> (step: Option<Step<J>>)
        requires
            old(self).wf(),
        ensures
            final(self).wf(),
            step == old(self)@.step_for(worker as int),
            final(self)@ == old(self)@.next_step(worker as int),
    {
        if worker >= self.workers.len() {
            return None;
        }
        if self.workers[worker].state != WorkerState::Idle {
            return None;
        }
        let ghost before = self@;
        let ghost ticket = self.workers@[worker as int].ticket@;
        let joined = self.workers[worker].joined;
        proof {
            lemma_next_step_inv(before, worker as int);
        }
        match self.queue.receive() {
            Received::Job(job) => {
                self.workers.set(
                    worker,
                    Worker {
                        state: WorkerState::Busy,
                        joined,
                        ticket: Ghost(before.delivered()),
                    },
                );
                assert(self@.workers =~= before.next_step(worker as int).workers);
                Some(Step::Run(job))
            },
            Received::Closed => {
                self.workers.set(
                    worker,
                    Worker { state: WorkerState::Exited, joined, ticket: Ghost(ticket) },
                );
                assert(self@.workers =~= before.next_step(worker as int).workers);
                Some(Step::Exit)
            },
            Received::Empty => {
                assert(self@.workers =~= before.workers);
                Some(Step::Wait)
            },
        }
    }

    /// Records how the job that `worker` ran has ended, and returns the
    /// worker's new state: idle after a job that ran to its end, faulted
    /// after one that failed, which stops the worker. Whoever else reports
    /// (no such worker, or one that is not busy) gets `None`, and nothing
    /// changes.
    pub fn job_done(&mut self, worker: usize, outcome: JobOutcome) -> (state: Option<WorkerState>)
        requires
            old(self).wf(),
        ensures
            final(self).wf(),
            state == old(self)@.state_after_job(worker as int, outcome),
            final(self)@ == old(self)@.job_done(worker as int, outcome),
    {
        if worker >= self.workers.len() {
            return None;
        }
        if self.workers[worker].state != WorkerState::Busy {
            return None;
        }
        let ghost before = self@;
        let ghost ticket = self.workers@[worker as int].ticket@;
        let joined = self.workers[worker].joined;
        proof {
            lemma_job_done_inv(before, worker as int, outcome);
        }
        match outcome {
            JobOutcome::Completed => {
                self.workers.set(
                    worker,
                    Worker { state: WorkerState::Idle, joined, ticket: Ghost(ticket) },
                );
                self.completed = Ghost(self.completed@.push(ticket));
                assert(self@.workers =~= before.job_done(worker as int, outcome).workers);
                Some(WorkerState::Idle)
            },
            JobOutcome::Faulted => {
                self.workers.set(
                    worker,
                    Worker { state: WorkerState::Faulted, joined, ticket: Ghost(ticket) },
                );
                assert(self@.workers =~= before.job_done(worker as int, outcome).workers);
                Some(WorkerState::Faulted)
            },
        }
    }

    /// Begins shutdown: a running pool closes its queue, so that no job is
    /// accepted any more and each worker leaves its loop once the queue is
    /// empty. Jobs that wait are still run. On a pool that is already
    /// shutting down or terminated this does nothing.
    pub fn shutdown(&mut self)
        requires
            old(self).wf(),
        ensures
            final(self).wf(),
            final(self)@ == old(self)@.shutdown(),
    {
        let ghost before = self@;
        proof {
            lemma_shutdown_inv(before);
        }
        if self.phase == PoolState::Running {
            self.queue.close();
            self.phase = PoolState::ShuttingDown;
        }
        assert(self@.workers =~= before.workers);
    }

    /// Records that the thread of `worker` has ended and was waited for,
    /// and says whether the pool took the record. A worker can be joined
    /// once shutdown has begun and the worker has stopped, not while it
    /// still runs a job or waits for one. The join of the last worker
    /// terminates the pool.
    pub fn join_worker(&mut self, worker: usize) -> (joined: bool)
        requires
            old(self).wf(),
        ensures
            final(self).wf(),
            joined == old(self)@.can_join(worker as int),
            final(self)@ == old(self)@.join_worker(worker as int),
    {
        if worker >= self.workers.len() || self.phase == PoolState::Running {
            return false;
        }
        let state = self.workers[worker].state;
        if state == WorkerState::Idle || state == WorkerState::Busy {
            return false;
        }
        let ghost before = self@;
        let ghost ticket = self.workers@[worker as int].ticket@;
        proof {
            lemma_join_worker_inv(before, worker as int);
        }
        self.workers.set(worker, Worker { state, joined: true, ticket: Ghost(ticket) });
        let ghost marked = PoolView { workers: self@.workers, ..before };
        assert(marked.workers =~= before.workers.update(
            worker as int,
            WorkerView { joined: true, ..before.workers[worker as int] },
        ));
        let mut all = true;
        let mut i: usize = 0;
        while i < self.workers.len()
            invariant
                i <= self.workers@.len(),
                self@.workers == marked.workers,
                all == (forall|k: int| 0 <= k < i ==> (#[trigger] marked.workers[k]).joined),
            decreases self.workers@.len() - i,
        {
            assert(marked.workers[i as int] == self.workers@[i as int]@);
            if !self.workers[i].joined {
                all = false;
            }
            i += 1;
        }
        self.phase = if all {
            PoolState::Terminated
        } else {
            PoolState::ShuttingDown
        };
        assert(self@.workers =~= marked.workers);
        true
    }

    /// The phase of the pool's life.
    pub fn phase(&self) -> (phase: PoolState)
        ensures
            phase == self@.phase,
    {
        self.phase
    }

    /// The number of workers that the pool was made with.
    pub fn size(&self) -> (size: usize)
        ensures
            size == self@.workers.len(),
    {
        self.workers.len()
    }

    /// The number of jobs that wait in the queue.
    pub fn pending(&self) -> (pending: usize)
        ensures
            pending == self@.queue.pending.len(),
    {
        self.queue.len()
    }

    /// What `worker` is doing, or `None` if the pool has no such worker.
    pub fn worker_state(&self, worker: usize) -> (state: Option<WorkerState>)
        ensures
            state == if worker < self@.workers.len() {
                Some(self@.workers[worker as int].state)
            } else {
                None
            },
    {
        if worker < self.workers.len() {
            Some(self.workers[worker].state)
        } else {
            None
        }
    }

    /// Whether `worker` is a worker of the pool that has been joined.
    pub fn is_joined(&self, worker: usize) -> (joined: bool)
        ensures
            joined == (worker < self@.workers.len() && self@.workers[worker as int].joined),
    {
        worker < self.workers.len() && self.workers[worker].joined
    }

    /// The number of workers that are still in their loops, idle or busy.
    pub fn live_workers(&self) -> (live: usize)
        ensures
            live == self@.live_workers(),
    {
        let mut live: usize = 0;
        let mut i: usize = 0;
        while i < self.workers.len()
            invariant
                i <= self.workers@.len(),
                live <= i,
                live == live_count(self@.workers, i as int),
            decreases self.workers@.len() - i,
        {
            let state = self.workers[i].state;
            if state == WorkerState::Idle || state == WorkerState::Busy {
                live += 1;
            }
            i += 1;
        }
        live
    }
}

} // verus!
