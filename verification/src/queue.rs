//! The job queue: an unbounded first-in first-out queue that can be closed.
//!
//! The queue never blocks. Where a blocking receive would wait, [`JobQueue::receive`]
//! answers [`Received::Empty`], and the caller waits for the next `send` or
//! `close` before it asks again.
use vstd::prelude::*;
use std::collections::VecDeque;
use crate::error::PoolError;

verus! {

/// What a queue is, to a contract: the jobs not yet delivered, oldest first,
/// and whether the queue has been closed.
pub struct QueueView<J> {
    pub pending: Seq<J>,
    pub closed: bool,
}

/// The answer to one `receive`.
#[derive(Debug, PartialEq, Eq)]
pub enum Received<J> {
    /// The oldest pending job, now removed from the queue.
    Job(J),
    /// The queue is closed and holds no job: none will ever come.
    Closed,
    /// The queue is open and holds no job: one may still come.
    Empty,
}

/// An unbounded queue of jobs with a close signal.
pub struct JobQueue<J> {
    pending: VecDeque<J>,
    closed: bool,
}

impl<J> View for JobQueue<J> {
    type V = QueueView<J>;

    closed spec fn view(&self) -> QueueView<J> {
        QueueView { pending: self.pending@, closed: self.closed }
    }
}

impl<J> QueueView<J> {
    /// The queue that nothing was sent to yet.
    pub open spec fn fresh() -> Self {
        QueueView { pending: Seq::empty(), closed: false }
    }

    /// The queue after `send(job)`: a closed queue takes nothing.
    pub open spec fn send(self, job: J) -> Self {
        if self.closed {
            self
        } else {
            QueueView { pending: self.pending.push(job), closed: self.closed }
        }
    }

    /// The queue after `receive()`: the oldest job is gone, if there was one.
    pub open spec fn receive(self) -> Self {
        if self.pending.len() > 0 {
            QueueView { pending: self.pending.drop_first(), closed: self.closed }
        } else {
            self
        }
    }

    /// What `receive()` answers on this queue.
    pub open spec fn front(self) -> Received<J> {
        if self.pending.len() > 0 {
            Received::Job(self.pending[0])
        } else if self.closed {
            Received::Closed
        } else {
            Received::Empty
        }
    }

    /// The queue after `close()`: pending jobs stay.
    pub open spec fn close(self) -> Self {
        QueueView { pending: self.pending, closed: true }
    }

    /// The queue after each of `jobs` was sent, the first of them first.
    pub open spec fn send_all(self, jobs: Seq<J>) -> Self
        decreases jobs.len(),
    {
        if jobs.len() == 0 {
            self
        } else {
            self.send_all(jobs.drop_last()).send(jobs.last())
        }
    }

    /// The queue after `count` receives.
    pub open spec fn receive_many(self, count: nat) -> Self
        decreases count,
    {
        if count == 0 {
            self
        } else {
            self.receive_many((count - 1) as nat).receive()
        }
    }
}

/// An open queue takes every job, behind the jobs that it holds; a closed
/// queue takes none.
pub proof fn lemma_send_all<J>(queue: QueueView<J>, jobs: Seq<J>)
    ensures
        queue.send_all(jobs).closed == queue.closed,
        !queue.closed ==> queue.send_all(jobs).pending == queue.pending + jobs,
        queue.closed ==> queue.send_all(jobs) == queue,
    decreases jobs.len(),
{
    if jobs.len() > 0 {
        lemma_send_all(queue, jobs.drop_last());
        if !queue.closed {
            assert(queue.send_all(jobs).pending =~= queue.pending + jobs);
        }
    } else {
        assert(queue.pending + jobs =~= queue.pending);
    }
}

/// Receiving takes jobs from the front, one at a time, and nothing once the
/// queue is empty.
pub proof fn lemma_receive_many<J>(queue: QueueView<J>, count: nat)
    ensures
        queue.receive_many(count).closed == queue.closed,
        count <= queue.pending.len() ==> queue.receive_many(count).pending
            == queue.pending.skip(count as int),
        count >= queue.pending.len() ==> queue.receive_many(count).pending.len() == 0,
    decreases count,
{
    if count > 0 {
        lemma_receive_many(queue, (count - 1) as nat);
        if count <= queue.pending.len() {
            assert(queue.receive_many(count).pending =~= queue.pending.skip(count as int));
        }
    } else {
        assert(queue.pending.skip(0) =~= queue.pending);
    }
}

/// First in, first out: the receive that follows `count` others answers
/// with the job that was sent after `count` others.
pub proof fn lemma_first_in_first_out<J>(jobs: Seq<J>, count: nat)
    requires
        count < jobs.len(),
    ensures
        QueueView::<J>::fresh().send_all(jobs).receive_many(count).front() == Received::Job(
            jobs[count as int],
        ),
{
    let filled = QueueView::<J>::fresh().send_all(jobs);
    lemma_send_all(QueueView::<J>::fresh(), jobs);
    assert(filled.pending =~= jobs);
    lemma_receive_many(filled, count);
}

/// Closing drops nothing: a closed queue still hands out every job that it
/// holds, oldest first, and says that it is closed only after the last.
pub proof fn lemma_closed_queue_drains<J>(queue: QueueView<J>, count: nat)
    ensures
        queue.close().pending == queue.pending,
        queue.close().close() == queue.close(),
        count < queue.pending.len() ==> queue.close().receive_many(count).front()
            == Received::Job(queue.pending[count as int]),
        count >= queue.pending.len() ==> queue.close().receive_many(count).front()
            == Received::<J>::Closed,
{
    lemma_receive_many(queue.close(), count);
}

impl<J> JobQueue<J> {
    /// An open queue with no job in it.
    pub fn new() -> (queue: Self)
        ensures
            queue@ == QueueView::<J>::fresh(),
    {
        JobQueue { pending: VecDeque::new(), closed: false }
    }

    /// Appends `job` behind all pending jobs. A closed queue takes no job and
    /// says so.
    pub fn send(&mut self, job: J) -> (result: Result<(), PoolError>)
        ensures
            final(self)@ == old(self)@.send(job),
            result == if old(self)@.closed {
                Err::<(), PoolError>(PoolError::ChannelClosed)
            } else {
                Ok::<(), PoolError>(())
            },
    {
        if self.closed {
            Err(PoolError::ChannelClosed)
        } else {
            self.pending.push_back(job);
            Ok(())
        }
    }

    /// Removes and returns the oldest pending job. With no job pending it
    /// says whether one may still come.
    pub fn receive(&mut self) -> (received: Received<J>)
        ensures
            received == old(self)@.front(),
            final(self)@ == old(self)@.receive(),
    {
        match self.pending.pop_front() {
            Some(job) => {
                assert(self.pending@ =~= old(self).pending@.drop_first());
                Received::Job(job)
            },
            None => {
                if self.closed {
                    Received::Closed
                } else {
                    Received::Empty
                }
            },
        }
    }

    /// Closes the queue. Pending jobs stay and are still delivered; closing
    /// a closed queue changes nothing.
    pub fn close(&mut self)
        ensures
            final(self)@ == old(self)@.close(),
    {
        self.closed = true;
    }

    /// Whether the queue has been closed.
    pub fn is_closed(&self) -> (closed: bool)
        ensures
            closed == self@.closed,
    {
        self.closed
    }

    /// The number of pending jobs.
    pub fn len(&self) -> (n: usize)
        ensures
            n == self@.pending.len(),
    {
        self.pending.len()
    }

    /// Whether no job is pending.
    pub fn is_empty(&self) -> (empty: bool)
        ensures
            empty == (self@.pending.len() == 0),
    {
        self.pending.len() == 0
    }
}

} // verus!
