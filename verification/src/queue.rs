//! The job queue: a closable, unbounded, first-in-first-out buffer that
//! carries job identifiers from submitters to workers.
//!
//! `send` never blocks: if no worker is idle the job simply waits in the
//! buffer. Once the producing side has been closed, `send` fails with a
//! `Disconnected` error and `receive` reports `Closed` as soon as the buffer
//! is drained. A real consumer blocks inside `receive`; this sequential model
//! returns `Waiting` instead, and the caller retries once a producer has
//! made progress.

use vstd::prelude::*;

verus! {

/// The abstract state of a [`JobQueue`]: the jobs still buffered, oldest
/// first, and whether the producing side has been closed.
pub ghost struct QueueModel {
    pub items: Seq<u64>,
    pub closed: bool,
}

/// The error a submitter observes when it sends to a queue whose producing
/// side has already been closed. This is a lifecycle error, not a transient
/// fault: the job was not enqueued and never will be.
#[derive(Clone, Copy, Debug, PartialEq, Eq, Structural)]
pub enum SendError {
    Disconnected,
}

/// What a consumer observes when it asks the queue for the next job.
#[derive(Clone, Copy, Debug, PartialEq, Eq, Structural)]
pub enum RecvOutcome {
    /// The oldest buffered job, removed from the queue; ownership passes to
    /// the calling worker.
    Job(u64),
    /// The queue is closed and fully drained; the consumer must terminate.
    Closed,
    /// Nothing is buffered yet and the queue is still open; a blocking
    /// consumer would suspend here until a job arrives or the queue closes.
    Waiting,
}

/// A multi-producer, multi-consumer buffer of job identifiers, closable by
/// its owning pool. Each buffered job is delivered to exactly one consumer.
pub struct JobQueue {
    items: Vec<u64>,
    closed: bool,
}

impl View for JobQueue {
    type V = QueueModel;

    closed spec fn view(&self) -> QueueModel {
        QueueModel { items: self.items@, closed: self.closed }
    }
}

impl JobQueue {
    /// An empty, open queue.
    pub fn new() -> (q: JobQueue)
        ensures
            q@ == (QueueModel { items: Seq::<u64>::empty(), closed: false }),
    {
        JobQueue { items: Vec::new(), closed: false }
    }

    /// Enqueues a job for delivery. Succeeds exactly when the queue has not
    /// been closed; a rejected job leaves the queue unchanged.
    pub fn send(&mut self, job: u64) -> (r: Result<(), SendError>)
        ensures
            old(self)@.closed ==> r == Err::<(), SendError>(SendError::Disconnected)
                && final(self)@ == old(self)@,
            !old(self)@.closed ==> r == Ok::<(), SendError>(())
                && final(self)@ == (QueueModel { items: old(self)@.items.push(job), closed: false }),
    {
        if self.closed {
            Err(SendError::Disconnected)
        } else {
            self.items.push(job);
            Ok(())
        }
    }

    /// Hands the oldest buffered job to the calling consumer, or reports
    /// `Closed` once the queue is closed and drained. `Waiting` stands for
    /// the suspension of a blocking consumer on an open, empty queue.
    pub fn receive(&mut self) -> (r: RecvOutcome)
        ensures
            old(self)@.items.len() > 0 ==> r == RecvOutcome::Job(old(self)@.items[0])
                && final(self)@ == (QueueModel {
                    items: old(self)@.items.drop_first(),
                    closed: old(self)@.closed,
                }),
            old(self)@.items.len() == 0 && old(self)@.closed ==> r == RecvOutcome::Closed
                && final(self)@ == old(self)@,
            old(self)@.items.len() == 0 && !old(self)@.closed ==> r == RecvOutcome::Waiting
                && final(self)@ == old(self)@,
    {
        if self.items.len() > 0 {
            let j = self.items.remove(0);
            proof {
                assert(old(self)@.items.remove(0) =~= old(self)@.items.drop_first());
            }
            RecvOutcome::Job(j)
        } else if self.closed {
            RecvOutcome::Closed
        } else {
            RecvOutcome::Waiting
        }
    }

    /// Closes the producing side. Jobs already buffered stay and will still
    /// be delivered; further `send` calls fail. Closing twice is a no-op.
    pub fn close(&mut self)
        ensures
            final(self)@ == (QueueModel { items: old(self)@.items, closed: true }),
    {
        self.closed = true;
    }

    /// How many jobs are buffered and not yet delivered.
    pub fn len(&self) -> (n: usize)
        ensures
            n == self@.items.len(),
    {
        self.items.len()
    }

    /// Whether the producing side has been closed.
    pub fn is_closed(&self) -> (b: bool)
        ensures
            b == self@.closed,
    {
        self.closed
    }
}

} // verus!
