//! The worker pool: a fixed set of long-lived workers sharing one closable
//! job queue.
//!
//! This module verifies the pool's coordination logic as an explicit state
//! machine. Each job is known by the identifier `execute` assigned to it;
//! running a job's body, like spawning the thread a worker lives on, is the
//! unverified driver's affair. The driver moves the machine only through the
//! exec functions here — `execute`, `worker_recv`, `worker_finish`, `close`,
//! `shutdown` — and their contracts pin down every transition, so anything
//! proved of the invariant holds of every schedule the driver can produce.

use vstd::prelude::*;
use vstd::multiset::Multiset;
use crate::queue::{JobQueue, RecvOutcome, SendError};

verus! {

broadcast use vstd::seq_lib::group_to_multiset_ensures, vstd::multiset::group_multiset_axioms;

/// Where a worker stands in its lifecycle: blocked on `receive`, executing
/// the job it received, or exited after observing queue closure. A worker
/// leaves `Running` only by finishing its job, and terminates only from
/// `Idle`, in response to closure — never mid-job.
#[derive(Clone, Copy, Debug, PartialEq, Eq, Structural)]
pub enum WorkerPhase {
    Idle,
    Running(u64),
    Terminated,
}

/// One long-lived worker: a stable identifier, assigned at pool
/// construction and equal to the worker's index in the pool, and the phase
/// its thread is in.
#[derive(Clone, Copy, Debug, PartialEq, Eq, Structural)]
pub struct Worker {
    pub id: usize,
    pub phase: WorkerPhase,
}

impl Worker {
    /// A fresh worker record, idle and ready to block on `receive`.
    pub fn new(id: usize) -> (w: Worker)
        ensures
            w == (Worker { id, phase: WorkerPhase::Idle }),
    {
        Worker { id, phase: WorkerPhase::Idle }
    }
}

/// The error `ThreadPool::new` reports: a pool of zero workers could never
/// make progress, so construction is rejected before anything is spawned.
#[derive(Clone, Copy, Debug, PartialEq, Eq, Structural)]
pub enum PoolError {
    ZeroSize,
}

/// The abstract state of a [`ThreadPool`].
///
/// `submitted`, `delivered` and `executed` record the history that the
/// pool's guarantees speak of: the jobs accepted by `execute` in submission
/// order, the jobs handed to workers in delivery order, and the jobs whose
/// execution has finished, in completion order.
pub ghost struct PoolModel {
    pub workers: Seq<Worker>,
    pub queue: Seq<u64>,
    pub closed: bool,
    pub next_job: nat,
    pub submitted: Seq<u64>,
    pub delivered: Seq<u64>,
    pub executed: Seq<u64>,
}

/// The multiset of jobs a single worker is executing: one job when running,
/// none otherwise.
pub open spec fn phase_ms(p: WorkerPhase) -> Multiset<u64> {
    match p {
        WorkerPhase::Running(j) => Multiset::empty().insert(j),
        _ => Multiset::empty(),
    }
}

/// The job sequence a single worker is executing, for ordering arguments:
/// at most one element.
pub open spec fn phase_seq(p: WorkerPhase) -> Seq<u64> {
    match p {
        WorkerPhase::Running(j) => seq![j],
        _ => Seq::empty(),
    }
}

/// All jobs currently being executed, across the whole pool.
pub open spec fn running_ms(ws: Seq<Worker>) -> Multiset<u64>
    decreases ws.len(),
{
    if ws.len() == 0 {
        Multiset::empty()
    } else {
        running_ms(ws.drop_last()).add(phase_ms(ws.last().phase))
    }
}

/// Worker identifiers are their indices: an arena-style fixed vector.
pub open spec fn ids_ok(ws: Seq<Worker>) -> bool {
    forall|i: int| 0 <= i < ws.len() ==> (#[trigger] ws[i]).id == i
}

/// Every worker has exited its loop.
pub open spec fn all_terminated(ws: Seq<Worker>) -> bool {
    forall|i: int| 0 <= i < ws.len() ==> (#[trigger] ws[i]).phase is Terminated
}

/// At least one worker has exited its loop.
pub open spec fn some_terminated(ws: Seq<Worker>) -> bool {
    exists|i: int| 0 <= i < ws.len() && (#[trigger] ws[i]).phase is Terminated
}

/// The pool invariant, preserved by every transition.
///
/// - The pool never has zero workers, and worker identifiers are indices.
/// - Identifiers are assigned in order: the submission history is exactly
///   `0, 1, ..., next_job - 1`, so accepted jobs are pairwise distinct.
/// - Delivery is first-in-first-out: the jobs delivered so far, in delivery
///   order, followed by the jobs still queued, in queue order, are exactly
///   the jobs submitted, in submission order. No accepted job is dropped,
///   duplicated or reordered by the queue.
/// - Every delivered job is either executed or on exactly one worker.
/// - A worker terminates only once the queue is closed and drained, and the
///   queue can never refill afterwards.
/// - With a single worker, completions follow delivery order exactly.
pub open spec fn inv(m: PoolModel) -> bool {
    &&& m.workers.len() >= 1
    &&& ids_ok(m.workers)
    &&& m.next_job <= u64::MAX
    &&& m.submitted == Seq::new(m.next_job, |i: int| i as u64)
    &&& m.submitted == m.delivered + m.queue
    &&& m.delivered.to_multiset() == m.executed.to_multiset().add(running_ms(m.workers))
    &&& (some_terminated(m.workers) ==> m.closed && m.queue.len() == 0)
    &&& (m.workers.len() == 1 ==> m.delivered == m.executed + phase_seq(m.workers[0].phase))
}

/// Updating one worker's phase exchanges exactly that worker's contribution
/// to the pool-wide multiset of running jobs.
proof fn lemma_running_ms_update(ws: Seq<Worker>, i: int, wk: Worker)
    requires
        0 <= i < ws.len(),
    ensures
        running_ms(ws.update(i, wk)).add(phase_ms(ws[i].phase)) =~= running_ms(ws).add(
            phase_ms(wk.phase),
        ),
    decreases ws.len(),
{
    let upd = ws.update(i, wk);
    if i == ws.len() - 1 {
        assert(upd.drop_last() =~= ws.drop_last());
        assert(upd.last() == wk);
        assert(running_ms(upd) == running_ms(ws.drop_last()).add(phase_ms(wk.phase)));
        assert(running_ms(ws) == running_ms(ws.drop_last()).add(phase_ms(ws[i].phase)));
        assert forall|x: u64|
            running_ms(upd).add(phase_ms(ws[i].phase)).count(x) == running_ms(ws).add(
                phase_ms(wk.phase),
            ).count(x) by {
            assert(running_ms(upd).add(phase_ms(ws[i].phase)).count(x) == running_ms(upd).count(x)
                + phase_ms(ws[i].phase).count(x));
            assert(running_ms(ws).add(phase_ms(wk.phase)).count(x) == running_ms(ws).count(x)
                + phase_ms(wk.phase).count(x));
            assert(running_ms(ws.drop_last()).add(phase_ms(wk.phase)).count(x) == running_ms(
                ws.drop_last(),
            ).count(x) + phase_ms(wk.phase).count(x));
            assert(running_ms(ws.drop_last()).add(phase_ms(ws[i].phase)).count(x) == running_ms(
                ws.drop_last(),
            ).count(x) + phase_ms(ws[i].phase).count(x));
        }
    } else {
        let dl = ws.drop_last();
        assert(upd.drop_last() =~= dl.update(i, wk));
        assert(upd.last() == ws.last());
        lemma_running_ms_update(dl, i, wk);
        assert(running_ms(upd) == running_ms(dl.update(i, wk)).add(phase_ms(ws.last().phase)));
        assert(running_ms(ws) == running_ms(dl).add(phase_ms(ws.last().phase)));
        assert(dl[i] == ws[i]);
        assert forall|x: u64|
            running_ms(upd).add(phase_ms(ws[i].phase)).count(x) == running_ms(ws).add(
                phase_ms(wk.phase),
            ).count(x) by {
            assert(running_ms(dl.update(i, wk)).add(phase_ms(dl[i].phase)).count(x) == running_ms(
                dl,
            ).add(phase_ms(wk.phase)).count(x));
            assert(running_ms(dl.update(i, wk)).add(phase_ms(dl[i].phase)).count(x) == running_ms(
                dl.update(i, wk),
            ).count(x) + phase_ms(dl[i].phase).count(x));
            assert(running_ms(dl).add(phase_ms(wk.phase)).count(x) == running_ms(dl).count(x)
                + phase_ms(wk.phase).count(x));
            assert(running_ms(upd).add(phase_ms(ws[i].phase)).count(x) == running_ms(upd).count(x)
                + phase_ms(ws[i].phase).count(x));
            assert(running_ms(ws).add(phase_ms(wk.phase)).count(x) == running_ms(ws).count(x)
                + phase_ms(wk.phase).count(x));
            assert(running_ms(dl.update(i, wk)).add(phase_ms(ws.last().phase)).count(x)
                == running_ms(dl.update(i, wk)).count(x) + phase_ms(ws.last().phase).count(x));
            assert(running_ms(dl).add(phase_ms(ws.last().phase)).count(x) == running_ms(dl).count(
                x,
            ) + phase_ms(ws.last().phase).count(x));
        }
    }
}

/// A pool in which no worker is running a job contributes nothing to the
/// multiset of running jobs.
proof fn lemma_running_ms_none(ws: Seq<Worker>)
    requires
        forall|i: int| 0 <= i < ws.len() ==> !((#[trigger] ws[i]).phase is Running),
    ensures
        running_ms(ws) =~= Multiset::<u64>::empty(),
    decreases ws.len(),
{
    if ws.len() > 0 {
        lemma_running_ms_none(ws.drop_last());
    }
}

/// The state after worker `w`, idle, receives the oldest queued job: the
/// job leaves the queue, is appended to the delivery history, and the worker
/// runs it.
pub open spec fn deliver_step(m: PoolModel, w: int) -> PoolModel {
    PoolModel {
        workers: m.workers.update(
            w,
            Worker { id: m.workers[w].id, phase: WorkerPhase::Running(m.queue[0]) },
        ),
        queue: m.queue.drop_first(),
        delivered: m.delivered.push(m.queue[0]),
        ..m
    }
}

/// The state after worker `w`, idle on a closed, drained queue, observes
/// closure and exits its loop.
pub open spec fn terminate_step(m: PoolModel, w: int) -> PoolModel {
    PoolModel {
        workers: m.workers.update(
            w,
            Worker { id: m.workers[w].id, phase: WorkerPhase::Terminated },
        ),
        ..m
    }
}

/// The state after worker `w` finishes the job it was running: the worker is
/// idle again and the job is appended to the completion history.
pub open spec fn finish_step(m: PoolModel, w: int) -> PoolModel {
    PoolModel {
        workers: m.workers.update(w, Worker { id: m.workers[w].id, phase: WorkerPhase::Idle }),
        executed: m.executed.push(running_job(m.workers[w].phase)),
        ..m
    }
}

/// The job a running worker holds.
pub open spec fn running_job(p: WorkerPhase) -> u64
    recommends
        p is Running,
{
    match p {
        WorkerPhase::Running(j) => j,
        _ => 0,
    }
}

/// A termination measure for a worker's remaining moves once the queue is
/// closed: every receive, finish or exit strictly shrinks it.
pub open spec fn drain_measure(m: PoolModel, w: int) -> nat
    recommends
        0 <= w < m.workers.len(),
{
    3 * m.queue.len() + phase_weight(m.workers[w].phase)
}

/// How many moves a worker has left before terminating, ignoring the queue:
/// a running worker must finish and then observe closure; an idle one must
/// observe closure; a terminated one is done.
pub open spec fn phase_weight(p: WorkerPhase) -> nat {
    match p {
        WorkerPhase::Running(_) => 2,
        WorkerPhase::Idle => 1,
        WorkerPhase::Terminated => 0,
    }
}

/// A fixed-size pool of workers sharing one job queue.
///
/// The pool owns the producing side of the queue; its size is set once at
/// construction and never changes. `execute` accepts a job, `close` shuts
/// the producing side, `worker_recv` and `worker_finish` are the two moves
/// of a worker's loop, and `shutdown` runs the whole teardown: close, drain,
/// join every worker.
pub struct ThreadPool {
    workers: Vec<Worker>,
    queue: JobQueue,
    next_job: u64,
    submitted: Vec<u64>,
    delivered: Ghost<Seq<u64>>,
    executed: Vec<u64>,
}

impl View for ThreadPool {
    type V = PoolModel;

    closed spec fn view(&self) -> PoolModel {
        PoolModel {
            workers: self.workers@,
            queue: self.queue@.items,
            closed: self.queue@.closed,
            next_job: self.next_job as nat,
            submitted: self.submitted@,
            delivered: self.delivered@,
            executed: self.executed@,
        }
    }
}

impl ThreadPool {
    /// The pool invariant, as seen by callers.
    pub open spec fn wf(&self) -> bool {
        inv(self@)
    }

    /// Creates a pool of `pool_size` workers, each idle and blocked on
    /// `receive`, with an empty, open queue and an empty history.
    ///
    /// A pool of size zero is a programming error: construction is rejected
    /// and no worker exists.
    pub fn new(pool_size: usize) -> (r: Result<ThreadPool, PoolError>)
        ensures
            pool_size == 0 ==> r == Err::<ThreadPool, PoolError>(PoolError::ZeroSize),
            pool_size >= 1 ==> (r matches Ok(p) && p.wf() && p@ == (PoolModel {
                workers: Seq::new(
                    pool_size as nat,
                    |i: int| Worker { id: i as usize, phase: WorkerPhase::Idle },
                ),
                queue: Seq::<u64>::empty(),
                closed: false,
                next_job: 0,
                submitted: Seq::<u64>::empty(),
                delivered: Seq::<u64>::empty(),
                executed: Seq::<u64>::empty(),
            })),
    {
        if pool_size == 0 {
            return Err(PoolError::ZeroSize);
        }
        let queue = JobQueue::new();
        let mut workers: Vec<Worker> = Vec::new();
        let mut id: usize = 0;
        while id < pool_size
            invariant
                id <= pool_size,
                workers@.len() == id,
                forall|i: int|
                    0 <= i < id ==> workers@[i] == (Worker {
                        id: i as usize,
                        phase: WorkerPhase::Idle,
                    }),
            decreases pool_size - id,
        {
            workers.push(Worker::new(id));
            id += 1;
        }
        let pool = ThreadPool {
            workers,
            queue,
            next_job: 0,
            submitted: Vec::new(),
            delivered: Ghost(Seq::empty()),
            executed: Vec::new(),
        };
        proof {
            assert(pool@.workers =~= Seq::new(
                pool_size as nat,
                |i: int| Worker { id: i as usize, phase: WorkerPhase::Idle },
            ));
            assert(pool@.submitted =~= Seq::new(0, |i: int| i as u64));
            assert(pool@.submitted =~= pool@.delivered + pool@.queue);
            lemma_running_ms_none(pool@.workers);
            assert(pool@.delivered.to_multiset() =~= pool@.executed.to_multiset().add(
                running_ms(pool@.workers),
            ));
        }
        Ok(pool)
    }

    /// How many workers the pool was built with; fixed for its lifetime.
    pub fn size(&self) -> (n: usize)
        ensures
            n == self@.workers.len(),
    {
        self.workers.len()
    }

    /// Whether submission has been closed.
    pub fn is_closed(&self) -> (b: bool)
        ensures
            b == self@.closed,
    {
        self.queue.is_closed()
    }

    /// How many accepted jobs are still waiting for a worker.
    pub fn pending(&self) -> (n: usize)
        ensures
            n == self@.queue.len(),
    {
        self.queue.len()
    }

    /// The phase worker `w` is currently in.
    pub fn worker_phase(&self, w: usize) -> (p: WorkerPhase)
        requires
            w < self@.workers.len(),
        ensures
            p == self@.workers[w as int].phase,
    {
        self.workers[w].phase
    }

    /// The identifiers of all jobs accepted so far, in submission order.
    pub fn submitted_jobs(&self) -> (v: &Vec<u64>)
        ensures
            v@ == self@.submitted,
    {
        &self.submitted
    }

    /// The identifiers of all jobs whose execution has finished, in
    /// completion order.
    pub fn executed_jobs(&self) -> (v: &Vec<u64>)
        ensures
            v@ == self@.executed,
    {
        &self.executed
    }

    /// Accepts a job, assigns it the next identifier and enqueues it, unless
    /// submission has been closed, in which case the call fails with
    /// `Disconnected` and the pool is untouched — a rejected job is never
    /// silently swallowed. Never blocks: submission is decoupled from
    /// execution, and the caller gets no result channel back.
    pub fn execute(&mut self) -> (r: Result<u64, SendError>)
        requires
            old(self).wf(),
            old(self)@.next_job < u64::MAX,
        ensures
            final(self).wf(),
            old(self)@.closed ==> r == Err::<u64, SendError>(SendError::Disconnected)
                && final(self)@ == old(self)@,
            !old(self)@.closed ==> r == Ok::<u64, SendError>(old(self)@.next_job as u64)
                && final(self)@ == (PoolModel {
                    queue: old(self)@.queue.push(old(self)@.next_job as u64),
                    next_job: old(self)@.next_job + 1,
                    submitted: old(self)@.submitted.push(old(self)@.next_job as u64),
                    ..old(self)@
                }),
    {
        let id = self.next_job;
        match self.queue.send(id) {
            Err(e) => Err(e),
            Ok(()) => {
                self.next_job = id + 1;
                self.submitted.push(id);
                proof {
                    assert(self@.submitted =~= Seq::new(self@.next_job, |i: int| i as u64));
                    assert(self@.submitted =~= self@.delivered + self@.queue);
                }
                Ok(id)
            },
        }
    }

    /// Closes the producing side of the queue: no further submission will
    /// succeed, and every worker still idle will observe closure once the
    /// buffered jobs are drained. Closing an already-closed pool is a no-op.
    pub fn close(&mut self)
        requires
            old(self).wf(),
        ensures
            final(self).wf(),
            final(self)@ == (PoolModel { closed: true, ..old(self)@ }),
    {
        self.queue.close();
    }

    /// One idle worker asks the queue for work. Exactly one of three things
    /// happens: the worker receives the oldest queued job and runs it; the
    /// queue is closed and drained, and the worker terminates; or the queue
    /// is open and empty, nothing changes, and a real worker stays blocked —
    /// the pool's only suspension point.
    pub fn worker_recv(&mut self, w: usize) -> (r: RecvOutcome)
        requires
            old(self).wf(),
            w < old(self)@.workers.len(),
            old(self)@.workers[w as int].phase is Idle,
        ensures
            final(self).wf(),
            old(self)@.queue.len() > 0 ==> r == RecvOutcome::Job(old(self)@.queue[0])
                && final(self)@ == deliver_step(old(self)@, w as int),
            old(self)@.queue.len() == 0 && old(self)@.closed ==> r == RecvOutcome::Closed
                && final(self)@ == terminate_step(old(self)@, w as int),
            old(self)@.queue.len() == 0 && !old(self)@.closed ==> r == RecvOutcome::Waiting
                && final(self)@ == old(self)@,
    {
        let ghost m = self@;
        match self.queue.receive() {
            RecvOutcome::Job(j) => {
                let id = self.workers[w].id;
                self.workers[w] = Worker { id, phase: WorkerPhase::Running(j) };
                proof {
                    self.delivered@ = self.delivered@.push(j);
                    let m2 = self@;
                    assert(m2 == deliver_step(m, w as int));
                    // FIFO: moving the queue head to the delivery history
                    // keeps `submitted == delivered + queue`.
                    assert(m.queue =~= seq![j] + m2.queue);
                    assert(m2.submitted =~= m2.delivered + m2.queue);
                    // Conservation: the job moves from the queue into the
                    // running multiset.
                    lemma_running_ms_update(m.workers, w as int, m2.workers[w as int]);
                    assert(m.delivered.push(j).to_multiset() =~= m.delivered.to_multiset().insert(
                        j,
                    ));
                    assert(phase_ms(m.workers[w as int].phase) =~= Multiset::<u64>::empty());
                    assert(phase_ms(m2.workers[w as int].phase) =~= Multiset::<u64>::empty().insert(
                        j,
                    ));
                    assert(running_ms(m2.workers) =~= running_ms(m.workers).insert(j)) by {
                        assert forall|x: u64|
                            running_ms(m2.workers).count(x) == running_ms(m.workers).insert(
                                j,
                            ).count(x) by {
                            assert(running_ms(m2.workers).add(
                                phase_ms(m.workers[w as int].phase),
                            ).count(x) == running_ms(m.workers).add(
                                phase_ms(m2.workers[w as int].phase),
                            ).count(x));
                        }
                    }
                    assert(m2.delivered.to_multiset() =~= m2.executed.to_multiset().add(
                        running_ms(m2.workers),
                    ));
                    // No worker terminated here, and none was terminated
                    // before (the queue was non-empty).
                    assert(!some_terminated(m2.workers)) by {
                        if some_terminated(m2.workers) {
                            let i = choose|i: int|
                                0 <= i < m2.workers.len() && (#[trigger] m2.workers[i]).phase
                                    is Terminated;
                            assert(m.workers[i].phase is Terminated);
                        }
                    }
                    if m2.workers.len() == 1 {
                        assert(m2.delivered =~= m2.executed + phase_seq(m2.workers[0].phase));
                    }
                }
                RecvOutcome::Job(j)
            },
            RecvOutcome::Closed => {
                let id = self.workers[w].id;
                self.workers[w] = Worker { id, phase: WorkerPhase::Terminated };
                proof {
                    let m2 = self@;
                    assert(m2 == terminate_step(m, w as int));
                    lemma_running_ms_update(m.workers, w as int, m2.workers[w as int]);
                    assert(phase_ms(m.workers[w as int].phase) =~= Multiset::<u64>::empty());
                    assert(phase_ms(m2.workers[w as int].phase) =~= Multiset::<u64>::empty());
                    assert(running_ms(m2.workers) =~= running_ms(m.workers)) by {
                        assert forall|x: u64|
                            running_ms(m2.workers).count(x) == running_ms(m.workers).count(
                                x,
                            ) by {
                            assert(running_ms(m2.workers).add(
                                phase_ms(m.workers[w as int].phase),
                            ).count(x) == running_ms(m.workers).add(
                                phase_ms(m2.workers[w as int].phase),
                            ).count(x));
                        }
                    }
                    assert(m2.delivered.to_multiset() =~= m2.executed.to_multiset().add(
                        running_ms(m2.workers),
                    ));
                    if m2.workers.len() == 1 {
                        assert(m2.delivered =~= m2.executed + phase_seq(m2.workers[0].phase));
                    }
                }
                RecvOutcome::Closed
            },
            RecvOutcome::Waiting => RecvOutcome::Waiting,
        }
    }

    /// Worker `w` finishes the job it was running and goes back to waiting
    /// for the next one. The job — executed exactly once — is appended to
    /// the completion history.
    ///
    /// Faults are isolated at the job boundary: the driver catches a
    /// faulting job and reports completion all the same, so the contract is
    /// one and the same whether the job returned or faulted — the worker
    /// survives, the queue stays usable, and nothing but the faulting job
    /// is affected. One bad job can neither shrink the pool nor leave the
    /// shared consuming side permanently unusable.
    pub fn worker_finish(&mut self, w: usize)
        requires
            old(self).wf(),
            w < old(self)@.workers.len(),
            old(self)@.workers[w as int].phase is Running,
        ensures
            final(self).wf(),
            final(self)@ == finish_step(old(self)@, w as int),
    {
        let ghost m = self@;
        let j: u64 = match self.workers[w].phase {
            WorkerPhase::Running(j) => j,
            _ => 0,
        };
        let id = self.workers[w].id;
        self.workers[w] = Worker { id, phase: WorkerPhase::Idle };
        self.executed.push(j);
        proof {
            let m2 = self@;
            assert(m2 == finish_step(m, w as int));
            // Conservation: the job moves from the running multiset into the
            // completion history.
            lemma_running_ms_update(m.workers, w as int, m2.workers[w as int]);
            assert(m.executed.push(j).to_multiset() =~= m.executed.to_multiset().insert(j));
            assert(phase_ms(m.workers[w as int].phase) =~= Multiset::<u64>::empty().insert(j));
            assert(phase_ms(m2.workers[w as int].phase) =~= Multiset::<u64>::empty());
            assert(running_ms(m2.workers).insert(j) =~= running_ms(m.workers)) by {
                assert forall|x: u64|
                    running_ms(m2.workers).insert(j).count(x) == running_ms(m.workers).count(
                        x,
                    ) by {
                    assert(running_ms(m2.workers).add(phase_ms(m.workers[w as int].phase)).count(x)
                        == running_ms(m.workers).add(phase_ms(m2.workers[w as int].phase)).count(
                        x,
                    ));
                }
            }
            assert(m2.delivered.to_multiset() =~= m2.executed.to_multiset().add(
                running_ms(m2.workers),
            ));
            // The set of terminated workers is untouched.
            assert(some_terminated(m2.workers) ==> some_terminated(m.workers)) by {
                if some_terminated(m2.workers) {
                    let i = choose|i: int|
                        0 <= i < m2.workers.len() && (#[trigger] m2.workers[i]).phase
                            is Terminated;
                    assert(m.workers[i].phase is Terminated);
                }
            }
            if m2.workers.len() == 1 {
                assert(m2.delivered =~= m2.executed + phase_seq(m2.workers[0].phase));
            }
        }
    }

    /// The rest of worker `w`'s loop once submission is closed: it keeps
    /// finishing and receiving until the queue reports closure, then exits.
    /// This is what joining worker `w` waits for. Verified to terminate —
    /// the closed queue only drains — so a join can never hang.
    pub fn run_worker(&mut self, w: usize)
        requires
            old(self).wf(),
            old(self)@.closed,
            w < old(self)@.workers.len(),
        ensures
            final(self).wf(),
            final(self)@.closed,
            final(self)@.workers.len() == old(self)@.workers.len(),
            forall|i: int|
                0 <= i < old(self)@.workers.len() && i != w ==> final(self)@.workers[i] == old(
                    self,
                )@.workers[i],
            final(self)@.workers[w as int].phase is Terminated,
            final(self)@.submitted == old(self)@.submitted,
            final(self)@.next_job == old(self)@.next_job,
            final(self)@.queue.len() == 0,
        decreases drain_measure(old(self)@, w as int),
    {
        let phase = self.workers[w].phase;
        match phase {
            WorkerPhase::Terminated => {
                proof {
                    assert(some_terminated(self@.workers));
                }
            },
            WorkerPhase::Running(_) => {
                self.worker_finish(w);
                self.run_worker(w);
            },
            WorkerPhase::Idle => {
                let _ = self.worker_recv(w);
                self.run_worker(w);
            },
        }
    }

    /// Orderly, complete teardown, run exactly once by the pool's owner (a
    /// second call finds every worker already terminated and is a no-op):
    /// closes submission, then waits for each worker in turn to finish its
    /// current job, drain what is still queued and exit, joining them all
    /// before returning.
    ///
    /// The contract is the pool's central guarantee: shutdown always
    /// completes — the drain is proved terminating for any mix of queued and
    /// running jobs, so no deadlock — and when it returns, every accepted
    /// job has been executed, none twice, none dropped. With a single
    /// worker, jobs were executed in exactly submission order.
    pub fn shutdown(&mut self)
        requires
            old(self).wf(),
        ensures
            final(self).wf(),
            final(self)@.closed,
            all_terminated(final(self)@.workers),
            final(self)@.workers.len() == old(self)@.workers.len(),
            final(self)@.submitted == old(self)@.submitted,
            final(self)@.queue.len() == 0,
            final(self)@.executed.to_multiset() == final(self)@.submitted.to_multiset(),
            final(self)@.workers.len() == 1 ==> final(self)@.executed == final(self)@.submitted,
    {
        self.close();
        let n = self.workers.len();
        let mut w: usize = 0;
        while w < n
            invariant
                self.wf(),
                self@.closed,
                n == self@.workers.len(),
                self@.submitted == old(self)@.submitted,
                w <= n,
                forall|i: int| 0 <= i < w ==> (#[trigger] self@.workers[i]).phase is Terminated,
            decreases n - w,
        {
            self.run_worker(w);
            w += 1;
        }
        proof {
            let m = self@;
            assert(all_terminated(m.workers));
            assert(some_terminated(m.workers));
            lemma_running_ms_none(m.workers);
            assert(m.delivered.to_multiset() =~= m.executed.to_multiset()) by {
                assert forall|x: u64|
                    m.delivered.to_multiset().count(x) == m.executed.to_multiset().count(x) by {
                    assert(m.executed.to_multiset().add(running_ms(m.workers)).count(x)
                        == m.executed.to_multiset().count(x) + running_ms(m.workers).count(x));
                }
            }
            assert(m.submitted =~= m.delivered);
            if m.workers.len() == 1 {
                assert(m.delivered =~= m.executed + phase_seq(m.workers[0].phase));
                assert(m.executed =~= m.submitted);
            }
        }
    }
}

/// Exactly-once execution (law): in any reachable pool state in which every
/// worker has terminated — the state `shutdown` leaves behind — the
/// completion history is a permutation of the submission history: every
/// accepted job has been executed exactly once, none dropped, none
/// duplicated.
pub proof fn lemma_all_jobs_run_exactly_once(m: PoolModel)
    requires
        inv(m),
        all_terminated(m.workers),
    ensures
        m.executed.to_multiset() == m.submitted.to_multiset(),
        forall|id: u64| m.submitted.contains(id) ==> m.executed.to_multiset().count(id) == 1,
{
    assert(m.workers[0].phase is Terminated);
    assert(some_terminated(m.workers));
    lemma_running_ms_none(m.workers);
    assert(m.delivered.to_multiset() =~= m.executed.to_multiset()) by {
        assert forall|x: u64|
            m.delivered.to_multiset().count(x) == m.executed.to_multiset().count(x) by {
            assert(m.executed.to_multiset().add(running_ms(m.workers)).count(x)
                == m.executed.to_multiset().count(x) + running_ms(m.workers).count(x));
        }
    }
    assert(m.submitted =~= m.delivered);
    assert(m.submitted.no_duplicates());
    m.submitted.lemma_multiset_has_no_duplicates();
    assert forall|id: u64| m.submitted.contains(id) implies m.executed.to_multiset().count(id)
        == 1 by {
        assert(m.submitted.to_multiset().contains(id));
    }
}

/// First-in-first-out offering (law): in every reachable pool state, the
/// jobs delivered to workers so far, in delivery order, are exactly the
/// oldest accepted jobs, in submission order — the queue offers jobs to the
/// racing consumers in the order they were submitted. Which worker takes
/// each job, and in which order jobs finish, stays deliberately open.
pub proof fn lemma_fifo_offering(m: PoolModel)
    requires
        inv(m),
    ensures
        m.delivered == m.submitted.take(m.delivered.len() as int),
        m.delivered.len() + m.queue.len() == m.submitted.len(),
{
    assert(m.delivered =~= m.submitted.take(m.delivered.len() as int));
}

/// Strict ordering with a single worker (law): a pool of size one executes
/// jobs in exactly submission order. At every reachable state the completion
/// history is a prefix of the submission history, and once the worker has
/// terminated the two are equal.
pub proof fn lemma_single_worker_strict_order(m: PoolModel)
    requires
        inv(m),
        m.workers.len() == 1,
    ensures
        m.executed.is_prefix_of(m.submitted),
        m.workers[0].phase is Terminated ==> m.executed == m.submitted,
{
    assert(m.submitted =~= m.executed + (phase_seq(m.workers[0].phase) + m.queue));
    assert(m.submitted.subrange(0, m.executed.len() as int) =~= m.executed);
    if m.workers[0].phase is Terminated {
        assert(some_terminated(m.workers));
        assert(m.executed =~= m.submitted);
    }
}

/// Concurrent execution with spare capacity (law): whenever at least two
/// workers are idle and at least two jobs are queued, the queue may deliver
/// to one worker and then the other before either finishes, leaving both
/// mid-execution at the same time — and the two run the two oldest jobs, in
/// submission order. `worker_recv` realises each `deliver_step`, so a pool
/// of size at least two can always use its spare capacity this way.
pub proof fn lemma_concurrent_delivery(m: PoolModel, w1: int, w2: int)
    requires
        inv(m),
        0 <= w1 < m.workers.len(),
        0 <= w2 < m.workers.len(),
        w1 != w2,
        m.workers[w1].phase is Idle,
        m.workers[w2].phase is Idle,
        m.queue.len() >= 2,
    ensures
        deliver_step(deliver_step(m, w1), w2).workers[w1].phase == WorkerPhase::Running(
            m.queue[0],
        ),
        deliver_step(deliver_step(m, w1), w2).workers[w2].phase == WorkerPhase::Running(
            m.queue[1],
        ),
{
}

} // verus!
