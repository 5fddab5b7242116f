use webserver::pool::{PoolError, ThreadPool, WorkerPhase};
use webserver::queue::{RecvOutcome, SendError};

#[test]
fn zero_size_pool_is_rejected() {
    match ThreadPool::new(0) {
        Err(e) => assert_eq!(e, PoolError::ZeroSize),
        Ok(_) => panic!("a pool of size zero must fail construction"),
    }
}

#[test]
fn new_pool_is_idle_and_open() {
    let pool = ThreadPool::new(4).unwrap();
    assert_eq!(pool.size(), 4);
    assert!(!pool.is_closed());
    assert_eq!(pool.pending(), 0);
    for w in 0..4 {
        assert_eq!(pool.worker_phase(w), WorkerPhase::Idle);
    }
    assert!(pool.submitted_jobs().is_empty());
    assert!(pool.executed_jobs().is_empty());
}

#[test]
fn execute_assigns_sequential_ids() {
    let mut pool = ThreadPool::new(2).unwrap();
    assert_eq!(pool.execute(), Ok(0));
    assert_eq!(pool.execute(), Ok(1));
    assert_eq!(pool.execute(), Ok(2));
    assert_eq!(pool.pending(), 3);
    assert_eq!(pool.submitted_jobs().as_slice(), &[0, 1, 2]);
}

#[test]
fn every_job_runs_exactly_once() {
    // Five jobs on three workers, under an arbitrary interleaving; after
    // shutdown each job has been executed exactly once.
    let mut pool = ThreadPool::new(3).unwrap();
    for _ in 0..5 {
        pool.execute().unwrap();
    }
    assert_eq!(pool.worker_recv(0), RecvOutcome::Job(0));
    assert_eq!(pool.worker_recv(1), RecvOutcome::Job(1));
    pool.worker_finish(1);
    assert_eq!(pool.worker_recv(1), RecvOutcome::Job(2));
    pool.worker_finish(0);
    pool.shutdown();
    let mut done = pool.executed_jobs().clone();
    done.sort();
    assert_eq!(done, vec![0, 1, 2, 3, 4]);
}

#[test]
fn submit_after_shutdown_is_disconnected() {
    let mut pool = ThreadPool::new(2).unwrap();
    pool.execute().unwrap();
    pool.shutdown();
    assert!(pool.is_closed());
    assert_eq!(pool.execute(), Err(SendError::Disconnected));
    // The rejected job left no trace.
    assert_eq!(pool.submitted_jobs().as_slice(), &[0]);
}

#[test]
fn shutdown_completes_with_jobs_in_flight() {
    // One job mid-execution and two still queued: shutdown drains them all,
    // terminates every worker and returns.
    let mut pool = ThreadPool::new(2).unwrap();
    for _ in 0..3 {
        pool.execute().unwrap();
    }
    assert_eq!(pool.worker_recv(0), RecvOutcome::Job(0));
    assert_eq!(pool.worker_phase(0), WorkerPhase::Running(0));
    pool.shutdown();
    assert_eq!(pool.pending(), 0);
    for w in 0..2 {
        assert_eq!(pool.worker_phase(w), WorkerPhase::Terminated);
    }
    let mut done = pool.executed_jobs().clone();
    done.sort();
    assert_eq!(done, vec![0, 1, 2]);
}

#[test]
fn double_shutdown_is_noop() {
    let mut pool = ThreadPool::new(2).unwrap();
    pool.execute().unwrap();
    pool.shutdown();
    let done = pool.executed_jobs().clone();
    pool.shutdown();
    assert_eq!(pool.executed_jobs(), &done);
}

#[test]
fn single_worker_runs_in_submission_order() {
    let mut pool = ThreadPool::new(1).unwrap();
    for _ in 0..4 {
        pool.execute().unwrap();
    }
    pool.shutdown();
    assert_eq!(pool.executed_jobs().as_slice(), &[0, 1, 2, 3]);
}

#[test]
fn two_workers_run_concurrently() {
    // With idle capacity, two jobs submitted back to back are both
    // mid-execution at the same time.
    let mut pool = ThreadPool::new(2).unwrap();
    pool.execute().unwrap();
    pool.execute().unwrap();
    assert_eq!(pool.worker_recv(0), RecvOutcome::Job(0));
    assert_eq!(pool.worker_recv(1), RecvOutcome::Job(1));
    assert_eq!(pool.worker_phase(0), WorkerPhase::Running(0));
    assert_eq!(pool.worker_phase(1), WorkerPhase::Running(1));
    pool.shutdown();
}

#[test]
fn idle_worker_waits_while_pool_is_open() {
    let mut pool = ThreadPool::new(1).unwrap();
    assert_eq!(pool.worker_recv(0), RecvOutcome::Waiting);
    assert_eq!(pool.worker_phase(0), WorkerPhase::Idle);
    pool.shutdown();
}

#[test]
fn three_records_slow_first_worker() {
    // Pool of two; job A (id 0) is slow, job B (id 1) briefly busy, job C
    // (id 2) immediate. B and C may finish in either order — here C runs
    // after B on the same worker — but A always finishes last, and all
    // three records are present exactly once.
    let mut pool = ThreadPool::new(2).unwrap();
    let a = pool.execute().unwrap();
    let b = pool.execute().unwrap();
    let c = pool.execute().unwrap();
    assert_eq!(pool.worker_recv(0), RecvOutcome::Job(a));
    assert_eq!(pool.worker_recv(1), RecvOutcome::Job(b));
    // B's short sleep elapses while A still runs.
    pool.worker_finish(1);
    assert_eq!(pool.worker_recv(1), RecvOutcome::Job(c));
    pool.worker_finish(1);
    // A's long sleep finally elapses.
    pool.worker_finish(0);
    pool.shutdown();
    let records: Vec<&str> = pool
        .executed_jobs()
        .iter()
        .map(|id| match *id {
            0 => "A",
            1 => "B",
            _ => "C",
        })
        .collect();
    assert_eq!(records, vec!["B", "C", "A"]);
    assert_eq!(records.iter().filter(|r| **r == "A").count(), 1);
    assert_eq!(records.iter().filter(|r| **r == "B").count(), 1);
    assert_eq!(records.iter().filter(|r| **r == "C").count(), 1);
    assert_eq!(records.last(), Some(&"A"));
}
