use webserver::queue::{JobQueue, RecvOutcome, SendError};

#[test]
fn empty_open_queue_waits() {
    let mut q = JobQueue::new();
    assert_eq!(q.len(), 0);
    assert!(!q.is_closed());
    assert_eq!(q.receive(), RecvOutcome::Waiting);
    assert_eq!(q.len(), 0);
}

#[test]
fn delivery_is_fifo() {
    let mut q = JobQueue::new();
    assert_eq!(q.send(1), Ok(()));
    assert_eq!(q.send(2), Ok(()));
    assert_eq!(q.send(3), Ok(()));
    assert_eq!(q.len(), 3);
    assert_eq!(q.receive(), RecvOutcome::Job(1));
    assert_eq!(q.receive(), RecvOutcome::Job(2));
    assert_eq!(q.receive(), RecvOutcome::Job(3));
    assert_eq!(q.receive(), RecvOutcome::Waiting);
}

#[test]
fn send_after_close_is_disconnected() {
    let mut q = JobQueue::new();
    q.close();
    assert!(q.is_closed());
    assert_eq!(q.send(4), Err(SendError::Disconnected));
    assert_eq!(q.len(), 0);
}

#[test]
fn close_keeps_buffered_jobs() {
    let mut q = JobQueue::new();
    assert_eq!(q.send(7), Ok(()));
    q.close();
    assert_eq!(q.receive(), RecvOutcome::Job(7));
    assert_eq!(q.receive(), RecvOutcome::Closed);
}

#[test]
fn double_close_is_noop() {
    let mut q = JobQueue::new();
    assert_eq!(q.send(9), Ok(()));
    q.close();
    q.close();
    assert!(q.is_closed());
    assert_eq!(q.len(), 1);
    assert_eq!(q.receive(), RecvOutcome::Job(9));
    assert_eq!(q.receive(), RecvOutcome::Closed);
}
