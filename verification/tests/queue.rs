use servidor_rust::message::{Message, PoolError};
use servidor_rust::queue::JobQueue;

#[test]
fn queue_hands_jobs_out_first_in_first_out() {
    let mut q = JobQueue::new();
    assert_eq!(q.submit(10), Ok(()));
    assert_eq!(q.submit(11), Ok(()));
    assert_eq!(q.submit(12), Ok(()));
    assert_eq!(q.take(), Some(Message::Job(10)));
    assert_eq!(q.take(), Some(Message::Job(11)));
    assert_eq!(q.take(), Some(Message::Job(12)));
    assert_eq!(q.take(), None);
}

#[test]
fn empty_queue_hands_out_nothing() {
    let mut q = JobQueue::new();
    assert_eq!(q.take(), None);
    assert_eq!(q.take(), None);
}

#[test]
fn closed_queue_refuses_jobs() {
    let mut q = JobQueue::new();
    assert_eq!(q.submit(1), Ok(()));
    q.close();
    assert_eq!(q.submit(2), Err(PoolError::QueueClosed));
    // the refused job was not enqueued: only the first job comes out
    assert_eq!(q.take(), Some(Message::Job(1)));
    assert_eq!(q.take(), None);
}

#[test]
fn terminate_signals_stay_behind_jobs() {
    let mut q = JobQueue::new();
    q.submit(7).unwrap();
    q.submit(8).unwrap();
    q.close();
    q.send_terminate();
    q.send_terminate();
    assert_eq!(q.take(), Some(Message::Job(7)));
    assert_eq!(q.take(), Some(Message::Job(8)));
    assert_eq!(q.take(), Some(Message::Terminate));
    assert_eq!(q.take(), Some(Message::Terminate));
    assert_eq!(q.take(), None);
}

#[test]
fn closing_twice_changes_nothing() {
    let mut q = JobQueue::new();
    q.submit(3).unwrap();
    q.close();
    q.close();
    assert_eq!(q.submit(4), Err(PoolError::QueueClosed));
    assert_eq!(q.take(), Some(Message::Job(3)));
    assert_eq!(q.take(), None);
}
