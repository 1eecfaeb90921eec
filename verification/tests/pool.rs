use servidor_rust::message::{Message, PoolError, WorkerState};
use servidor_rust::pool::ThreadPool;

#[test]
fn zero_workers_is_a_config_error() {
    let r = ThreadPool::new(0);
    assert!(matches!(r, Err(PoolError::ConfigError)));
}

#[test]
fn new_pool_has_all_workers_idle() {
    for n in 1..6usize {
        let p = ThreadPool::new(n).unwrap();
        assert_eq!(p.workers.len(), n);
        for w in 0..n {
            assert_eq!(p.workers[w].id, w);
            assert_eq!(p.workers[w].state, WorkerState::Idle);
            assert!(!p.workers[w].joined);
        }
        assert!(!p.shutting_down);
        assert_eq!(p.queue.pending.len(), 0);
        assert_eq!(p.failed_jobs, 0);
    }
}

#[test]
fn tickets_are_handed_out_in_order() {
    let mut p = ThreadPool::new(2).unwrap();
    assert_eq!(p.execute(), Ok(0));
    assert_eq!(p.execute(), Ok(1));
    assert_eq!(p.execute(), Ok(2));
    assert_eq!(p.queue.pending.len(), 3);
}

#[test]
fn five_jobs_on_two_workers_all_run_once() {
    // Pool of two, five independent jobs: after shutdown the counter of
    // executed jobs is exactly five and every worker has terminated.
    let mut p = ThreadPool::new(2).unwrap();
    for _ in 0..5 {
        p.execute().unwrap();
    }
    p.begin_shutdown();
    let mut counter: u64 = 0;
    let mut seen: Vec<u64> = Vec::new();
    let mut w: usize = 0;
    let mut guard: usize = 0;
    while !(p.workers[0].state == WorkerState::Terminated
        && p.workers[1].state == WorkerState::Terminated)
    {
        match p.take_message(w) {
            Some(Message::Job(id)) => {
                counter += 1;
                seen.push(id);
                p.job_finished(w, true);
            }
            Some(Message::Terminate) => {}
            None => {}
        }
        w = (w + 1) % 2;
        guard += 1;
        assert!(guard < 100, "the pool did not drain");
    }
    assert_eq!(counter, 5);
    assert_eq!(seen, vec![0, 1, 2, 3, 4]);
    assert_eq!(p.queue.pending.len(), 0);
}

#[test]
fn failed_job_does_not_stop_the_worker() {
    let mut p = ThreadPool::new(1).unwrap();
    p.execute().unwrap();
    p.execute().unwrap();
    assert_eq!(p.take_message(0), Some(Message::Job(0)));
    // the first job goes wrong; the worker reports it and keeps serving
    p.job_finished(0, false);
    assert_eq!(p.workers[0].state, WorkerState::Idle);
    assert_eq!(p.failed_jobs, 1);
    assert_eq!(p.take_message(0), Some(Message::Job(1)));
    p.job_finished(0, true);
    assert_eq!(p.failed_jobs, 1);
}

#[test]
fn jobs_submitted_before_shutdown_still_run() {
    let mut p = ThreadPool::new(2).unwrap();
    p.execute().unwrap();
    p.execute().unwrap();
    p.begin_shutdown();
    // two jobs, then two terminate signals, in that order
    let mut ran: u64 = 0;
    for w in [0usize, 1] {
        match p.take_message(w) {
            Some(Message::Job(_)) => {
                ran += 1;
                p.job_finished(w, true);
            }
            other => panic!("expected a job first, got {:?}", other),
        }
    }
    assert_eq!(ran, 2);
    for w in [0usize, 1] {
        assert_eq!(p.take_message(w), Some(Message::Terminate));
        assert_eq!(p.workers[w].state, WorkerState::Terminated);
    }
    assert_eq!(p.queue.pending.len(), 0);
}

#[test]
fn execute_after_shutdown_is_refused() {
    let mut p = ThreadPool::new(2).unwrap();
    p.execute().unwrap();
    p.begin_shutdown();
    let before = p.queue.pending.len();
    assert_eq!(p.execute(), Err(PoolError::PoolShuttingDown));
    // nothing was enqueued by the refused call
    assert_eq!(p.queue.pending.len(), before);
}

#[test]
fn shutdown_twice_is_a_no_op() {
    let mut p = ThreadPool::new(3).unwrap();
    p.begin_shutdown();
    // one terminate signal per worker, no job pending
    assert_eq!(p.queue.pending.len(), 3);
    p.begin_shutdown();
    // the second call broadcast nothing more
    assert_eq!(p.queue.pending.len(), 3);
    assert!(p.shutting_down);
}

#[test]
fn each_thread_is_claimed_for_joining_once() {
    let mut p = ThreadPool::new(2).unwrap();
    // before shutdown nothing may be joined
    assert!(!p.claim_join(0));
    p.begin_shutdown();
    assert!(p.claim_join(0));
    assert!(p.claim_join(1));
    // a second round of joining claims nothing
    assert!(!p.claim_join(0));
    assert!(!p.claim_join(1));
}

#[test]
fn join_failures_are_collected_not_fatal() {
    let mut p = ThreadPool::new(2).unwrap();
    p.begin_shutdown();
    assert!(p.claim_join(0));
    assert!(p.claim_join(1));
    // one thread fails to join; the other is still joined and reported
    p.join_finished(0, false);
    p.join_finished(1, true);
    assert_eq!(p.join_failures, 1);
}

#[test]
fn single_worker_serializes_jobs() {
    // Pool of one: the second job cannot start before the first one has
    // finished, because a busy worker receives nothing.
    let mut p = ThreadPool::new(1).unwrap();
    p.execute().unwrap();
    p.execute().unwrap();
    assert_eq!(p.take_message(0), Some(Message::Job(0)));
    assert_eq!(p.workers[0].state, WorkerState::Running(0));
    // the worker is still running the first job: nothing is handed out
    assert_eq!(p.take_message(0), None);
    p.job_finished(0, true);
    assert_eq!(p.take_message(0), Some(Message::Job(1)));
    assert_eq!(p.workers[0].state, WorkerState::Running(1));
}

#[test]
fn terminated_worker_receives_nothing() {
    let mut p = ThreadPool::new(1).unwrap();
    p.begin_shutdown();
    assert_eq!(p.take_message(0), Some(Message::Terminate));
    assert_eq!(p.workers[0].state, WorkerState::Terminated);
    assert_eq!(p.take_message(0), None);
}
