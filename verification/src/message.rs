use vstd::prelude::*;

verus! {

/// One entry in the shared job queue: either a unit of work, named by the
/// ticket the pool handed out when the submission was accepted, or a
/// terminate signal telling exactly one worker to exit its loop.
#[derive(Clone, Copy, Debug, PartialEq, Eq, Structural)]
pub enum Message {
    Job(u64),
    Terminate,
}

/// The lifecycle of one worker, as the pool tracks it: blocked on the
/// queue, executing the job with the given ticket, or out of its loop.
#[derive(Clone, Copy, Debug, PartialEq, Eq, Structural)]
pub enum WorkerState {
    Idle,
    Running(u64),
    Terminated,
}

/// Everything that can go wrong at the pool's interface.
#[derive(Clone, Copy, Debug, PartialEq, Eq, Structural)]
pub enum PoolError {
    /// A pool of zero workers was asked for; no such pool is ever built.
    ConfigError,
    /// A submission arrived at a queue already closed to new work.
    QueueClosed,
    /// A submission arrived at a pool whose shutdown has begun.
    PoolShuttingDown,
}

} // verus!
