use vstd::prelude::*;
use crate::message::{Message, PoolError, WorkerState};
use crate::queue::JobQueue;
use crate::queue::jobs_of;
use crate::queue::terminates_of;

verus! {

/// One worker, as the pool sees it: its index in the roster, where it
/// stands in its loop, and whether its thread has already been claimed
/// for joining. The thread itself belongs to the embedding program.
#[derive(Clone, Copy, Debug, PartialEq, Eq, Structural)]
pub struct Worker {
    pub id: usize,
    pub state: WorkerState,
    pub joined: bool,
}

/// How many workers of a roster have left their loop.
pub open spec fn count_terminated(ws: Seq<Worker>) -> nat
    decreases ws.len(),
{
    if ws.len() == 0 {
        0
    } else {
        count_terminated(ws.drop_last()) + (if ws.last().state is Terminated {
            1nat
        } else {
            0nat
        })
    }
}

/// Changing one worker changes the count of terminated workers by what
/// that one worker contributes.
proof fn lemma_count_terminated_update(ws: Seq<Worker>, i: int, w: Worker)
    requires
        0 <= i < ws.len(),
    ensures
        count_terminated(ws.update(i, w)) + (if ws[i].state is Terminated { 1int } else { 0int })
            == count_terminated(ws) + (if w.state is Terminated { 1int } else { 0int }),
    decreases ws.len(),
{
    if i == ws.len() - 1 {
        assert(ws.update(i, w).drop_last() =~= ws.drop_last());
        assert(ws.update(i, w).last() == w);
    } else {
        lemma_count_terminated_update(ws.drop_last(), i, w);
        assert(ws.update(i, w).drop_last() =~= ws.drop_last().update(i, w));
        assert(ws.update(i, w).last() == ws.last());
    }
}

/// A roster of workers that have all left their loop counts full.
proof fn lemma_count_terminated_full(ws: Seq<Worker>)
    requires
        forall|k: int| 0 <= k < ws.len() ==> (#[trigger] ws[k].state) is Terminated,
    ensures
        count_terminated(ws) == ws.len(),
    decreases ws.len(),
{
    if ws.len() > 0 {
        assert(forall|k: int|
            0 <= k < ws.drop_last().len() ==> ws.drop_last()[k] == ws[k]);
        lemma_count_terminated_full(ws.drop_last());
    }
}

/// A fixed-size pool of workers around a shared FIFO job queue.
///
/// This is the coordination state of the pool: the queue, the roster of
/// worker states and the shutdown flag. An embedding program owns the
/// worker threads; each thread reports here, under one lock, to learn
/// what to do next. Every guarantee below is about this state.
pub struct ThreadPool {
    /// The shared channel of jobs and terminate signals.
    pub queue: JobQueue,
    /// One entry per worker thread, indexed by worker id.
    pub workers: Vec<Worker>,
    /// Whether shutdown has begun. Set once, never cleared.
    pub shutting_down: bool,
    /// The ticket the next accepted job will get.
    pub next_job: u64,
    /// How many jobs ended in an error. A failed job is reported here
    /// and nowhere else: it never takes its worker down.
    pub failed_jobs: u64,
    /// How many worker threads failed to join during shutdown. A failed
    /// join is reported here in aggregate; it never stops the joining of
    /// the remaining workers.
    pub join_failures: u64,
}

impl ThreadPool {
    /// How many workers the pool was built with.
    pub open spec fn num_workers(self) -> nat {
        self.workers@.len()
    }

    /// Every job ticket the pool has accepted, in submission order.
    pub open spec fn submitted_jobs(self) -> Seq<u64> {
        self.queue.submitted_jobs()
    }

    /// Every job ticket handed to a worker, in delivery order.
    pub open spec fn delivered_jobs(self) -> Seq<u64> {
        self.queue.delivered_jobs()
    }

    /// The job tickets still waiting in the queue, oldest first.
    pub open spec fn pending_jobs(self) -> Seq<u64> {
        self.queue.pending_jobs()
    }

    /// Whether shutdown has begun.
    pub open spec fn is_shutting_down(self) -> bool {
        self.shutting_down
    }

    /// The pool's invariant: the queue is well formed, the roster is
    /// fixed and indexed by worker id, the shutdown flag agrees with the
    /// queue's closed flag, terminate signals exist exactly from shutdown
    /// on and then number one per worker, tickets are handed out in
    /// order 0, 1, 2, ... and every delivered terminate signal is
    /// mirrored by one terminated worker.
    pub open spec fn wf(self) -> bool {
        &&& self.queue.wf()
        &&& self.workers@.len() >= 1
        &&& forall|i: int| 0 <= i < self.workers@.len() ==> (#[trigger] self.workers@[i]).id == i
        &&& self.shutting_down == self.queue.is_closed()
        &&& self.shutting_down ==> self.queue.terminates_sent() == self.workers@.len()
        &&& !self.shutting_down ==> self.queue.terminates_sent() == 0
        &&& self.queue.submitted_jobs() == Seq::new(self.next_job as nat, |i: int| i as u64)
        &&& self.queue.terminates_delivered() == count_terminated(self.workers@)
    }

    /// Build a pool of `size` workers, every one idle, around an open,
    /// empty queue. A pool of zero workers could never make progress, so
    /// size 0 is a configuration error and no pool is built.
    pub fn new(size: usize) -> (r: Result<ThreadPool, PoolError>)
        ensures
            size == 0 ==> r == Err::<ThreadPool, PoolError>(PoolError::ConfigError),
            size >= 1 ==> (r matches Ok(p) && {
                &&& p.wf()
                &&& p.num_workers() == size
                &&& forall|i: int|
                    0 <= i < size ==> (#[trigger] p.workers@[i]).state is Idle
                        && !p.workers@[i].joined
                &&& !p.is_shutting_down()
                &&& p.queue.pending_msgs() == Seq::<Message>::empty()
                &&& p.submitted_jobs() == Seq::<u64>::empty()
                &&& p.delivered_jobs() == Seq::<u64>::empty()
                &&& p.next_job == 0
                &&& p.failed_jobs == 0
                &&& p.join_failures == 0
            }),
    {
        if size == 0 {
            return Err(PoolError::ConfigError);
        }
        let mut workers: Vec<Worker> = Vec::new();
        let mut i: usize = 0;
        while i < size
            invariant
                i <= size,
                workers@.len() == i,
                forall|k: int|
                    0 <= k < i ==> (#[trigger] workers@[k]) == (Worker {
                        id: k as usize,
                        state: WorkerState::Idle,
                        joined: false,
                    }),
            decreases size - i,
        {
            workers.push(Worker { id: i, state: WorkerState::Idle, joined: false });
            i += 1;
        }
        let pool = ThreadPool {
            queue: JobQueue::new(),
            workers,
            shutting_down: false,
            next_job: 0,
            failed_jobs: 0,
            join_failures: 0,
        };
        proof {
            assert(pool.queue.submitted_jobs() =~= Seq::new(0nat, |i: int| i as u64));
            lemma_count_all_idle(pool.workers@);
        }
        Ok(pool)
    }

    /// Accept one unit of work and hand back its ticket; exactly one
    /// worker will receive it, after everything submitted earlier. Once
    /// shutdown has begun the submission is refused and nothing is
    /// enqueued.
    pub fn execute(&mut self) -> (r: Result<u64, PoolError>)
        requires
            old(self).wf(),
            old(self).next_job < u64::MAX,
        ensures
            final(self).wf(),
            old(self).is_shutting_down() ==> {
                &&& r == Err::<u64, PoolError>(PoolError::PoolShuttingDown)
                &&& *final(self) == *old(self)
            },
            !old(self).is_shutting_down() ==> {
                &&& r == Ok::<u64, PoolError>(old(self).next_job)
                &&& final(self).submitted_jobs()
                    == old(self).submitted_jobs().push(old(self).next_job)
                &&& final(self).queue.pending_msgs()
                    == old(self).queue.pending_msgs().push(Message::Job(old(self).next_job))
                &&& final(self).delivered_jobs() == old(self).delivered_jobs()
                &&& final(self).workers@ == old(self).workers@
                &&& !final(self).is_shutting_down()
                &&& final(self).next_job == old(self).next_job + 1
                &&& final(self).failed_jobs == old(self).failed_jobs
                &&& final(self).join_failures == old(self).join_failures
            },
    {
        if self.shutting_down {
            return Err(PoolError::PoolShuttingDown);
        }
        let id = self.next_job;
        let r = self.queue.submit(id);
        proof {
            assert(r is Ok);
        }
        self.next_job = id + 1;
        proof {
            assert(self.queue.submitted_jobs() =~= Seq::new(
                self.next_job as nat,
                |i: int| i as u64,
            ));
        }
        Ok(id)
    }

    /// Let idle worker `w` ask for its next message. `None` means
    /// nothing is pending and the worker keeps waiting; a job moves the
    /// worker to `Running`, a terminate signal moves it to `Terminated`
    /// and ends its loop. A worker that is not idle receives nothing, so
    /// one worker never holds two jobs at once.
    pub fn take_message(&mut self, w: usize) -> (r: Option<Message>)
        requires
            old(self).wf(),
            w < old(self).num_workers(),
        ensures
            final(self).wf(),
            final(self).num_workers() == old(self).num_workers(),
            final(self).is_shutting_down() == old(self).is_shutting_down(),
            final(self).submitted_jobs() == old(self).submitted_jobs(),
            final(self).next_job == old(self).next_job,
            final(self).failed_jobs == old(self).failed_jobs,
            final(self).join_failures == old(self).join_failures,
            !(old(self).workers@[w as int].state is Idle) ==> {
                &&& r == None::<Message>
                &&& *final(self) == *old(self)
            },
            old(self).workers@[w as int].state is Idle ==> match r {
                None => {
                    &&& old(self).queue.pending_msgs().len() == 0
                    &&& final(self).queue.pending_msgs() == old(self).queue.pending_msgs()
                    &&& final(self).delivered_jobs() == old(self).delivered_jobs()
                    &&& final(self).workers@ == old(self).workers@
                },
                Some(m) => {
                    &&& old(self).queue.pending_msgs().len() > 0
                    &&& m == old(self).queue.pending_msgs()[0]
                    &&& final(self).queue.pending_msgs()
                        == old(self).queue.pending_msgs().drop_first()
                    &&& (m matches Message::Job(id) ==> {
                        &&& final(self).delivered_jobs() == old(self).delivered_jobs().push(id)
                        &&& final(self).workers@ == old(self).workers@.update(
                            w as int,
                            Worker {
                                state: WorkerState::Running(id),
                                ..old(self).workers@[w as int]
                            },
                        )
                    })
                    &&& (m is Terminate ==> {
                        &&& final(self).delivered_jobs() == old(self).delivered_jobs()
                        &&& final(self).workers@ == old(self).workers@.update(
                            w as int,
                            Worker {
                                state: WorkerState::Terminated,
                                ..old(self).workers@[w as int]
                            },
                        )
                    })
                },
            },
    {
        match self.workers[w].state {
            WorkerState::Idle => {}
            _ => {
                return None;
            }
        }
        match self.queue.take() {
            None => None,
            Some(m) => {
                let ghost ws0 = self.workers@;
                match m {
                    Message::Job(id) => {
                        self.workers[w].state = WorkerState::Running(id);
                        proof {
                            assert(self.workers@ =~= ws0.update(
                                w as int,
                                Worker { state: WorkerState::Running(id), ..ws0[w as int] },
                            ));
                            lemma_count_terminated_update(
                                ws0,
                                w as int,
                                self.workers@[w as int],
                            );
                        }
                        Some(Message::Job(id))
                    }
                    Message::Terminate => {
                        self.workers[w].state = WorkerState::Terminated;
                        proof {
                            assert(self.workers@ =~= ws0.update(
                                w as int,
                                Worker { state: WorkerState::Terminated, ..ws0[w as int] },
                            ));
                            lemma_count_terminated_update(
                                ws0,
                                w as int,
                                self.workers@[w as int],
                            );
                        }
                        Some(Message::Terminate)
                    }
                }
            }
        }
    }

    /// Worker `w` reports the job it was running as finished, well or
    /// badly. Either way the worker goes back to waiting for work: a
    /// failed job is counted, and nothing else — it neither stops its
    /// worker nor touches the queue.
    pub fn job_finished(&mut self, w: usize, ok: bool)
        requires
            old(self).wf(),
            w < old(self).num_workers(),
            old(self).workers@[w as int].state matches WorkerState::Running(_),
            old(self).failed_jobs < u64::MAX,
        ensures
            final(self).wf(),
            final(self).queue == old(self).queue,
            final(self).is_shutting_down() == old(self).is_shutting_down(),
            final(self).next_job == old(self).next_job,
            final(self).workers@ == old(self).workers@.update(
                w as int,
                Worker { state: WorkerState::Idle, ..old(self).workers@[w as int] },
            ),
            final(self).failed_jobs == old(self).failed_jobs + (if ok { 0int } else { 1int }),
            final(self).join_failures == old(self).join_failures,
    {
        let ghost ws0 = self.workers@;
        self.workers[w].state = WorkerState::Idle;
        if !ok {
            self.failed_jobs = self.failed_jobs + 1;
        }
        proof {
            assert(self.workers@ =~= ws0.update(
                w as int,
                Worker { state: WorkerState::Idle, ..ws0[w as int] },
            ));
            lemma_count_terminated_update(ws0, w as int, self.workers@[w as int]);
        }
    }

    /// Begin the graceful shutdown: close the queue to new jobs, then
    /// broadcast exactly one terminate signal per worker, all of them
    /// behind whatever jobs still wait. Beginning it a second time
    /// changes nothing.
    pub fn begin_shutdown(&mut self)
        requires
            old(self).wf(),
        ensures
            final(self).wf(),
            old(self).is_shutting_down() ==> *final(self) == *old(self),
            !old(self).is_shutting_down() ==> {
                &&& final(self).is_shutting_down()
                &&& final(self).queue.pending_msgs() == old(self).queue.pending_msgs()
                    + Seq::new(old(self).num_workers(), |i: int| Message::Terminate)
                &&& final(self).submitted_jobs() == old(self).submitted_jobs()
                &&& final(self).delivered_jobs() == old(self).delivered_jobs()
                &&& final(self).workers@ == old(self).workers@
                &&& final(self).next_job == old(self).next_job
                &&& final(self).failed_jobs == old(self).failed_jobs
                &&& final(self).join_failures == old(self).join_failures
            },
    {
        if self.shutting_down {
            return;
        }
        self.queue.close();
        self.shutting_down = true;
        let n = self.workers.len();
        let mut i: usize = 0;
        proof {
            assert(self.queue.pending_msgs() =~= old(self).queue.pending_msgs()
                + Seq::new(0nat, |k: int| Message::Terminate));
        }
        while i < n
            invariant
                i <= n,
                self.queue.wf(),
                self.queue.is_closed(),
                self.queue.pending_msgs() == old(self).queue.pending_msgs()
                    + Seq::new(i as nat, |k: int| Message::Terminate),
                self.queue.submitted_jobs() == old(self).submitted_jobs(),
                self.queue.delivered_jobs() == old(self).delivered_jobs(),
                self.queue.terminates_sent() == i,
                self.queue.terminates_delivered() == old(self).queue.terminates_delivered(),
                self.workers == old(self).workers,
                self.shutting_down,
                self.next_job == old(self).next_job,
                self.failed_jobs == old(self).failed_jobs,
                self.join_failures == old(self).join_failures,
                n == old(self).num_workers(),
            decreases n - i,
        {
            let ghost p0 = self.queue.pending_msgs();
            self.queue.send_terminate();
            proof {
                assert(self.queue.pending_msgs() =~= old(self).queue.pending_msgs()
                    + Seq::new((i + 1) as nat, |k: int| Message::Terminate));
            }
            i += 1;
        }
    }

    /// Decide whether worker `w`'s thread is to be joined now: yes
    /// exactly when shutdown has begun and nobody has claimed that
    /// thread yet. Each thread is claimed at most once, so no join
    /// happens twice and none happens before shutdown.
    pub fn claim_join(&mut self, w: usize) -> (r: bool)
        requires
            old(self).wf(),
            w < old(self).num_workers(),
        ensures
            final(self).wf(),
            r == (old(self).is_shutting_down() && !old(self).workers@[w as int].joined),
            r ==> {
                &&& final(self).workers@ == old(self).workers@.update(
                    w as int,
                    Worker { joined: true, ..old(self).workers@[w as int] },
                )
                &&& final(self).queue == old(self).queue
                &&& final(self).is_shutting_down() == old(self).is_shutting_down()
                &&& final(self).next_job == old(self).next_job
                &&& final(self).failed_jobs == old(self).failed_jobs
                &&& final(self).join_failures == old(self).join_failures
            },
            !r ==> *final(self) == *old(self),
    {
        if self.shutting_down && !self.workers[w].joined {
            let ghost ws0 = self.workers@;
            self.workers[w].joined = true;
            proof {
                assert(self.workers@ =~= ws0.update(
                    w as int,
                    Worker { joined: true, ..ws0[w as int] },
                ));
                lemma_count_terminated_update(ws0, w as int, self.workers@[w as int]);
            }
            true
        } else {
            false
        }
    }

    /// Worker `w`'s thread has been joined, well or badly. A join that
    /// failed is counted here, in aggregate, and nothing else: it does
    /// not keep the remaining workers from being joined.
    pub fn join_finished(&mut self, w: usize, ok: bool)
        requires
            old(self).wf(),
            w < old(self).num_workers(),
            old(self).workers@[w as int].joined,
            old(self).join_failures < u64::MAX,
        ensures
            final(self).wf(),
            final(self).queue == old(self).queue,
            final(self).workers@ == old(self).workers@,
            final(self).is_shutting_down() == old(self).is_shutting_down(),
            final(self).next_job == old(self).next_job,
            final(self).failed_jobs == old(self).failed_jobs,
            final(self).join_failures == old(self).join_failures + (if ok { 0int } else { 1int }),
    {
        if !ok {
            self.join_failures = self.join_failures + 1;
        }
    }
}

/// Law: jobs are handed out exactly once, in submission order. In every
/// well-formed pool state the delivered tickets are precisely the first
/// so-many submitted tickets, no ticket is delivered twice, and once no
/// job waits in the queue any more, every accepted job has been handed
/// out — none was dropped and none was duplicated, however the workers
/// interleaved.
pub proof fn lemma_jobs_delivered_exactly_once(p: ThreadPool)
    requires
        p.wf(),
    ensures
        p.delivered_jobs() == p.submitted_jobs().subrange(
            0,
            p.delivered_jobs().len() as int,
        ),
        forall|i: int, j: int|
            0 <= i < j < p.delivered_jobs().len()
                ==> #[trigger] p.delivered_jobs()[i] != #[trigger] p.delivered_jobs()[j],
        p.pending_jobs().len() == 0 ==> p.delivered_jobs() == p.submitted_jobs(),
{
    assert(p.delivered_jobs() =~= p.submitted_jobs().subrange(
        0,
        p.delivered_jobs().len() as int,
    ));
    assert forall|i: int, j: int|
        0 <= i < j < p.delivered_jobs().len() implies #[trigger] p.delivered_jobs()[i]
        != #[trigger] p.delivered_jobs()[j] by {
        assert(p.delivered_jobs()[i] == p.submitted_jobs()[i]);
        assert(p.delivered_jobs()[j] == p.submitted_jobs()[j]);
        assert(p.submitted_jobs()[i] == i as u64);
        assert(p.submitted_jobs()[j] == j as u64);
    }
    if p.pending_jobs().len() == 0 {
        assert(p.delivered_jobs() =~= p.submitted_jobs());
    }
}

/// Law: shutdown is graceful. Once shutdown has begun and every worker
/// has left its loop, every job the pool ever accepted was handed to a
/// worker before the signals ran out: no admitted job was abandoned in
/// the queue.
pub proof fn lemma_shutdown_is_graceful(p: ThreadPool)
    requires
        p.wf(),
        p.is_shutting_down(),
        forall|k: int|
            0 <= k < p.num_workers() ==> (#[trigger] p.workers@[k]).state is Terminated,
    ensures
        p.delivered_jobs() == p.submitted_jobs(),
{
    lemma_count_terminated_full(p.workers@);
    assert(p.queue.terminates_delivered() == p.num_workers());
    assert(terminates_of(p.queue.pending_msgs()) == 0);
    assert(jobs_of(p.queue.pending_msgs()).len() == 0);
    assert(p.delivered_jobs() =~= p.submitted_jobs());
}

/// A roster of idle workers counts no terminated one.
proof fn lemma_count_all_idle(ws: Seq<Worker>)
    requires
        forall|k: int| 0 <= k < ws.len() ==> (#[trigger] ws[k]).state is Idle,
    ensures
        count_terminated(ws) == 0,
    decreases ws.len(),
{
    if ws.len() > 0 {
        assert(forall|k: int|
            0 <= k < ws.drop_last().len() ==> ws.drop_last()[k] == ws[k]);
        lemma_count_all_idle(ws.drop_last());
    }
}

} // verus!
