use vstd::prelude::*;
use std::collections::VecDeque;
use crate::message::{Message, PoolError};

verus! {

/// The job tickets carried by a sequence of messages, oldest first.
pub open spec fn jobs_of(s: Seq<Message>) -> Seq<u64>
    decreases s.len(),
{
    if s.len() == 0 {
        Seq::empty()
    } else {
        match s[0] {
            Message::Job(id) => seq![id] + jobs_of(s.drop_first()),
            Message::Terminate => jobs_of(s.drop_first()),
        }
    }
}

/// How many terminate signals a sequence of messages carries.
pub open spec fn terminates_of(s: Seq<Message>) -> nat
    decreases s.len(),
{
    if s.len() == 0 {
        0
    } else {
        match s[0] {
            Message::Job(_) => terminates_of(s.drop_first()),
            Message::Terminate => 1 + terminates_of(s.drop_first()),
        }
    }
}

/// No job stands behind a terminate signal: whatever follows a signal in
/// the queue is another signal, never work.
pub open spec fn jobs_behind_no_terminate(s: Seq<Message>) -> bool {
    forall|i: int, j: int|
        0 <= i < j < s.len() && (#[trigger] s[i]) is Terminate ==> !((#[trigger] s[j]) is Job)
}

/// Appending a message appends its job ticket, if it carries one.
proof fn lemma_jobs_of_push(s: Seq<Message>, m: Message)
    ensures
        jobs_of(s.push(m)) == (match m {
            Message::Job(id) => jobs_of(s).push(id),
            Message::Terminate => jobs_of(s),
        }),
    decreases s.len(),
{
    if s.len() == 0 {
        assert(s.push(m)[0] == m);
        assert(s.push(m).drop_first() =~= s);
        match m {
            Message::Job(id) => {
                assert(jobs_of(s.push(m)) =~= jobs_of(s).push(id));
            }
            Message::Terminate => {
                assert(jobs_of(s.push(m)) == jobs_of(s));
            }
        }
    } else {
        lemma_jobs_of_push(s.drop_first(), m);
        assert(s.push(m)[0] == s[0]);
        assert(s.push(m).drop_first() =~= s.drop_first().push(m));
        match m {
            Message::Job(id) => {
                assert(jobs_of(s.push(m)) =~= jobs_of(s).push(id));
            }
            Message::Terminate => {}
        }
    }
}

/// Appending a message raises the signal count exactly when the message
/// is a terminate signal.
proof fn lemma_terminates_of_push(s: Seq<Message>, m: Message)
    ensures
        terminates_of(s.push(m)) == terminates_of(s) + (if m is Terminate { 1int } else { 0int }),
    decreases s.len(),
{
    if s.len() == 0 {
        assert(s.push(m)[0] == m);
        assert(s.push(m).drop_first() =~= s);
    } else {
        lemma_terminates_of_push(s.drop_first(), m);
        assert(s.push(m)[0] == s[0]);
        assert(s.push(m).drop_first() =~= s.drop_first().push(m));
    }
}

/// A sequence without terminate signals counts none, and the other way
/// round.
proof fn lemma_terminates_of_zero(s: Seq<Message>)
    requires
        terminates_of(s) == 0,
    ensures
        forall|k: int| 0 <= k < s.len() ==> !((#[trigger] s[k]) is Terminate),
    decreases s.len(),
{
    if s.len() > 0 {
        lemma_terminates_of_zero(s.drop_first());
        assert forall|k: int| 0 <= k < s.len() implies !((#[trigger] s[k]) is Terminate) by {
            if k > 0 {
                assert(s[k] == s.drop_first()[k - 1]);
            }
        }
    }
}

/// A sequence without jobs carries no job tickets.
proof fn lemma_jobs_of_none(s: Seq<Message>)
    requires
        forall|k: int| 0 <= k < s.len() ==> !((#[trigger] s[k]) is Job),
    ensures
        jobs_of(s).len() == 0,
    decreases s.len(),
{
    if s.len() > 0 {
        assert(forall|k: int| 0 <= k < s.drop_first().len() ==> s.drop_first()[k] == s[k + 1]);
        lemma_jobs_of_none(s.drop_first());
    }
}

/// A shared, ordered channel of jobs and terminate signals, with one
/// producer side (`submit`, `send_terminate`, `close`) and one consumer
/// side (`take`).
///
/// The executable fields are the live state: the FIFO buffer and the
/// closed flag. The ghost fields carry the history the contracts speak
/// of: every job ever accepted and every message already handed out.
pub struct JobQueue {
    /// Messages accepted and not yet handed out, oldest first.
    pub pending: VecDeque<Message>,
    /// Whether the queue has been closed to new jobs.
    pub closed: bool,
    /// Every job ticket ever accepted, in submission order.
    pub submitted: Ghost<Seq<u64>>,
    /// Every job ticket already handed to a consumer, in delivery order.
    pub delivered: Ghost<Seq<u64>>,
    /// Terminate signals ever enqueued.
    pub terms_sent: Ghost<nat>,
    /// Terminate signals already handed to a consumer.
    pub terms_taken: Ghost<nat>,
}

impl JobQueue {
    /// The messages waiting in the queue, oldest first.
    pub open spec fn pending_msgs(self) -> Seq<Message> {
        self.pending@
    }

    /// The job tickets still waiting in the queue, oldest first.
    pub open spec fn pending_jobs(self) -> Seq<u64> {
        jobs_of(self.pending@)
    }

    /// Every job ticket the queue has accepted, in submission order.
    pub open spec fn submitted_jobs(self) -> Seq<u64> {
        self.submitted@
    }

    /// Every job ticket the queue has handed out, in delivery order.
    pub open spec fn delivered_jobs(self) -> Seq<u64> {
        self.delivered@
    }

    /// Terminate signals enqueued so far.
    pub open spec fn terminates_sent(self) -> nat {
        self.terms_sent@
    }

    /// Terminate signals handed out so far.
    pub open spec fn terminates_delivered(self) -> nat {
        self.terms_taken@
    }

    /// Whether the queue refuses new jobs.
    pub open spec fn is_closed(self) -> bool {
        self.closed
    }

    /// The queue's invariant.
    ///
    /// The first two clauses make the histories honest: what was accepted
    /// is exactly what was handed out followed by what still waits, and
    /// likewise for terminate signals. The remaining clauses pin the
    /// shutdown discipline: an open queue has never seen a signal, no job
    /// stands behind a signal, and once the last of the broadcast signals
    /// has left a closed queue, no job can still be waiting.
    pub open spec fn wf(self) -> bool {
        &&& self.delivered@ + jobs_of(self.pending@) == self.submitted@
        &&& self.terms_taken@ + terminates_of(self.pending@) == self.terms_sent@
        &&& !self.closed ==> self.terms_sent@ == 0
        &&& jobs_behind_no_terminate(self.pending@)
        &&& (self.closed && self.terms_sent@ > 0 && terminates_of(self.pending@) == 0)
            ==> jobs_of(self.pending@).len() == 0
    }

    /// An open, empty queue.
    pub fn new() -> (q: JobQueue)
        ensures
            q.wf(),
            !q.is_closed(),
            q.pending_msgs() == Seq::<Message>::empty(),
            q.submitted_jobs() == Seq::<u64>::empty(),
            q.delivered_jobs() == Seq::<u64>::empty(),
            q.terminates_sent() == 0,
            q.terminates_delivered() == 0,
    {
        let q = JobQueue {
            pending: VecDeque::new(),
            closed: false,
            submitted: Ghost(Seq::empty()),
            delivered: Ghost(Seq::empty()),
            terms_sent: Ghost(0nat),
            terms_taken: Ghost(0nat),
        };
        proof {
            assert(q.delivered@ + jobs_of(q.pending@) =~= q.submitted@);
        }
        q
    }

    /// Accept one job, or refuse it once the queue has been closed.
    /// An accepted job joins the back of the pending messages: first in,
    /// first out.
    pub fn submit(&mut self, id: u64) -> (r: Result<(), PoolError>)
        requires
            old(self).wf(),
        ensures
            final(self).wf(),
            old(self).is_closed() ==> {
                &&& r == Err::<(), PoolError>(PoolError::QueueClosed)
                &&& *final(self) == *old(self)
            },
            !old(self).is_closed() ==> {
                &&& r == Ok::<(), PoolError>(())
                &&& final(self).pending_msgs() == old(self).pending_msgs().push(Message::Job(id))
                &&& final(self).submitted_jobs() == old(self).submitted_jobs().push(id)
                &&& final(self).delivered_jobs() == old(self).delivered_jobs()
                &&& final(self).terminates_sent() == old(self).terminates_sent()
                &&& final(self).terminates_delivered() == old(self).terminates_delivered()
                &&& !final(self).is_closed()
            },
    {
        if self.closed {
            Err(PoolError::QueueClosed)
        } else {
            let ghost p0 = self.pending@;
            self.pending.push_back(Message::Job(id));
            self.submitted = Ghost(self.submitted@.push(id));
            proof {
                lemma_jobs_of_push(p0, Message::Job(id));
                lemma_terminates_of_push(p0, Message::Job(id));
                assert(self.delivered@ + jobs_of(p0).push(id)
                    =~= (self.delivered@ + jobs_of(p0)).push(id));
                lemma_terminates_of_zero(p0);
                assert forall|i: int, j: int|
                    0 <= i < j < self.pending@.len() && (#[trigger] self.pending@[i]) is Terminate
                    implies !((#[trigger] self.pending@[j]) is Job) by {
                    assert(self.pending@[i] == p0[i]);
                }
            }
            Ok(())
        }
    }

    /// Close the queue to new jobs. Closing an already closed queue
    /// changes nothing.
    pub fn close(&mut self)
        requires
            old(self).wf(),
        ensures
            final(self).wf(),
            final(self).is_closed(),
            final(self).pending_msgs() == old(self).pending_msgs(),
            final(self).submitted_jobs() == old(self).submitted_jobs(),
            final(self).delivered_jobs() == old(self).delivered_jobs(),
            final(self).terminates_sent() == old(self).terminates_sent(),
            final(self).terminates_delivered() == old(self).terminates_delivered(),
    {
        self.closed = true;
    }

    /// Broadcast one terminate signal: it joins the back of the queue,
    /// behind every still-pending job. Only a closed queue carries
    /// signals, so no job submitted later can overtake one.
    pub fn send_terminate(&mut self)
        requires
            old(self).wf(),
            old(self).is_closed(),
        ensures
            final(self).wf(),
            final(self).is_closed(),
            final(self).pending_msgs() == old(self).pending_msgs().push(Message::Terminate),
            final(self).submitted_jobs() == old(self).submitted_jobs(),
            final(self).delivered_jobs() == old(self).delivered_jobs(),
            final(self).terminates_sent() == old(self).terminates_sent() + 1,
            final(self).terminates_delivered() == old(self).terminates_delivered(),
    {
        let ghost p0 = self.pending@;
        self.pending.push_back(Message::Terminate);
        self.terms_sent = Ghost(self.terms_sent@ + 1);
        proof {
            lemma_jobs_of_push(p0, Message::Terminate);
            lemma_terminates_of_push(p0, Message::Terminate);
            assert forall|i: int, j: int|
                0 <= i < j < self.pending@.len() && (#[trigger] self.pending@[i]) is Terminate
                implies !((#[trigger] self.pending@[j]) is Job) by {
                if j < p0.len() {
                    assert(self.pending@[i] == p0[i]);
                    assert(self.pending@[j] == p0[j]);
                } else {
                    assert(self.pending@[j] == Message::Terminate);
                }
            }
        }
    }

    /// Hand out the oldest pending message, or nothing while the queue is
    /// empty. In the running system an idle consumer blocks instead of
    /// seeing the empty case; what it receives, and that it receives it
    /// in arrival order, is decided here.
    pub fn take(&mut self) -> (r: Option<Message>)
        requires
            old(self).wf(),
        ensures
            final(self).wf(),
            final(self).is_closed() == old(self).is_closed(),
            final(self).submitted_jobs() == old(self).submitted_jobs(),
            final(self).terminates_sent() == old(self).terminates_sent(),
            match r {
                None => {
                    &&& old(self).pending_msgs().len() == 0
                    &&& final(self).pending_msgs() == old(self).pending_msgs()
                    &&& final(self).delivered_jobs() == old(self).delivered_jobs()
                    &&& final(self).terminates_delivered() == old(self).terminates_delivered()
                },
                Some(m) => {
                    &&& old(self).pending_msgs().len() > 0
                    &&& m == old(self).pending_msgs()[0]
                    &&& final(self).pending_msgs() == old(self).pending_msgs().drop_first()
                    &&& (m matches Message::Job(id) ==> {
                        &&& final(self).delivered_jobs() == old(self).delivered_jobs().push(id)
                        &&& final(self).terminates_delivered() == old(self).terminates_delivered()
                    })
                    &&& (m is Terminate ==> {
                        &&& final(self).delivered_jobs() == old(self).delivered_jobs()
                        &&& final(self).terminates_delivered()
                            == old(self).terminates_delivered() + 1
                    })
                },
            },
    {
        let ghost p0 = self.pending@;
        match self.pending.pop_front() {
            None => None,
            Some(m) => {
                proof {
                    assert(self.pending@ =~= p0.drop_first());
                }
                match m {
                    Message::Job(id) => {
                        self.delivered = Ghost(self.delivered@.push(id));
                        proof {
                            assert(jobs_of(p0) == seq![id] + jobs_of(p0.drop_first()));
                            assert(old(self).delivered@.push(id) + jobs_of(p0.drop_first())
                                =~= old(self).delivered@ + jobs_of(p0));
                            self.lemma_take_keeps_order(p0);
                            if self.closed && self.terms_sent@ > 0
                                && terminates_of(self.pending@) == 0 {
                                assert(terminates_of(p0) == 0);
                                assert(jobs_of(p0).len() == 0);
                                assert(false);
                            }
                        }
                        Some(Message::Job(id))
                    }
                    Message::Terminate => {
                        self.terms_taken = Ghost(self.terms_taken@ + 1);
                        proof {
                            assert(jobs_of(p0) == jobs_of(p0.drop_first()));
                            assert(terminates_of(p0) == 1 + terminates_of(p0.drop_first()));
                            self.lemma_take_keeps_order(p0);
                            if terminates_of(self.pending@) == 0 {
                                assert forall|k: int| 0 <= k < self.pending@.len()
                                    implies !((#[trigger] self.pending@[k]) is Job) by {
                                    assert(self.pending@[k] == p0[k + 1]);
                                    assert(p0[0] is Terminate);
                                }
                                lemma_jobs_of_none(self.pending@);
                            }
                        }
                        Some(Message::Terminate)
                    }
                }
            }
        }
    }

    /// Removing the oldest message keeps the order of what remains.
    proof fn lemma_take_keeps_order(self, p0: Seq<Message>)
        requires
            jobs_behind_no_terminate(p0),
            p0.len() > 0,
            self.pending@ == p0.drop_first(),
        ensures
            jobs_behind_no_terminate(self.pending@),
    {
        assert forall|i: int, j: int|
            0 <= i < j < self.pending@.len() && (#[trigger] self.pending@[i]) is Terminate
            implies !((#[trigger] self.pending@[j]) is Job) by {
            assert(self.pending@[i] == p0[i + 1]);
            assert(self.pending@[j] == p0[j + 1]);
        }
    }
}

} // verus!
