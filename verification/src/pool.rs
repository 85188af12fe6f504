//! The worker pool: a fixed, positive number of workers draining one job
//! channel, with graceful shutdown.
//!
//! The pool is stated against an abstract clock. Every job is available
//! from time zero; each worker is a stable identity plus the time at which
//! it next becomes free; a dequeued job starts on the worker that is free
//! earliest (the first such worker, when several tie) and occupies it for
//! the job's duration. The execution log records every run in dequeue
//! order, and the well-formedness predicate carries the schedule facts the
//! pool guarantees: dequeue order is submission order, start times never
//! decrease, each of the first `size` jobs starts at time zero, and no
//! job is lost or duplicated.

use crate::channel::{Channel, Job, Received};
use vstd::prelude::*;
use vstd::seq_lib::*;

verus! {

/// Total run time of a queue of jobs, head first.
pub open spec fn sum_durations(q: Seq<Job>) -> int
    decreases q.len(),
{
    if q.len() == 0 {
        0
    } else {
        q[0].duration + sum_durations(q.drop_first())
    }
}

pub proof fn lemma_sum_durations_nonneg(q: Seq<Job>)
    ensures
        sum_durations(q) >= 0,
    decreases q.len(),
{
    if q.len() > 0 {
        lemma_sum_durations_nonneg(q.drop_first());
    }
}

pub proof fn lemma_sum_durations_push(q: Seq<Job>, j: Job)
    ensures
        sum_durations(q.push(j)) == sum_durations(q) + j.duration,
    decreases q.len(),
{
    if q.len() == 0 {
        assert(q.push(j)[0] == j);
        assert(q.push(j).drop_first() =~= Seq::<Job>::empty());
        assert(sum_durations(Seq::<Job>::empty()) == 0);
        assert(sum_durations(q) == 0);
        assert(sum_durations(q.push(j)) == j.duration + sum_durations(q.push(j).drop_first()));
    } else {
        assert(q.push(j)[0] == q[0]);
        assert(q.push(j).drop_first() =~= q.drop_first().push(j));
        lemma_sum_durations_push(q.drop_first(), j);
        assert(sum_durations(q.push(j)) == q[0].duration + sum_durations(q.push(j).drop_first()));
        assert(sum_durations(q) == q[0].duration + sum_durations(q.drop_first()));
    }
}

/// One worker: an identity assigned at pool construction, stable for the
/// worker's lifetime, and the abstract time at which its current work is
/// done (zero while it has run nothing).
pub struct Worker {
    pub id: usize,
    pub busy_until: u64,
}

impl Worker {
    pub fn new(id: usize) -> (w: Worker)
        ensures
            w.id == id,
            w.busy_until == 0,
    {
        Worker { id, busy_until: 0 }
    }
}

/// A record of one job execution: the job, the worker that ran it, and the
/// abstract times at which the run began and ended.
#[derive(Clone, Copy, PartialEq, Eq, Structural, Debug)]
pub struct Execution {
    pub job: Job,
    pub worker: usize,
    pub start: u64,
    pub finish: u64,
}

/// The pool: a fixed collection of workers, the writable end of the job
/// channel, the history of accepted submissions, and the execution log in
/// the order workers began the jobs.
pub struct ThreadPool {
    pub workers: Vec<Worker>,
    pub channel: Channel,
    pub submitted: Vec<Job>,
    pub log: Vec<Execution>,
}

impl ThreadPool {
    /// Number of workers, fixed at construction and always positive.
    pub open spec fn size(self) -> int {
        self.workers@.len() as int
    }

    /// Jobs accepted so far, in submission order.
    pub open spec fn history(self) -> Seq<Job> {
        self.submitted@
    }

    /// Jobs still queued, head first.
    pub open spec fn queued(self) -> Seq<Job> {
        self.channel.queue()
    }

    /// The execution log, in the order workers began the jobs.
    pub open spec fn executions(self) -> Seq<Execution> {
        self.log@
    }

    /// The jobs already begun, in dequeue order.
    pub open spec fn executed(self) -> Seq<Job> {
        self.log@.map_values(|e: Execution| e.job)
    }

    /// Whether submission is still possible (shutdown not yet begun).
    pub open spec fn is_open(self) -> bool {
        self.channel.is_open()
    }

    /// The schedule facts recorded for the `k`-th execution: it ran on a
    /// real worker, its finish is its start plus its duration, the worker
    /// stays busy at least until that finish, it started no later than any
    /// worker becomes free, and each of the first `size` executions
    /// started at time zero.
    pub open spec fn entry_ok(self, k: int) -> bool {
        let e = self.log@[k];
        &&& e.worker < self.workers@.len()
        &&& e.start + e.job.duration <= u64::MAX
        &&& e.finish == e.start + e.job.duration
        &&& e.finish <= self.workers@[e.worker as int].busy_until
        &&& (forall|i: int|
            0 <= i < self.workers@.len() ==> e.start <= (#[trigger] self.workers@[i]).busy_until)
        &&& (k < self.workers@.len() ==> e.start == 0)
    }

    /// Well-formedness: what construction establishes and every operation
    /// preserves.
    pub open spec fn wf(self) -> bool {
        &&& self.workers@.len() > 0
        &&& (forall|i: int|
            0 <= i < self.workers@.len() ==> (#[trigger] self.workers@[i]).id == i)
        &&& self.executed() + self.queued() == self.history()
        &&& (forall|k: int| 0 <= k < self.log@.len() ==> #[trigger] self.entry_ok(k))
        &&& (forall|k1: int, k2: int|
            0 <= k1 <= k2 < self.log@.len() ==> (#[trigger] self.log@[k1]).start
                <= (#[trigger] self.log@[k2]).start)
        &&& (forall|i: int|
            self.log@.len() <= i < self.workers@.len() ==> (#[trigger] self.workers@[i]).busy_until
                == 0)
        &&& (forall|i: int|
            0 <= i < self.workers@.len() ==> (#[trigger] self.workers@[i]).busy_until
                + sum_durations(self.queued()) <= u64::MAX)
    }

    /// Headroom on the abstract clock for one more job: no worker's free
    /// time plus the queue's total run time plus the new duration can pass
    /// the clock's range.
    pub open spec fn can_accept(self, job: Job) -> bool {
        forall|i: int|
            0 <= i < self.workers@.len() ==> (#[trigger] self.workers@[i]).busy_until
                + sum_durations(self.queued()) + job.duration <= u64::MAX
    }

    /// Builds a pool of `size` workers, all idle, with an empty open
    /// channel and empty histories. A size of zero is a programmer defect
    /// and is excluded outright: no zero-worker pool can exist.
    pub fn new(size: usize) -> (p: ThreadPool)
        requires
            size > 0,
        ensures
            p.wf(),
            p.size() == size,
            p.is_open(),
            p.history() == Seq::<Job>::empty(),
            p.queued() == Seq::<Job>::empty(),
            p.executions() == Seq::<Execution>::empty(),
    {
        let mut workers: Vec<Worker> = Vec::new();
        let mut id: usize = 0;
        while id < size
            invariant
                id <= size,
                workers@.len() == id,
                forall|i: int|
                    0 <= i < id ==> (#[trigger] workers@[i]).id == i && workers@[i].busy_until
                        == 0,
            decreases size - id,
        {
            workers.push(Worker::new(id));
            id = id + 1;
        }
        let p = ThreadPool {
            workers,
            channel: Channel::new(),
            submitted: Vec::new(),
            log: Vec::new(),
        };
        proof {
            assert(p.executed() =~= Seq::<Job>::empty());
            assert(p.executed() + p.queued() =~= p.history());
        }
        p
    }

    /// Submits a job: appends it to the channel and to the history.
    /// Calling after shutdown has begun is a programmer defect and is
    /// excluded by contract, so the underlying send cannot fail.
    pub fn execute(&mut self, job: Job)
        requires
            old(self).wf(),
            old(self).is_open(),
            old(self).can_accept(job),
        ensures
            final(self).wf(),
            final(self).is_open(),
            final(self).size() == old(self).size(),
            final(self).workers@ == old(self).workers@,
            final(self).history() == old(self).history().push(job),
            final(self).queued() == old(self).queued().push(job),
            final(self).executions() == old(self).executions(),
    {
        let ghost pre = *self;
        let r = self.channel.send(job);
        proof {
            assert(r is Ok);
        }
        self.submitted.push(job);
        proof {
            lemma_sum_durations_push(pre.queued(), job);
            assert(self.executed() =~= pre.executed());
            assert(self.executed() + self.queued() =~= pre.history().push(job));
            assert forall|k: int| 0 <= k < self.log@.len() implies #[trigger] self.entry_ok(k) by {
                assert(pre.entry_ok(k));
            }
        }
    }

    /// The index of the first worker that becomes free earliest.
    fn min_worker(&self) -> (w: usize)
        requires
            self.workers@.len() > 0,
        ensures
            w < self.workers@.len(),
            forall|i: int|
                0 <= i < self.workers@.len() ==> self.workers@[w as int].busy_until
                    <= (#[trigger] self.workers@[i]).busy_until,
            forall|i: int|
                0 <= i < w ==> (#[trigger] self.workers@[i]).busy_until
                    > self.workers@[w as int].busy_until,
    {
        let mut w: usize = 0;
        let mut i: usize = 1;
        while i < self.workers.len()
            invariant
                w < i <= self.workers@.len(),
                forall|j: int|
                    0 <= j < i ==> self.workers@[w as int].busy_until
                        <= (#[trigger] self.workers@[j]).busy_until,
                forall|j: int|
                    0 <= j < w ==> (#[trigger] self.workers@[j]).busy_until
                        > self.workers@[w as int].busy_until,
            decreases self.workers@.len() - i,
        {
            if self.workers[i].busy_until < self.workers[w].busy_until {
                w = i;
            }
            i = i + 1;
        }
        w
    }

    /// One turn of a worker's loop: ask the channel for the next job. On a
    /// job, schedule it on the first worker free earliest and log the run;
    /// on an empty open channel report that a real worker would block; on
    /// a drained closed channel report termination. Nothing beyond the one
    /// dequeue and its log entry changes, and after shutdown no execution
    /// can ever be added.
    pub fn worker_step(&mut self) -> (r: Received)
        requires
            old(self).wf(),
        ensures
            final(self).wf(),
            final(self).size() == old(self).size(),
            final(self).history() == old(self).history(),
            final(self).is_open() == old(self).is_open(),
            old(self).queued().len() > 0 ==> {
                &&& r == Received::Job(old(self).queued()[0])
                &&& final(self).queued() == old(self).queued().drop_first()
                &&& final(self).executions().len() == old(self).executions().len() + 1
                &&& final(self).executions().take(old(self).executions().len() as int)
                    == old(self).executions()
                &&& final(self).executions().last().job == old(self).queued()[0]
            },
            old(self).queued().len() == 0 ==> {
                &&& *final(self) == *old(self)
                &&& (old(self).is_open() ==> r == Received::WouldBlock)
                &&& (!old(self).is_open() ==> r == Received::Closed)
            },
    {
        let ghost pre = *self;
        let r = self.channel.receive();
        match r {
            Received::Job(job) => {
                let w = self.min_worker();
                let start = self.workers[w].busy_until;
                proof {
                    assert(job == pre.queued()[0]);
                    lemma_sum_durations_nonneg(pre.queued().drop_first());
                    assert(sum_durations(pre.queued()) >= job.duration);
                    assert(start + job.duration <= u64::MAX);
                }
                let finish = start + job.duration;
                let wid = self.workers[w].id;
                self.workers[w] = Worker { id: wid, busy_until: finish };
                self.log.push(Execution { job, worker: w, start, finish });
                proof {
                    self.lemma_step_preserves_wf(pre, job, w as int);
                }
                r
            },
            _ => {
                r
            },
        }
    }

    /// Re-establishes well-formedness after one dequeue-and-schedule step.
    proof fn lemma_step_preserves_wf(self, pre: ThreadPool, job: Job, w: int)
        requires
            pre.wf(),
            pre.queued().len() > 0,
            job == pre.queued()[0],
            0 <= w < pre.workers@.len(),
            forall|i: int|
                0 <= i < pre.workers@.len() ==> pre.workers@[w].busy_until
                    <= (#[trigger] pre.workers@[i]).busy_until,
            forall|i: int|
                0 <= i < w ==> (#[trigger] pre.workers@[i]).busy_until
                    > pre.workers@[w].busy_until,
            self.channel.queue() == pre.queued().drop_first(),
            self.channel.is_open() == pre.is_open(),
            self.submitted == pre.submitted,
            self.workers@ == pre.workers@.update(
                w,
                Worker { id: w as usize, busy_until: (pre.workers@[w].busy_until + job.duration) as u64 },
            ),
            self.log@ == pre.log@.push(
                Execution {
                    job,
                    worker: w as usize,
                    start: pre.workers@[w].busy_until,
                    finish: (pre.workers@[w].busy_until + job.duration) as u64,
                },
            ),
            pre.workers@[w].busy_until + job.duration <= u64::MAX,
        ensures
            self.wf(),
            self.executions().take(pre.executions().len() as int) == pre.executions(),
    {
        let start = pre.workers@[w].busy_until;
        lemma_sum_durations_nonneg(pre.queued().drop_first());
        // The history is preserved: moving the queue head to the log keeps
        // executed-then-queued equal to the submission history.
        assert(self.executed() =~= pre.executed().push(job));
        assert(self.executed() + self.queued() =~= pre.executed() + pre.queued());
        // The scheduled worker sits no further right than the first idle
        // tail position, so the tail of never-used workers only shrinks.
        if pre.log@.len() < pre.workers@.len() {
            assert(pre.workers@[pre.log@.len() as int].busy_until == 0);
            assert(w <= pre.log@.len());
        }
        // Every prior log entry keeps its schedule facts: the one changed
        // worker only became busier.
        assert forall|k: int| 0 <= k < self.log@.len() implies #[trigger] self.entry_ok(k) by {
            if k < pre.log@.len() {
                assert(pre.entry_ok(k));
            } else {
                assert(pre.workers@.len() == self.workers@.len());
                if k < self.workers@.len() {
                    assert(pre.workers@[k].busy_until == 0);
                }
            }
        }
        assert forall|k1: int, k2: int|
            0 <= k1 <= k2 < self.log@.len() implies (#[trigger] self.log@[k1]).start
            <= (#[trigger] self.log@[k2]).start by {
            if k2 < pre.log@.len() {
                assert(pre.entry_ok(k1));
                assert(pre.entry_ok(k2));
            } else if k1 < pre.log@.len() {
                assert(pre.entry_ok(k1));
            }
        }
        assert(self.executions().take(pre.executions().len() as int) =~= pre.executions());
    }

    /// A worker's service loop: take the next job and run it, over and
    /// over, until the queue is empty — at which point a worker on an open
    /// channel would block for the next submission, and a worker on a
    /// closed channel sees the terminal signal and exits its thread.
    pub fn run_worker(&mut self) -> (r: Received)
        requires
            old(self).wf(),
        ensures
            final(self).wf(),
            final(self).size() == old(self).size(),
            final(self).history() == old(self).history(),
            final(self).is_open() == old(self).is_open(),
            final(self).queued().len() == 0,
            old(self).executions().is_prefix_of(final(self).executions()),
            old(self).is_open() ==> r == Received::WouldBlock,
            !old(self).is_open() ==> r == Received::Closed,
    {
        proof {
            assert(self.executions().is_prefix_of(self.executions()));
        }
        let mut last: Received = Received::WouldBlock;
        loop
            invariant
                self.wf(),
                self.is_open() == old(self).is_open(),
                self.size() == old(self).size(),
                self.history() == old(self).history(),
                old(self).executions().is_prefix_of(self.executions()),
            ensures
                self.wf(),
                self.is_open() == old(self).is_open(),
                self.size() == old(self).size(),
                self.history() == old(self).history(),
                old(self).executions().is_prefix_of(self.executions()),
                self.queued().len() == 0,
                self.is_open() ==> last == Received::WouldBlock,
                !self.is_open() ==> last == Received::Closed,
            decreases self.queued().len(),
        {
            let ghost before = *self;
            let r = self.worker_step();
            proof {
                if before.queued().len() > 0 {
                    lemma_take_is_prefix(before.executions(), self.executions());
                    lemma_prefix_transitive(
                        old(self).executions(),
                        before.executions(),
                        self.executions(),
                    );
                }
            }
            last = r;
            match r {
                Received::Job(_) => {
                },
                _ => {
                    break;
                },
            }
        }
        last
    }

    /// Graceful shutdown: closes the writable end, lets the workers drain
    /// every queued job, and returns the abstract time at which the last
    /// worker is free — the time at which the join of all worker threads
    /// completes. On return every accepted job has been executed exactly
    /// once, in submission order, each no earlier than its own duration
    /// before the returned time.
    pub fn shutdown(&mut self) -> (t: u64)
        requires
            old(self).wf(),
        ensures
            final(self).wf(),
            !final(self).is_open(),
            final(self).size() == old(self).size(),
            final(self).history() == old(self).history(),
            final(self).queued().len() == 0,
            final(self).executed() == final(self).history(),
            old(self).executions().is_prefix_of(final(self).executions()),
            forall|k: int|
                0 <= k < final(self).executions().len() ==> (
                #[trigger] final(self).executions()[k]).finish <= t,
            forall|k: int|
                0 <= k < final(self).executions().len() ==> (
                #[trigger] final(self).executions()[k]).job.duration <= t,
    {
        self.channel.close();
        proof {
            assert forall|k: int| 0 <= k < self.log@.len() implies #[trigger] self.entry_ok(k) by {
                assert(old(self).entry_ok(k));
            }
        }
        let _signal = self.run_worker();
        let mut t: u64 = 0;
        let mut i: usize = 0;
        while i < self.workers.len()
            invariant
                i <= self.workers@.len(),
                forall|j: int|
                    0 <= j < i ==> (#[trigger] self.workers@[j]).busy_until <= t,
            decreases self.workers@.len() - i,
        {
            if self.workers[i].busy_until > t {
                t = self.workers[i].busy_until;
            }
            i = i + 1;
        }
        proof {
            assert(self.executed() + self.queued() =~= self.executed());
            assert forall|k: int|
                0 <= k < self.executions().len() implies (#[trigger] self.executions()[k]).finish
                <= t && self.executions()[k].job.duration <= t by {
                assert(self.entry_ok(k));
                let e = self.log@[k];
                assert(self.workers@[e.worker as int].busy_until <= t);
            }
        }
        t
    }
}

/// A prefix taken from a longer sequence is a prefix of it.
proof fn lemma_take_is_prefix(a: Seq<Execution>, b: Seq<Execution>)
    requires
        a.len() <= b.len(),
        b.take(a.len() as int) == a,
    ensures
        a.is_prefix_of(b),
{
    assert(a =~= b.subrange(0, a.len() as int));
}

/// Being a prefix is transitive.
proof fn lemma_prefix_transitive(a: Seq<Execution>, b: Seq<Execution>, c: Seq<Execution>)
    requires
        a.is_prefix_of(b),
        b.is_prefix_of(c),
    ensures
        a.is_prefix_of(c),
{
    assert(a =~= c.subrange(0, a.len() as int));
}

/// Law: no zero-worker pool exists. Construction refuses a size of zero
/// outright, and every well-formed pool has at least one worker.
pub proof fn lemma_pool_never_empty(p: ThreadPool)
    requires
        p.wf(),
    ensures
        p.size() > 0,
{
}

/// Law: dequeue order is submission order. The jobs already begun, in the
/// order workers began them, are exactly the first of the submission
/// history, and start times never decrease along that order — labels
/// submitted in sequence begin executing in non-decreasing label order.
pub proof fn lemma_fifo_order(p: ThreadPool)
    requires
        p.wf(),
    ensures
        p.executed() == p.history().take(p.executions().len() as int),
        forall|k1: int, k2: int|
            0 <= k1 <= k2 < p.executions().len() ==> (#[trigger] p.executions()[k1]).start
                <= (#[trigger] p.executions()[k2]).start,
{
    assert(p.executed() =~= p.history().take(p.executions().len() as int));
}

/// Law: exactly once. Once the queue is drained — as it is when shutdown
/// returns — the execution log holds exactly the submission history:
/// every accepted job was begun, in order, none dropped, none duplicated.
pub proof fn lemma_exactly_once(p: ThreadPool)
    requires
        p.wf(),
        p.queued().len() == 0,
    ensures
        p.executed() == p.history(),
{
    assert(p.executed() =~= p.executed() + p.queued());
}

/// Law: no job is run twice. When the submitted labels are pairwise
/// distinct, no two executions carry the same label.
pub proof fn lemma_no_duplicate_runs(p: ThreadPool, k1: int, k2: int)
    requires
        p.wf(),
        forall|i: int, j: int|
            0 <= i < j < p.history().len() ==> (#[trigger] p.history()[i]).label
                != (#[trigger] p.history()[j]).label,
        0 <= k1 < k2 < p.executions().len(),
    ensures
        p.executions()[k1].job.label != p.executions()[k2].job.label,
{
    lemma_fifo_order(p);
    assert(p.executions()[k1].job == p.executed()[k1]);
    assert(p.executions()[k2].job == p.executed()[k2]);
    assert(p.executed()[k1] == p.history()[k1]);
    assert(p.executed()[k2] == p.history()[k2]);
}

/// Law: the first jobs run truly concurrently. In any pool, each of the
/// first `size` executions starts at time zero and finishes after exactly
/// its own duration, no matter what ran before it in the queue.
pub proof fn lemma_first_jobs_concurrent(p: ThreadPool, k: int)
    requires
        p.wf(),
        0 <= k < p.executions().len(),
        k < p.size(),
    ensures
        p.executions()[k].start == 0,
        p.executions()[k].finish == p.executions()[k].job.duration,
{
    assert(p.entry_ok(k));
}

/// Law: a batch of at most `size` jobs of one common duration completes
/// within that single duration — the wall-clock evidence that a pool of
/// size N services up to N jobs in parallel, not one after another.
pub proof fn lemma_parallel_batch(p: ThreadPool, d: u64)
    requires
        p.wf(),
        p.executions().len() <= p.size(),
        forall|k: int|
            0 <= k < p.executions().len() ==> (#[trigger] p.executions()[k]).job.duration == d,
    ensures
        forall|k: int|
            0 <= k < p.executions().len() ==> (#[trigger] p.executions()[k]).finish == d,
{
    assert forall|k: int|
        0 <= k < p.executions().len() implies (#[trigger] p.executions()[k]).finish == d by {
        lemma_first_jobs_concurrent(p, k);
    }
}

} // verus!
