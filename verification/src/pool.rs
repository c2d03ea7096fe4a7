//! A verified model of the fixed-size worker-pool dispatch protocol.
//!
//! A pool owns a first-in-first-out queue of dispatch items and a fixed set
//! of workers.  Ordinary work and the termination signal travel on the same
//! queue: a `DispatchItem` is either one unit of work (identified by a label
//! the submitter chooses) or the shutdown signal.  Teardown enqueues exactly
//! one shutdown signal per worker, behind all previously submitted work, and
//! then drains the queue: every pending job is executed exactly once, in
//! submission order, before the matching count of shutdown signals retires
//! the workers.
//!
//! The model captures the decisions of the protocol — what a worker does
//! with each kind of item, and why no job is lost or run twice — while the
//! blocking channel, the threads, and the joins live outside of it.  A job
//! that never returns would keep its worker from ever reaching a shutdown
//! signal; the model does not represent time, so that accepted limitation
//! shows up only in the surrounding executable code.

use vstd::prelude::*;

verus! {

/// The only thing ever placed on the shared queue: one unit of work,
/// carrying the label its submitter chose, or the signal to stop.
#[derive(Clone, Copy)]
pub enum DispatchItem {
    Work(u64),
    Shutdown,
}

/// The lifecycle of one worker: it runs until it consumes a shutdown
/// signal, and never comes back after that.
#[derive(Clone, Copy)]
pub enum WorkerState {
    Running,
    Terminated,
}

/// The labels of the work items of `q`, in queue order.
pub open spec fn job_ids(q: Seq<DispatchItem>) -> Seq<u64>
    decreases q.len(),
{
    if q.len() == 0 {
        Seq::empty()
    } else {
        match q[0] {
            DispatchItem::Work(j) => seq![j] + job_ids(q.drop_first()),
            DispatchItem::Shutdown => job_ids(q.drop_first()),
        }
    }
}

/// How many shutdown signals `q` holds.
pub open spec fn shutdown_count(q: Seq<DispatchItem>) -> nat
    decreases q.len(),
{
    if q.len() == 0 {
        0
    } else {
        (if q[0] is Shutdown {
            1nat
        } else {
            0nat
        }) + shutdown_count(q.drop_first())
    }
}

/// How many workers of `ws` are still running.
pub open spec fn running_count(ws: Seq<WorkerState>) -> nat
    decreases ws.len(),
{
    if ws.len() == 0 {
        0
    } else {
        (if ws[0] is Running {
            1nat
        } else {
            0nat
        }) + running_count(ws.drop_first())
    }
}

/// The queue that holds exactly the jobs `ids`, in that order.
pub open spec fn work_items(ids: Seq<u64>) -> Seq<DispatchItem> {
    Seq::new(ids.len(), |i: int| DispatchItem::Work(ids[i]))
}

/// `n` shutdown signals in a row.
pub open spec fn shutdown_items(n: nat) -> Seq<DispatchItem> {
    Seq::new(n, |i: int| DispatchItem::Shutdown)
}

/// Appending a work item appends its label to the job list and adds no
/// shutdown signal.
pub proof fn lemma_push_work(q: Seq<DispatchItem>, j: u64)
    ensures
        job_ids(q.push(DispatchItem::Work(j))) =~= job_ids(q).push(j),
        shutdown_count(q.push(DispatchItem::Work(j))) == shutdown_count(q),
    decreases q.len(),
{
    if q.len() == 0 {
        assert(q.push(DispatchItem::Work(j)).drop_first() =~= q);
    } else {
        assert(q.push(DispatchItem::Work(j)).drop_first() =~= q.drop_first().push(
            DispatchItem::Work(j),
        ));
        lemma_push_work(q.drop_first(), j);
    }
}

/// A queue without shutdown signals consists exactly of its jobs.
pub proof fn lemma_all_work(q: Seq<DispatchItem>)
    requires
        shutdown_count(q) == 0,
    ensures
        q =~= work_items(job_ids(q)),
    decreases q.len(),
{
    if q.len() > 0 {
        lemma_all_work(q.drop_first());
        match q[0] {
            DispatchItem::Work(j) => {
                assert(job_ids(q) == seq![j] + job_ids(q.drop_first()));
                assert(q.len() == work_items(job_ids(q)).len());
                assert forall|i: int| 0 <= i < q.len() implies q[i] == work_items(job_ids(q))[i] by {
                    if i > 0 {
                        assert(q[i] == q.drop_first()[i - 1]);
                        assert(q.drop_first()[i - 1] == work_items(job_ids(q.drop_first()))[i - 1]);
                        assert(job_ids(q)[i] == job_ids(q.drop_first())[i - 1]);
                    }
                }
            },
            DispatchItem::Shutdown => {
                assert(false);
            },
        }
    }
}

/// If every worker is running, the running count is the worker count.
pub proof fn lemma_all_running(ws: Seq<WorkerState>)
    requires
        forall|i: int| 0 <= i < ws.len() ==> ws[i] is Running,
    ensures
        running_count(ws) == ws.len(),
    decreases ws.len(),
{
    if ws.len() > 0 {
        lemma_all_running(ws.drop_first());
    }
}

/// If no worker is running, every worker has terminated.
pub proof fn lemma_none_running(ws: Seq<WorkerState>)
    requires
        running_count(ws) == 0,
    ensures
        forall|i: int| 0 <= i < ws.len() ==> ws[i] is Terminated,
    decreases ws.len(),
{
    if ws.len() > 0 {
        lemma_none_running(ws.drop_first());
        assert(forall|i: int| 1 <= i < ws.len() ==> ws[i] == ws.drop_first()[i - 1]);
    }
}

/// Appending one worker state raises the running count by one exactly
/// when that worker is running.
pub proof fn lemma_running_count_push(ws: Seq<WorkerState>, x: WorkerState)
    ensures
        running_count(ws.push(x)) == running_count(ws) + (if x is Running {
            1nat
        } else {
            0nat
        }),
    decreases ws.len(),
{
    if ws.len() == 0 {
        assert(ws.push(x).drop_first() =~= ws);
    } else {
        assert(ws.push(x).drop_first() =~= ws.drop_first().push(x));
        lemma_running_count_push(ws.drop_first(), x);
    }
}

/// Teardown neither drops a job nor runs one twice: when the record
/// after teardown is the record before followed by the jobs that were
/// pending, the new entries are exactly the pending jobs — the same
/// count, the same multiset, and, for pairwise distinct labels, each
/// label exactly once.
pub proof fn lemma_no_loss_no_duplication(before: Seq<u64>, pending: Seq<u64>, after: Seq<u64>)
    requires
        after == before + pending,
    ensures
        after.len() == before.len() + pending.len(),
        after.skip(before.len() as int) == pending,
        after.skip(before.len() as int).to_multiset() == pending.to_multiset(),
        pending.no_duplicates() ==> (forall|j: u64|
            pending.contains(j) ==> after.skip(before.len() as int).to_multiset().count(j) == 1),
{
    assert(after.skip(before.len() as int) =~= pending);
    if pending.no_duplicates() {
        pending.lemma_multiset_has_no_duplicates();
        assert forall|j: u64| pending.contains(j) implies after.skip(
            before.len() as int,
        ).to_multiset().count(j) == 1 by {
            vstd::seq_lib::to_multiset_contains(pending, j);
            assert(pending.to_multiset().count(j) > 0);
        }
    }
}

/// Terminating one running worker lowers the running count by one.
pub proof fn lemma_terminate_one(ws: Seq<WorkerState>, i: int)
    requires
        0 <= i < ws.len(),
        ws[i] is Running,
    ensures
        running_count(ws.update(i, WorkerState::Terminated)) + 1 == running_count(ws),
    decreases ws.len(),
{
    if i == 0 {
        assert(ws.update(0, WorkerState::Terminated).drop_first() =~= ws.drop_first());
    } else {
        assert(ws.update(i, WorkerState::Terminated).drop_first() =~= ws.drop_first().update(
            i - 1,
            WorkerState::Terminated,
        ));
        lemma_terminate_one(ws.drop_first(), i - 1);
    }
}

/// One turn of a worker's receive loop, as a running worker sees it: a work
/// item leaves the worker running and yields the job to execute; the
/// shutdown signal terminates the worker and yields nothing.
pub fn worker_step(state: WorkerState, item: DispatchItem) -> (r: (WorkerState, Option<u64>))
    requires
        state is Running,
    ensures
        match item {
            DispatchItem::Work(j) => r == (WorkerState::Running, Some(j)),
            DispatchItem::Shutdown => r == (WorkerState::Terminated, None::<u64>),
        },
{
    match item {
        DispatchItem::Work(j) => (WorkerState::Running, Some(j)),
        DispatchItem::Shutdown => (WorkerState::Terminated, None),
    }
}

/// The index of some still-running worker.
fn find_running(ws: &Vec<WorkerState>) -> (i: usize)
    requires
        running_count(ws@) > 0,
    ensures
        i < ws@.len(),
        ws@[i as int] is Running,
{
    let n = ws.len();
    let mut w: usize = 0;
    proof {
        assert(ws@.skip(0) =~= ws@);
    }
    loop
        invariant
            w <= n,
            n == ws@.len(),
            running_count(ws@.skip(w as int)) > 0,
        decreases n - w,
    {
        proof {
            if w == n {
                assert(ws@.skip(w as int) =~= Seq::<WorkerState>::empty());
            }
        }
        let state = ws[w];
        match state {
            WorkerState::Running => {
                return w;
            },
            WorkerState::Terminated => {
                proof {
                    assert(ws@.skip(w as int).drop_first() =~= ws@.skip(w as int + 1));
                }
                w = w + 1;
            },
        }
    }
}

/// The model of the pool: the shared queue, the fixed set of workers, and
/// the record of which jobs have been executed, in execution order.
pub struct Pool {
    queue: Vec<DispatchItem>,
    workers: Vec<WorkerState>,
    executed: Vec<u64>,
}

impl Pool {
    /// The dispatch queue, front first.
    pub closed spec fn queue(&self) -> Seq<DispatchItem> {
        self.queue@
    }

    /// The state of each worker, in construction order.
    pub closed spec fn workers(&self) -> Seq<WorkerState> {
        self.workers@
    }

    /// The labels of the jobs executed so far, in execution order.
    pub closed spec fn executed(&self) -> Seq<u64> {
        self.executed@
    }

    /// The labels of the jobs waiting on the queue, front first.
    pub open spec fn pending(&self) -> Seq<u64> {
        job_ids(self.queue())
    }

    /// The number of workers is fixed at construction and never below one.
    pub open spec fn wf(&self) -> bool {
        self.workers().len() >= 1
    }

    /// The pool between construction and teardown: every worker still
    /// running, and no shutdown signal on the queue.
    pub open spec fn in_service(&self) -> bool {
        &&& self.wf()
        &&& forall|i: int| 0 <= i < self.workers().len() ==> self.workers()[i] is Running
        &&& shutdown_count(self.queue()) == 0
    }

    /// Creates a pool of exactly `size` workers, all running and idle.
    ///
    /// A pool of zero workers could never drain its queue, so a zero size
    /// is rejected by the precondition; the executable shell around the
    /// model treats that request as a fatal configuration error.
    pub fn new(size: usize) -> (pool: Pool)
        requires
            size >= 1,
        ensures
            pool.in_service(),
            pool.workers().len() == size,
            pool.queue().len() == 0,
            pool.executed().len() == 0,
    {
        let mut workers: Vec<WorkerState> = Vec::new();
        let mut i: usize = 0;
        while i < size
            invariant
                i == workers@.len(),
                i <= size,
                forall|k: int| 0 <= k < i ==> workers@[k] is Running,
            decreases size - i,
        {
            workers.push(WorkerState::Running);
            i = i + 1;
        }
        Pool { queue: Vec::new(), workers, executed: Vec::new() }
    }

    /// Enqueues one job behind all earlier items and returns at once: the
    /// job is only appended to the pending work, and no worker or executed
    /// job changes.
    pub fn submit(&mut self, job: u64)
        requires
            old(self).in_service(),
        ensures
            final(self).in_service(),
            final(self).workers() == old(self).workers(),
            final(self).executed() == old(self).executed(),
            final(self).pending() =~= old(self).pending().push(job),
    {
        proof {
            lemma_push_work(self.queue@, job);
        }
        self.queue.push(DispatchItem::Work(job));
    }

    /// The number of workers, running or terminated.
    pub fn worker_count(&self) -> (n: usize)
        ensures
            n == self.workers().len(),
    {
        self.workers.len()
    }

    /// The number of workers still running.
    pub fn running_workers(&self) -> (n: usize)
        ensures
            n == running_count(self.workers()),
    {
        let mut n: usize = 0;
        let mut i: usize = 0;
        proof {
            assert(self.workers@.take(0) =~= Seq::<WorkerState>::empty());
        }
        while i < self.workers.len()
            invariant
                i <= self.workers@.len(),
                n <= i,
                n == running_count(self.workers@.take(i as int)),
            decreases self.workers@.len() - i,
        {
            proof {
                assert(self.workers@.take(i + 1) =~= self.workers@.take(i as int).push(
                    self.workers@[i as int],
                ));
                lemma_running_count_push(self.workers@.take(i as int), self.workers@[i as int]);
            }
            let state = self.workers[i];
            match state {
                WorkerState::Running => {
                    n = n + 1;
                },
                WorkerState::Terminated => {},
            }
            i = i + 1;
        }
        proof {
            assert(self.workers@.take(self.workers@.len() as int) =~= self.workers@);
        }
        n
    }

    /// How many items sit on the queue.
    pub fn queue_len(&self) -> (n: usize)
        ensures
            n == self.queue().len(),
    {
        self.queue.len()
    }

    /// How many jobs have been executed so far.
    pub fn executed_count(&self) -> (n: usize)
        ensures
            n == self.executed().len(),
    {
        self.executed.len()
    }

    /// The label of one executed job, in execution order.
    pub fn executed_job(&self, i: usize) -> (j: u64)
        requires
            i < self.executed().len(),
        ensures
            j == self.executed()[i as int],
    {
        self.executed[i]
    }

    /// Tears the pool down: enqueues one shutdown signal per worker behind
    /// all pending work, then drains the queue to the last item.  Every job
    /// that was pending is executed exactly once, in submission order, and
    /// every worker ends terminated with an empty queue left behind.
    pub fn teardown(&mut self)
        requires
            old(self).in_service(),
        ensures
            final(self).executed() =~= old(self).executed() + old(self).pending(),
            final(self).workers().len() == old(self).workers().len(),
            forall|i: int|
                0 <= i < final(self).workers().len() ==> final(self).workers()[i] is Terminated,
            final(self).queue().len() == 0,
    {
        let ghost jobs = job_ids(self.queue@);
        let ghost executed0 = self.executed@;
        let size = self.workers.len();
        proof {
            lemma_all_work(self.queue@);
            assert(self.queue@ =~= work_items(jobs) + shutdown_items(0));
        }

        // One shutdown signal per worker, behind all pending work.
        let mut s: usize = 0;
        while s < size
            invariant
                s <= size,
                self.workers@.len() == size,
                self.executed@ == executed0,
                self.queue@ =~= work_items(jobs) + shutdown_items(s as nat),
                forall|i: int| 0 <= i < size ==> self.workers@[i] is Running,
            decreases size - s,
        {
            self.queue.push(DispatchItem::Shutdown);
            proof {
                assert(self.queue@ =~= work_items(jobs) + shutdown_items((s + 1) as nat));
            }
            s = s + 1;
        }
        proof {
            lemma_all_running(self.workers@);
        }

        // Drain: work items execute in queue order; each shutdown signal
        // retires one still-running worker.
        let ghost mut done: int = 0;
        proof {
            assert(self.executed@ =~= executed0 + jobs.take(0));
        }
        while self.queue.len() > 0
            invariant
                0 <= done <= jobs.len(),
                self.workers@.len() == size,
                self.executed@ =~= executed0 + jobs.take(done),
                self.queue@ =~= work_items(jobs.skip(done)) + shutdown_items(
                    running_count(self.workers@),
                ),
            decreases self.queue@.len(),
        {
            let ghost qpre = self.queue@;
            let item = self.queue.remove(0);
            match worker_step(WorkerState::Running, item) {
                (_, Some(j)) => {
                    proof {
                        assert(item == qpre[0]);
                        assert(done < jobs.len()) by {
                            if done == jobs.len() {
                                assert(qpre[0] == shutdown_items(
                                    running_count(self.workers@),
                                )[0]);
                            }
                        }
                        assert(j == jobs[done]);
                        assert(jobs.take(done + 1) =~= jobs.take(done).push(jobs[done]));
                    }
                    self.executed.push(j);
                    proof {
                        done = done + 1;
                        assert(self.executed@ =~= executed0 + jobs.take(done));
                        assert(self.queue@ =~= work_items(jobs.skip(done)) + shutdown_items(
                            running_count(self.workers@),
                        ));
                    }
                },
                (_, None) => {
                    proof {
                        assert(item == qpre[0]);
                        assert(done == jobs.len()) by {
                            if done < jobs.len() {
                                assert(qpre[0] == work_items(jobs.skip(done))[0]);
                            }
                        }
                        assert(running_count(self.workers@) > 0) by {
                            if running_count(self.workers@) == 0 {
                                assert(qpre.len() == jobs.skip(done).len());
                            }
                        }
                    }
                    let ghost ws0 = self.workers@;
                    let idx = find_running(&self.workers);
                    self.workers[idx] = WorkerState::Terminated;
                    proof {
                        lemma_terminate_one(ws0, idx as int);
                        assert(self.queue@ =~= work_items(jobs.skip(done)) + shutdown_items(
                            running_count(self.workers@),
                        ));
                    }
                },
            }
        }
        proof {
            assert(jobs.skip(done).len() == 0);
            assert(jobs.take(done) =~= jobs);
            assert(running_count(self.workers@) == 0);
            lemma_none_running(self.workers@);
        }
    }
}

} // verus!
