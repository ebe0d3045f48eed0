//! The dispatcher's decisions: which job goes to which worker, what a
//! result does to the queues, and when the run is over. The caller runs the
//! loop: it performs each dispatch and hands every result back.
use vstd::prelude::*;
use std::collections::VecDeque;
use crate::config::{WorkerConfig, effective_max_concurrent};
use crate::pool::{Worker, WorkerPool, occurrences};
use crate::protocol::{TtsJob, TtsResult};

verus! {

/// Progress of a run.
#[derive(Debug, Clone)]
pub struct SchedulerProgress {
    /// All jobs: pending, in flight, finished and awaiting retry.
    pub total_jobs: usize,
    /// Jobs with a terminal result.
    pub completed: usize,
    /// Jobs running on a worker.
    pub in_flight: usize,
    /// Jobs waiting for a retry.
    pub failed: usize,
    /// Per-worker statistics.
    pub workers: Vec<WorkerProgress>,
}

/// Progress of one worker.
#[derive(Debug, Clone)]
pub struct WorkerProgress {
    pub name: String,
    /// Jobs this worker completed.
    pub completed: usize,
    /// Jobs running on this worker.
    pub in_flight: usize,
    /// Mean synthesis time per completed job, in milliseconds.
    pub avg_time_ms: u64,
}

/// A job waiting for a worker, with the number of its failed attempts.
#[derive(Debug)]
pub struct QueuedJob {
    pub job: TtsJob,
    pub failures: u32,
}

/// A job running on a worker.
#[derive(Debug)]
pub struct InFlightJob {
    pub job: TtsJob,
    pub worker_name: String,
    /// Failed attempts before this one.
    pub failures: u32,
}

/// Completed-job statistics of one worker.
#[derive(Debug)]
pub struct WorkerStats {
    pub name: String,
    pub completed: usize,
    pub total_time_ms: u64,
}

/// What the caller performs for a dispatch: run `job` on the named worker
/// with the given configuration, under `job_timeout_secs`.
#[derive(Debug)]
pub struct Dispatch {
    pub job: TtsJob,
    pub worker_name: String,
    pub worker_config: WorkerConfig,
    pub job_timeout_secs: u64,
}

/// What the caller does after a result was handled.
#[derive(Debug)]
pub enum ResultAction {
    /// No job of that identifier was in flight: nothing changed.
    Dropped,
    /// The job failed and waits for another attempt.
    Retry,
    /// The result was appended to the completed list. When `download` is set,
    /// the caller fetches `(remote, local)` from the worker and then removes
    /// the remote file.
    Terminal { download: Option<(String, String)> },
}

/// The identifiers of a sequence of queued jobs.
pub open spec fn queued_ids(s: Seq<QueuedJob>) -> Seq<Seq<char>> {
    s.map_values(|q: QueuedJob| q.job.job_id@)
}

pub open spec fn in_flight_ids(s: Seq<InFlightJob>) -> Seq<Seq<char>> {
    s.map_values(|e: InFlightJob| e.job.job_id@)
}

pub open spec fn in_flight_names(s: Seq<InFlightJob>) -> Seq<String> {
    s.map_values(|e: InFlightJob| e.worker_name)
}

pub open spec fn result_ids(s: Seq<TtsResult>) -> Seq<Seq<char>> {
    s.map_values(|r: TtsResult| r.job_id@)
}

/// How many times `id` occurs in `s`.
pub open spec fn occ(s: Seq<Seq<char>>, id: Seq<char>) -> nat
    decreases s.len(),
{
    if s.len() == 0 {
        0
    } else {
        occ(s.drop_last(), id) + (if s.last() == id {
            1nat
        } else {
            0nat
        })
    }
}

pub(crate) proof fn lemma_occ_remove(s: Seq<Seq<char>>, k: int, id: Seq<char>)
    requires
        0 <= k < s.len(),
    ensures
        occ(s.remove(k), id) + (if s[k] == id {
            1nat
        } else {
            0nat
        }) == occ(s, id),
    decreases s.len(),
{
    if k == s.len() - 1 {
        assert(s.remove(k) =~= s.drop_last());
    } else {
        assert(s.remove(k).drop_last() =~= s.drop_last().remove(k));
        assert(s.remove(k).last() == s.last());
        lemma_occ_remove(s.drop_last(), k, id);
    }
}

pub(crate) proof fn lemma_occ_insert(s: Seq<Seq<char>>, k: int, x: Seq<char>, id: Seq<char>)
    requires
        0 <= k <= s.len(),
    ensures
        occ(s.insert(k, x), id) == occ(s, id) + (if x == id {
            1nat
        } else {
            0nat
        }),
{
    assert(s.insert(k, x).remove(k) =~= s);
    lemma_occ_remove(s.insert(k, x), k, id);
}

pub(crate) proof fn lemma_occurrences_remove(s: Seq<String>, k: int, name: Seq<char>)
    requires
        0 <= k < s.len(),
    ensures
        occurrences(s.remove(k), name) <= occurrences(s, name),
    decreases s.len(),
{
    if k == s.len() - 1 {
        assert(s.remove(k) =~= s.drop_last());
    } else {
        assert(s.remove(k).drop_last() =~= s.drop_last().remove(k));
        assert(s.remove(k).last() == s.last());
        lemma_occurrences_remove(s.drop_last(), k, name);
    }
}

/// No two workers of the pool share a name.
pub open spec fn pool_names_unique(ws: Seq<Worker>) -> bool {
    forall|i: int, j: int|
        0 <= i < ws.len() && 0 <= j < ws.len() && i != j ==> (#[trigger] ws[i]).config.name@
            != (#[trigger] ws[j]).config.name@
}

/// `s[a]` and `s[b]` at two positions are the same identifier: it occurs twice.
pub(crate) proof fn lemma_occ_two(s: Seq<Seq<char>>, a: int, b: int)
    requires
        0 <= a < s.len(),
        0 <= b < s.len(),
        a != b,
        s[a] == s[b],
    ensures
        occ(s, s[a]) >= 2,
{
    lemma_occ_remove(s, a, s[a]);
    let t = s.remove(a);
    let bb = if b < a { b } else { b - 1 };
    assert(t[bb] == s[b]);
    lemma_occ_remove(t, bb, s[a]);
}

/// The scheduler's queues, the retry budget, per-worker statistics, the
/// pool, and the directory that receives downloaded audio.
pub struct JobScheduler {
    pub pool: WorkerPool,
    /// Jobs waiting for a worker, in order.
    pub pending: VecDeque<QueuedJob>,
    pub in_flight: Vec<InFlightJob>,
    /// Terminal results, successful or out of retries.
    pub completed: Vec<TtsResult>,
    /// Jobs waiting to be retried.
    pub failed: Vec<QueuedJob>,
    pub max_retries: u32,
    pub worker_stats: Vec<WorkerStats>,
    pub temp_dir: String,
    /// How many times each job identifier has been handed to a worker.
    pub dispatched: Ghost<Map<Seq<char>, nat>>,
    /// The identifiers of every job ever enqueued.
    pub enqueued: Ghost<Set<Seq<char>>>,
}

impl JobScheduler {
    /// All identifiers, live and finished.
    pub open spec fn all_ids(&self) -> Seq<Seq<char>> {
        queued_ids(self.pending@) + in_flight_ids(self.in_flight@) + queued_ids(self.failed@)
            + result_ids(self.completed@)
    }

    /// The number of in-flight jobs on each worker of the pool stays within
    /// that worker's bound.
    pub open spec fn within_bounds(&self) -> bool {
        forall|i: int|
            0 <= i < self.pool.workers@.len() ==> occurrences(
                in_flight_names(self.in_flight@),
                (#[trigger] self.pool.workers@[i]).config.name@,
            ) <= effective_max_concurrent(self.pool.workers@[i].config, self.pool.defaults)
    }

    /// The scheduler's invariant: each identifier is held once across the
    /// queues and the completed list; a waiting job has been dispatched as
    /// often as it failed, fewer times than the budget; a running job is on
    /// its attempt `failures + 1`, within the budget; a finished job was
    /// dispatched at most `max_retries` times; the identifiers held are
    /// exactly those ever enqueued; and no worker is over its bound.
    pub open spec fn wf(&self) -> bool {
        &&& self.max_retries >= 1
        &&& forall|id: Seq<char>| #[trigger] occ(self.all_ids(), id) <= 1
        &&& forall|id: Seq<char>| #[trigger] occ(self.all_ids(), id) == 1 <==> self.enqueued@.contains(id)
        &&& forall|i: int|
            0 <= i < self.pending@.len() ==> {
                let q = #[trigger] self.pending@[i];
                &&& self.dispatched@.contains_key(q.job.job_id@)
                &&& self.dispatched@[q.job.job_id@] == q.failures
                &&& q.failures < self.max_retries
            }
        &&& forall|i: int|
            0 <= i < self.failed@.len() ==> {
                let q = #[trigger] self.failed@[i];
                &&& self.dispatched@.contains_key(q.job.job_id@)
                &&& self.dispatched@[q.job.job_id@] == q.failures
                &&& q.failures < self.max_retries
            }
        &&& forall|i: int|
            0 <= i < self.in_flight@.len() ==> {
                let e = #[trigger] self.in_flight@[i];
                &&& self.dispatched@.contains_key(e.job.job_id@)
                &&& self.dispatched@[e.job.job_id@] == e.failures + 1
                &&& e.failures < self.max_retries
            }
        &&& forall|i: int|
            0 <= i < self.completed@.len() ==> {
                let r = #[trigger] self.completed@[i];
                &&& self.dispatched@.contains_key(r.job_id@)
                &&& self.dispatched@[r.job_id@] <= self.max_retries
            }
        &&& self.within_bounds()
        &&& pool_names_unique(self.pool.workers@)
    }

    /// A scheduler with empty queues over `pool`, with a retry budget of three.
    pub fn new(pool: WorkerPool, temp_dir: String) -> (r: Self)
        requires
            pool_names_unique(pool.workers@),
        ensures
            r.wf(),
            r.pool == pool,
            r.temp_dir == temp_dir,
            r.pending@.len() == 0,
            r.in_flight@.len() == 0,
            r.completed@.len() == 0,
            r.failed@.len() == 0,
            r.max_retries == 3,
            r.enqueued@ == Set::<Seq<char>>::empty(),
    {
        let r = JobScheduler {
            pool,
            pending: VecDeque::new(),
            in_flight: Vec::new(),
            completed: Vec::new(),
            failed: Vec::new(),
            max_retries: 3,
            worker_stats: Vec::new(),
            temp_dir,
            dispatched: Ghost(Map::empty()),
            enqueued: Ghost(Set::empty()),
        };
        assert forall|id: Seq<char>| #[trigger] occ(r.all_ids(), id) <= 1 by {
            assert(r.all_ids() =~= Seq::<Seq<char>>::empty());
        }
        assert forall|i: int| 0 <= i < r.pool.workers@.len() implies occurrences(
            in_flight_names(r.in_flight@),
            (#[trigger] r.pool.workers@[i]).config.name@,
        ) <= effective_max_concurrent(r.pool.workers@[i].config, r.pool.defaults) by {
            assert(in_flight_names(r.in_flight@) =~= Seq::<String>::empty());
        }
        r
    }

    /// Whether nothing is pending, in flight or awaiting retry.
    pub fn is_finished(&self) -> (r: bool)
        ensures
            r == (self.pending@.len() == 0 && self.in_flight@.len() == 0 && self.failed@.len()
                == 0),
    {
        self.pending.len() == 0 && self.in_flight.len() == 0 && self.failed.len() == 0
    }

    /// Adds jobs at the back of the queue, in order.
    pub fn enqueue(&mut self, jobs: Vec<TtsJob>)
        requires
            old(self).wf(),
            forall|i: int, j: int|
                0 <= i < j < jobs@.len() ==> (#[trigger] jobs@[i]).job_id@ != (#[trigger] jobs@[j]).job_id@,
            forall|i: int|
                0 <= i < jobs@.len() ==> occ(old(self).all_ids(), (#[trigger] jobs@[i]).job_id@)
                    == 0,
        ensures
            final(self).wf(),
            final(self).pending@.len() == old(self).pending@.len() + jobs@.len(),
            forall|i: int|
                0 <= i < old(self).pending@.len() ==> #[trigger] final(self).pending@[i] == old(
                    self,
                ).pending@[i],
            forall|i: int|
                0 <= i < jobs@.len() ==> (#[trigger] final(self).pending@[old(self).pending@.len()
                    + i]).job == jobs@[i] && final(self).pending@[old(self).pending@.len()
                    + i].failures == 0,
            final(self).in_flight == old(self).in_flight,
            final(self).failed == old(self).failed,
            final(self).completed == old(self).completed,
            final(self).pool == old(self).pool,
            forall|id: Seq<char>|
                #[trigger] final(self).enqueued@.contains(id) <==> (old(self).enqueued@.contains(id)
                    || exists|i: int| 0 <= i < jobs@.len() && jobs@[i].job_id@ == id),
    {
        let ghost old_pending = self.pending@;
        let ghost n0 = self.pending@.len();
        let mut jobs = jobs;
        let ghost all_jobs = jobs@;
        // take the jobs from the back, then queue them in their original order
        let mut rev: Vec<TtsJob> = Vec::new();
        while jobs.len() > 0
            invariant
                all_jobs == jobs@ + rev@.reverse(),
            decreases jobs@.len(),
        {
            let j = jobs.pop().unwrap();
            proof {
                assert(rev@.push(j).reverse() =~= seq![j] + rev@.reverse());
            }
            rev.push(j);
        }
        assert(all_jobs =~= rev@.reverse());
        let total = rev.len();
        let mut k: usize = 0;
        while k < total
            invariant
                self.wf(),
                total == all_jobs.len(),
                k <= total,
                rev@.len() == total - k,
                forall|m: int| 0 <= m < rev@.len() ==> #[trigger] rev@[m] == all_jobs[total - 1 - m],
                self.pending@.len() == n0 + k,
                forall|i: int| 0 <= i < n0 ==> #[trigger] self.pending@[i] == old_pending[i],
                forall|i: int|
                    0 <= i < k ==> (#[trigger] self.pending@[n0 + i]).job == all_jobs[i]
                        && self.pending@[n0 + i].failures == 0,
                forall|i: int, j: int|
                    0 <= i < j < all_jobs.len() ==> (#[trigger] all_jobs[i]).job_id@
                        != (#[trigger] all_jobs[j]).job_id@,
                forall|i: int|
                    k <= i < all_jobs.len() ==> occ(self.all_ids(), (#[trigger] all_jobs[i]).job_id@)
                        == 0,
                self.in_flight == old(self).in_flight,
                self.failed == old(self).failed,
                self.completed == old(self).completed,
                self.pool == old(self).pool,
                forall|x: Seq<char>|
                    #[trigger] self.enqueued@.contains(x) <==> (old(self).enqueued@.contains(x)
                        || exists|i: int| 0 <= i < k && all_jobs[i].job_id@ == x),
            decreases total - k,
        {
            let job = rev.pop().unwrap();
            assert(job == all_jobs[k as int]);
            let ghost id = job.job_id@;
            let ghost before = self.all_ids();
            let ghost old_p = self.pending@;
            self.pending.push_back(QueuedJob { job, failures: 0 });
            let ghost pos = queued_ids(old_p).len() as int;
            proof {
                self.dispatched@ = self.dispatched@.insert(id, 0);
                self.enqueued@ = self.enqueued@.insert(id);
                assert forall|x: Seq<char>|
                    #[trigger] self.enqueued@.contains(x) <==> (old(self).enqueued@.contains(x)
                        || exists|i: int| 0 <= i < k + 1 && all_jobs[i].job_id@ == x) by {
                    if x == id {
                        assert(all_jobs[k as int].job_id@ == x);
                    }
                    if exists|i: int| 0 <= i < k + 1 && all_jobs[i].job_id@ == x {
                        let i = choose|i: int| 0 <= i < k + 1 && all_jobs[i].job_id@ == x;
                        if i < k {
                        } else {
                            assert(x == id);
                        }
                    }
                }
                assert(queued_ids(self.pending@) =~= queued_ids(old_p).push(id));
                assert(self.all_ids() =~= before.insert(pos, id));
                assert forall|x: Seq<char>| #[trigger] occ(self.all_ids(), x) == occ(before, x) + (if x
                    == id {
                    1nat
                } else {
                    0nat
                }) by {
                    lemma_occ_insert(before, pos, id, x);
                }
                assert forall|i: int|
                    k + 1 <= i < all_jobs.len() implies occ(
                        self.all_ids(),
                        (#[trigger] all_jobs[i]).job_id@,
                    ) == 0 by {
                    lemma_occ_insert(before, pos, id, all_jobs[i].job_id@);
                    assert(all_jobs[k as int].job_id@ != all_jobs[i].job_id@);
                }
                // identifiers already held keep their dispatch counts
                assert(occ(before, id) == 0);
                assert forall|i: int| 0 <= i < self.pending@.len() implies {
                    let q = #[trigger] self.pending@[i];
                    &&& self.dispatched@.contains_key(q.job.job_id@)
                    &&& self.dispatched@[q.job.job_id@] == q.failures
                    &&& q.failures < self.max_retries
                } by {
                    if i < old_p.len() {
                        assert(self.pending@[i] == old_p[i]);
                        assert(before[i] == old_p[i].job.job_id@);
                        lemma_occ_positive(before, i);
                    }
                }
                assert forall|i: int| 0 <= i < self.failed@.len() implies {
                    let q = #[trigger] self.failed@[i];
                    &&& self.dispatched@.contains_key(q.job.job_id@)
                    &&& self.dispatched@[q.job.job_id@] == q.failures
                    &&& q.failures < self.max_retries
                } by {
                    let off = old_p.len() + self.in_flight@.len();
                    assert(before[off + i] == self.failed@[i].job.job_id@);
                    lemma_occ_positive(before, off + i);
                }
                assert forall|i: int| 0 <= i < self.in_flight@.len() implies {
                    let e = #[trigger] self.in_flight@[i];
                    &&& self.dispatched@.contains_key(e.job.job_id@)
                    &&& self.dispatched@[e.job.job_id@] == e.failures + 1
                    &&& e.failures < self.max_retries
                } by {
                    assert(before[old_p.len() + i] == self.in_flight@[i].job.job_id@);
                    lemma_occ_positive(before, old_p.len() + i);
                }
                assert forall|i: int| 0 <= i < self.completed@.len() implies {
                    let r = #[trigger] self.completed@[i];
                    &&& self.dispatched@.contains_key(r.job_id@)
                    &&& self.dispatched@[r.job_id@] <= self.max_retries
                } by {
                    let off = old_p.len() + self.in_flight@.len() + self.failed@.len();
                    assert(before[off + i] == self.completed@[i].job_id@);
                    lemma_occ_positive(before, off + i);
                }
            }
            k = k + 1;
        }
    }
}

pub(crate) proof fn lemma_occ_positive(s: Seq<Seq<char>>, k: int)
    requires
        0 <= k < s.len(),
    ensures
        occ(s, s[k]) >= 1,
{
    lemma_occ_remove(s, k, s[k]);
}

} // verus!
