//! Progress reports, job creation, and what holds of every scheduler state.
use vstd::prelude::*;
use crate::pool::{Worker, best_worker, lemma_best_worker_is_minimal, occurrences, worker_ready};
use crate::protocol::{TtsJob, TtsJobOptions, TtsResult, job_id_spec, PROTOCOL_VERSION};
use crate::scheduler::{
    JobScheduler, SchedulerProgress, WorkerProgress, in_flight_names, lemma_occ_two, occ, result_ids,
};
use crate::config::{WorkerDefaults, effective_max_concurrent};
use crate::chars::str_eq;

verus! {

/// Average of `total` over `count` items, zero for none.
pub open spec fn average(total: u64, count: usize) -> u64 {
    if count > 0 {
        (total / count as u64) as u64
    } else {
        0
    }
}

/// How many of `names` equal `name`.
fn count_in_flight(names: &Vec<String>, name: &str) -> (r: usize)
    ensures
        r == occurrences(names@, name@),
{
    let mut c: usize = 0;
    let mut i: usize = 0;
    while i < names.len()
        invariant
            i <= names@.len(),
            c == occurrences(names@.take(i as int), name@),
            c <= i,
        decreases names@.len() - i,
    {
        assert(names@.take(i + 1).drop_last() =~= names@.take(i as int));
        if str_eq(names[i].as_str(), name) {
            c = c + 1;
        }
        i = i + 1;
    }
    assert(names@.take(names@.len() as int) =~= names@);
    c
}

impl JobScheduler {
    /// Counts of the queues, and for each worker with completed jobs its
    /// completed count, in-flight count and mean synthesis time.
    pub fn progress(&self) -> (r: SchedulerProgress)
        requires
            self.pending@.len() + self.in_flight@.len() + self.completed@.len()
                + self.failed@.len() <= usize::MAX,
        ensures
            r.total_jobs == self.pending@.len() + self.in_flight@.len() + self.completed@.len()
                + self.failed@.len(),
            r.completed == self.completed@.len(),
            r.in_flight == self.in_flight@.len(),
            r.failed == self.failed@.len(),
            r.workers@.len() == self.worker_stats@.len(),
            forall|i: int|
                0 <= i < r.workers@.len() ==> {
                    let w = #[trigger] r.workers@[i];
                    let s = self.worker_stats@[i];
                    &&& w.name@ == s.name@
                    &&& w.completed == s.completed
                    &&& w.in_flight == occurrences(in_flight_names(self.in_flight@), s.name@)
                    &&& w.avg_time_ms == average(s.total_time_ms, s.completed)
                },
    {
        let names = self.in_flight_workers();
        let mut workers: Vec<WorkerProgress> = Vec::new();
        let mut i: usize = 0;
        while i < self.worker_stats.len()
            invariant
                i <= self.worker_stats@.len(),
                names@ == in_flight_names(self.in_flight@),
                workers@.len() == i,
                forall|k: int|
                    0 <= k < i ==> {
                        let w = #[trigger] workers@[k];
                        let s = self.worker_stats@[k];
                        &&& w.name@ == s.name@
                        &&& w.completed == s.completed
                        &&& w.in_flight == occurrences(in_flight_names(self.in_flight@), s.name@)
                        &&& w.avg_time_ms == average(s.total_time_ms, s.completed)
                    },
            decreases self.worker_stats@.len() - i,
        {
            let s = &self.worker_stats[i];
            let in_flight = count_in_flight(&names, s.name.as_str());
            let avg: u64 = if s.completed > 0 {
                s.total_time_ms / (s.completed as u64)
            } else {
                0
            };
            workers.push(
                WorkerProgress { name: s.name.clone(), completed: s.completed, in_flight, avg_time_ms: avg },
            );
            i = i + 1;
        }
        SchedulerProgress {
            total_jobs: self.pending.len() + self.in_flight.len() + self.completed.len()
                + self.failed.len(),
            completed: self.completed.len(),
            in_flight: self.in_flight.len(),
            failed: self.failed.len(),
            workers,
        }
    }

    /// Hands over the terminal results, leaving the completed list empty.
    pub fn take_completed(&mut self) -> (r: Vec<TtsResult>)
        requires
            old(self).wf(),
        ensures
            r@ == old(self).completed@,
            final(self).completed@.len() == 0,
            final(self).pending == old(self).pending,
            final(self).in_flight == old(self).in_flight,
            final(self).failed == old(self).failed,
            final(self).pool == old(self).pool,
    {
        let mut out: Vec<TtsResult> = Vec::new();
        std::mem::swap(&mut out, &mut self.completed);
        out
    }
}

/// One job per `(chapter, chunk, text)` triple, in order, with the same options.
pub fn create_jobs(
    session_id: &str,
    chunks: &Vec<(usize, usize, String)>,
    options: TtsJobOptions,
) -> (r: Vec<TtsJob>)
    ensures
        r@.len() == chunks@.len(),
        forall|i: int|
            0 <= i < r@.len() ==> {
                let j = #[trigger] r@[i];
                let c = chunks@[i];
                &&& j.version == PROTOCOL_VERSION
                &&& j.session_id@ == session_id@
                &&& j.chapter_id == c.0
                &&& j.chunk_id == c.1
                &&& j.text@ == c.2@
                &&& j.job_id@ == job_id_spec(session_id@, c.0 as nat, c.1 as nat)
                &&& j.options == options
            },
{
    let mut r: Vec<TtsJob> = Vec::new();
    let mut i: usize = 0;
    while i < chunks.len()
        invariant
            i <= chunks@.len(),
            r@.len() == i,
            forall|k: int|
                0 <= k < i ==> {
                    let j = #[trigger] r@[k];
                    let c = chunks@[k];
                    &&& j.version == PROTOCOL_VERSION
                    &&& j.session_id@ == session_id@
                    &&& j.chapter_id == c.0
                    &&& j.chunk_id == c.1
                    &&& j.text@ == c.2@
                    &&& j.job_id@ == job_id_spec(session_id@, c.0 as nat, c.1 as nat)
                    &&& j.options == options
                },
        decreases chunks@.len() - i,
    {
        let c = &chunks[i];
        r.push(TtsJob::new(session_id, c.0, c.1, c.2.as_str(), options.clone()));
        i = i + 1;
    }
    r
}

/// Every terminal result stands once in the completed list, and no job was
/// handed to workers more than `max_retries` times: whether finished or
/// still running.
pub proof fn lemma_dispatch_budget(s: JobScheduler)
    requires
        s.wf(),
    ensures
        forall|i: int, j: int|
            0 <= i < j < s.completed@.len() ==> (#[trigger] s.completed@[i]).job_id@
                != (#[trigger] s.completed@[j]).job_id@,
        forall|i: int|
            0 <= i < s.completed@.len() ==> s.dispatched@[(#[trigger] s.completed@[i]).job_id@]
                <= s.max_retries,
        forall|i: int|
            0 <= i < s.in_flight@.len() ==> s.dispatched@[(#[trigger] s.in_flight@[i]).job.job_id@]
                <= s.max_retries,
{
    let all = s.all_ids();
    let off = s.pending@.len() + s.in_flight@.len() + s.failed@.len();
    assert forall|i: int, j: int|
        0 <= i < j < s.completed@.len() implies (#[trigger] s.completed@[i]).job_id@
        != (#[trigger] s.completed@[j]).job_id@ by {
        assert(all[off + i] == result_ids(s.completed@)[i]);
        assert(all[off + j] == result_ids(s.completed@)[j]);
        if s.completed@[i].job_id@ == s.completed@[j].job_id@ {
            lemma_occ_two(all, off + i, off + j);
        }
    }
}

/// A run ends when nothing is pending, in flight or awaiting retry. Then the
/// completed list holds one terminal result for every job ever enqueued and
/// nothing else, and no job was handed to workers more than `max_retries`
/// times.
pub proof fn lemma_finished_run(s: JobScheduler)
    requires
        s.wf(),
        s.pending@.len() == 0,
        s.in_flight@.len() == 0,
        s.failed@.len() == 0,
    ensures
        forall|id: Seq<char>|
            #[trigger] occ(result_ids(s.completed@), id) == (if s.enqueued@.contains(id) {
                1nat
            } else {
                0nat
            }),
        forall|i: int|
            0 <= i < s.completed@.len() ==> s.dispatched@[(#[trigger] s.completed@[i]).job_id@]
                <= s.max_retries,
{
    assert(s.all_ids() =~= result_ids(s.completed@));
    assert forall|id: Seq<char>|
        #[trigger] occ(result_ids(s.completed@), id) == (if s.enqueued@.contains(id) {
            1nat
        } else {
            0nat
        }) by {
        assert(occ(s.all_ids(), id) <= 1);
    }
}

/// In every well-formed state, no worker of the pool has more jobs in
/// flight than its bound on concurrent jobs.
pub proof fn lemma_in_flight_within_bounds(s: JobScheduler)
    requires
        s.wf(),
    ensures
        forall|i: int|
            0 <= i < s.pool.workers@.len() ==> occurrences(
                in_flight_names(s.in_flight@),
                (#[trigger] s.pool.workers@[i]).config.name@,
            ) <= effective_max_concurrent(s.pool.workers@[i].config, s.pool.defaults),
{
}

/// When no worker is ready, no worker is chosen: nothing is dispatched and
/// no failed job is brought back, whatever is in flight.
pub proof fn lemma_no_ready_worker_no_dispatch(
    ws: Seq<Worker>,
    inflight: Seq<String>,
    d: WorkerDefaults,
)
    requires
        forall|i: int| 0 <= i < ws.len() ==> !worker_ready(#[trigger] ws[i]),
    ensures
        best_worker(ws, inflight, d, ws.len()) is None,
{
    lemma_best_worker_is_minimal(ws, inflight, d, ws.len());
}

} // verus!
