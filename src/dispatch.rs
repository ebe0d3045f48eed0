//! The dispatcher's steps: handing the head of the queue to a worker,
//! bringing a failed job back, and taking in a result.
use vstd::prelude::*;
use crate::chars::{push_all, str_eq};
use crate::config::{effective_job_timeout, effective_max_concurrent};
use crate::pool::{best_worker, lemma_best_worker_is_minimal, occurrences};
use crate::protocol::{JobStatus, TtsResult};
use crate::scheduler::{
    Dispatch, InFlightJob, JobScheduler, QueuedJob, ResultAction, WorkerStats, in_flight_ids,
    in_flight_names, lemma_occ_insert, lemma_occ_remove, lemma_occ_two,
    lemma_occurrences_remove, occ, queued_ids, result_ids,
};
use crate::transport::{path_join, path_join_of};

verus! {

/// Position of the first in-flight job with identifier `id`, or -1.
pub open spec fn find_in_flight(s: Seq<InFlightJob>, id: Seq<char>) -> int
    decreases s.len(),
{
    if s.len() == 0 {
        -1
    } else if find_in_flight(s.drop_last(), id) >= 0 {
        find_in_flight(s.drop_last(), id)
    } else if s.last().job.job_id@ == id {
        s.len() - 1
    } else {
        -1
    }
}

proof fn lemma_find_in_flight(s: Seq<InFlightJob>, id: Seq<char>)
    ensures
        -1 <= find_in_flight(s, id) < s.len(),
        find_in_flight(s, id) >= 0 ==> s[find_in_flight(s, id)].job.job_id@ == id,
        find_in_flight(s, id) < 0 ==> forall|k: int|
            0 <= k < s.len() ==> (#[trigger] s[k]).job.job_id@ != id,
        forall|k: int|
            0 <= k < find_in_flight(s, id) ==> (#[trigger] s[k]).job.job_id@ != id,
    decreases s.len(),
{
    if s.len() > 0 {
        let t = s.drop_last();
        lemma_find_in_flight(t, id);
        assert forall|k: int|
            0 <= k < s.len() && find_in_flight(s, id) < 0 implies (#[trigger] s[k]).job.job_id@
            != id by {
            if k < s.len() - 1 {
                assert(s[k] == t[k]);
            }
        }
        assert forall|k: int| 0 <= k < find_in_flight(s, id) implies (#[trigger] s[k]).job.job_id@
            != id by {
            assert(s[k] == t[k]);
        }
    }
}

/// The local file a completed job's audio is downloaded to.
pub open spec fn local_audio_path(temp_dir: Seq<char>, job_id: Seq<char>) -> Seq<char> {
    path_join_of(temp_dir, job_id + seq!['.', 'w', 'a', 'v'])
}

impl JobScheduler {
    /// The worker name of each job in flight, in order.
    pub fn in_flight_workers(&self) -> (r: Vec<String>)
        ensures
            r@ == in_flight_names(self.in_flight@),
    {
        let mut r: Vec<String> = Vec::new();
        let mut i: usize = 0;
        while i < self.in_flight.len()
            invariant
                i <= self.in_flight@.len(),
                r@ == in_flight_names(self.in_flight@.take(i as int)),
            decreases self.in_flight@.len() - i,
        {
            r.push(self.in_flight[i].worker_name.clone());
            i = i + 1;
            assert(r@ =~= in_flight_names(self.in_flight@.take(i as int)));
        }
        assert(self.in_flight@.take(i as int) =~= self.in_flight@);
        r
    }

    /// Hands the head of the queue to the preferred eligible worker, if the
    /// queue is not empty and some worker is eligible; records it in flight.
    pub fn dispatch_next(&mut self) -> (r: Option<Dispatch>)
        requires
            old(self).wf(),
        ensures
            final(self).wf(),
            final(self).pool == old(self).pool,
            final(self).completed == old(self).completed,
            final(self).failed == old(self).failed,
            final(self).max_retries == old(self).max_retries,
            final(self).enqueued == old(self).enqueued,
            r is None <==> (old(self).pending@.len() == 0 || best_worker(
                old(self).pool.workers@,
                in_flight_names(old(self).in_flight@),
                old(self).pool.defaults,
                old(self).pool.workers@.len(),
            ) is None),
            r is None ==> final(self).pending@ == old(self).pending@ && final(self).in_flight@
                == old(self).in_flight@,
            r matches Some(d) ==> {
                let i = best_worker(
                    old(self).pool.workers@,
                    in_flight_names(old(self).in_flight@),
                    old(self).pool.defaults,
                    old(self).pool.workers@.len(),
                )->0;
                let w = old(self).pool.workers@[i];
                let q = old(self).pending@[0];
                &&& d.job == q.job
                &&& d.worker_name@ == w.config.name@
                &&& d.worker_config == w.config
                &&& d.job_timeout_secs == effective_job_timeout(w.config, old(self).pool.defaults)
                &&& final(self).pending@ == old(self).pending@.skip(1)
                &&& final(self).in_flight@.len() == old(self).in_flight@.len() + 1
                &&& final(self).in_flight@.drop_last() == old(self).in_flight@
                &&& final(self).in_flight@.last().job == q.job
                &&& final(self).in_flight@.last().worker_name@ == w.config.name@
                &&& final(self).in_flight@.last().failures == q.failures
            },
    {
        if self.pending.len() == 0 {
            return None;
        }
        let names = self.in_flight_workers();
        let chosen = self.pool.select_worker(&names);
        proof {
            lemma_best_worker_is_minimal(
                self.pool.workers@,
                names@,
                self.pool.defaults,
                self.pool.workers@.len(),
            );
        }
        let ghost best = best_worker(
            self.pool.workers@,
            names@,
            self.pool.defaults,
            self.pool.workers@.len(),
        );
        match chosen {
            None => None,
            Some(i) => {
                assert(self.pool.workers@.len() == self.pool.workers.len());
                assert(best->0 as usize == i);
                assert(best->0 == i as int);
                let ghost before = self.all_ids();
                let ghost old_self_in_flight = self.in_flight@;
                let ghost old_pending = self.pending@;
                let ghost old_d = self.dispatched@;
                let q = self.pending.pop_front().unwrap();
                let ghost id = q.job.job_id@;
                let name = self.pool.workers[i].config.name.clone();
                let cfg = self.pool.workers[i].config.clone();
                let timeout = self.pool.workers[i].config.job_timeout(&self.pool.defaults);
                let job_copy = q.job.clone();
                let failures = q.failures;
                self.in_flight.push(InFlightJob { job: q.job, worker_name: name.clone(), failures });
                proof {
                    assert(old_pending[0] == q);
                    self.dispatched@ = old_d.insert(id, (failures + 1) as nat);
                    let np = old_pending.len() as int;
                    let ni = old_self_in_flight.len() as int;
                    assert(queued_ids(self.pending@) =~= queued_ids(old_pending).remove(0));
                    assert(in_flight_ids(self.in_flight@) =~= in_flight_ids(old_self_in_flight).push(
                        id,
                    ));
                    assert(self.all_ids() =~= before.remove(0).insert(np - 1 + ni, id));
                    assert(before[0] == id);
                    assert forall|x: Seq<char>| #[trigger] occ(self.all_ids(), x) == occ(before, x) by {
                        lemma_occ_remove(before, 0, x);
                        lemma_occ_insert(before.remove(0), np - 1 + ni, id, x);
                    }
                    // every other entry carries another identifier
                    assert forall|k: int| 1 <= k < before.len() implies #[trigger] before[k] != id by {
                        if before[k] == id {
                            lemma_occ_two(before, 0, k);
                        }
                    }
                    assert forall|k: int| 0 <= k < self.pending@.len() implies {
                        let p = #[trigger] self.pending@[k];
                        &&& self.dispatched@.contains_key(p.job.job_id@)
                        &&& self.dispatched@[p.job.job_id@] == p.failures
                        &&& p.failures < self.max_retries
                    } by {
                        assert(self.pending@[k] == old_pending[k + 1]);
                        assert(before[k + 1] == old_pending[k + 1].job.job_id@);
                    }
                    assert forall|k: int| 0 <= k < self.failed@.len() implies {
                        let p = #[trigger] self.failed@[k];
                        &&& self.dispatched@.contains_key(p.job.job_id@)
                        &&& self.dispatched@[p.job.job_id@] == p.failures
                        &&& p.failures < self.max_retries
                    } by {
                        assert(before[np + ni + k] == self.failed@[k].job.job_id@);
                    }
                    assert forall|k: int| 0 <= k < self.in_flight@.len() implies {
                        let e = #[trigger] self.in_flight@[k];
                        &&& self.dispatched@.contains_key(e.job.job_id@)
                        &&& self.dispatched@[e.job.job_id@] == e.failures + 1
                        &&& e.failures < self.max_retries
                    } by {
                        if k < ni {
                            assert(self.in_flight@[k] == old_self_in_flight[k]);
                            assert(before[np + k] == old_self_in_flight[k].job.job_id@);
                        }
                    }
                    assert forall|k: int| 0 <= k < self.completed@.len() implies {
                        let r = #[trigger] self.completed@[k];
                        &&& self.dispatched@.contains_key(r.job_id@)
                        &&& self.dispatched@[r.job_id@] <= self.max_retries
                    } by {
                        assert(before[np + ni + self.failed@.len() + k] == self.completed@[k].job_id@);
                    }
                    // the chosen worker had room; the others keep their counts
                    assert(in_flight_names(self.in_flight@) =~= names@.push(name));
                    assert forall|j: int| 0 <= j < self.pool.workers@.len() implies occurrences(
                        in_flight_names(self.in_flight@),
                        (#[trigger] self.pool.workers@[j]).config.name@,
                    ) <= effective_max_concurrent(self.pool.workers@[j].config, self.pool.defaults) by {
                        let nm = self.pool.workers@[j].config.name@;
                        assert(names@.push(name).drop_last() =~= names@);
                        assert(name@ == self.pool.workers@[i as int].config.name@);
                        if j != i {
                            assert(nm != name@);
                        }
                    }
                }
                Some(Dispatch { job: job_copy, worker_name: name, worker_config: cfg, job_timeout_secs: timeout })
            },
        }
    }

    /// Moves the most recently failed job to the front of the queue, when
    /// one is waiting and some worker could take it now.
    pub fn promote_failed(&mut self) -> (r: bool)
        requires
            old(self).wf(),
        ensures
            final(self).wf(),
            final(self).pool == old(self).pool,
            final(self).completed == old(self).completed,
            final(self).in_flight == old(self).in_flight,
            final(self).max_retries == old(self).max_retries,
            final(self).enqueued == old(self).enqueued,
            r == (old(self).failed@.len() > 0 && best_worker(
                old(self).pool.workers@,
                in_flight_names(old(self).in_flight@),
                old(self).pool.defaults,
                old(self).pool.workers@.len(),
            ) is Some),
            r ==> final(self).failed@ == old(self).failed@.drop_last() && final(self).pending@
                == seq![old(self).failed@.last()] + old(self).pending@,
            !r ==> final(self).failed@ == old(self).failed@ && final(self).pending@
                == old(self).pending@,
    {
        if self.failed.len() == 0 {
            return false;
        }
        let names = self.in_flight_workers();
        if self.pool.select_worker(&names).is_none() {
            return false;
        }
        let ghost before = self.all_ids();
        let ghost old_pending = self.pending@;
        let ghost old_failed = self.failed@;
        let q = self.failed.pop().unwrap();
        let ghost id = q.job.job_id@;
        self.pending.push_front(q);
        proof {
            let np = old_pending.len() as int;
            let ni = self.in_flight@.len() as int;
            let nf = old_failed.len() as int;
            assert(queued_ids(self.pending@) =~= queued_ids(old_pending).insert(0, id));
            assert(queued_ids(self.failed@) =~= queued_ids(old_failed).drop_last());
            assert(before[np + ni + nf - 1] == id);
            assert(self.all_ids() =~= before.remove(np + ni + nf - 1).insert(0, id));
            assert forall|x: Seq<char>| #[trigger] occ(self.all_ids(), x) == occ(before, x) by {
                lemma_occ_remove(before, np + ni + nf - 1, x);
                lemma_occ_insert(before.remove(np + ni + nf - 1), 0, id, x);
            }
            assert(self.pending@ =~= seq![old_failed.last()] + old_pending);
            assert(self.failed@ =~= old_failed.drop_last());
            assert forall|k: int| 0 <= k < self.pending@.len() implies {
                let p = #[trigger] self.pending@[k];
                &&& self.dispatched@.contains_key(p.job.job_id@)
                &&& self.dispatched@[p.job.job_id@] == p.failures
                &&& p.failures < self.max_retries
            } by {
                if k == 0 {
                    assert(self.pending@[0] == old_failed[nf - 1]);
                } else {
                    assert(self.pending@[k] == old_pending[k - 1]);
                }
            }
            assert forall|k: int| 0 <= k < self.failed@.len() implies {
                let p = #[trigger] self.failed@[k];
                &&& self.dispatched@.contains_key(p.job.job_id@)
                &&& self.dispatched@[p.job.job_id@] == p.failures
                &&& p.failures < self.max_retries
            } by {
                assert(self.failed@[k] == old_failed[k]);
            }
        }
        true
    }

    /// Takes in a worker's result. A result for no job in flight is dropped.
    /// A completed result, or a failure that used up the retry budget, is
    /// terminal and appended to the completed list; another failure puts the
    /// job back among those awaiting retry.
    pub fn handle_result(&mut self, worker_name: &str, result: TtsResult) -> (r: ResultAction)
        requires
            old(self).wf(),
        ensures
            final(self).wf(),
            final(self).pool == old(self).pool,
            final(self).pending == old(self).pending,
            final(self).max_retries == old(self).max_retries,
            final(self).enqueued == old(self).enqueued,
            ({
                let k = find_in_flight(old(self).in_flight@, result.job_id@);
                if k < 0 {
                    &&& r is Dropped
                    &&& final(self).worker_stats == old(self).worker_stats
                    &&& final(self).in_flight == old(self).in_flight
                    &&& final(self).failed == old(self).failed
                    &&& final(self).completed == old(self).completed
                } else {
                    let e = old(self).in_flight@[k];
                    &&& final(self).in_flight@ == old(self).in_flight@.remove(k)
                    &&& if result.status == JobStatus::Completed {
                        &&& r matches ResultAction::Terminal { download }
                        &&& result.audio_path is None ==> download is None
                        &&& result.audio_path matches Some(p) ==> (download matches Some(dl)
                            && dl.0 == p && dl.1@ == local_audio_path(
                            old(self).temp_dir@,
                            result.job_id@,
                        ))
                        &&& final(self).completed@ == old(self).completed@.push(result)
                        &&& final(self).failed == old(self).failed
                        &&& stats_views(final(self).worker_stats@) == stats_after(
                            stats_views(old(self).worker_stats@),
                            worker_name@,
                            duration_of(result.duration_ms),
                        )
                    } else if e.failures + 1 < old(self).max_retries {
                        &&& r is Retry
                        &&& final(self).worker_stats == old(self).worker_stats
                        &&& final(self).failed@ == old(self).failed@.push(
                            QueuedJob { job: e.job, failures: (e.failures + 1) as u32 },
                        )
                        &&& final(self).completed == old(self).completed
                    } else {
                        &&& r matches ResultAction::Terminal { download }
                        &&& download is None
                        &&& final(self).completed@ == old(self).completed@.push(result)
                        &&& final(self).failed == old(self).failed
                        &&& final(self).worker_stats == old(self).worker_stats
                    }
                }
            }),
    {
        proof {
            lemma_find_in_flight(self.in_flight@, result.job_id@);
        }
        let idx = match self.position_in_flight(&result.job_id) {
            Some(k) => k,
            None => {
                return ResultAction::Dropped;
            },
        };
        let ghost k = idx as int;
        let ghost before = self.all_ids();
        let ghost old_in_flight = self.in_flight@;
        let ghost np = self.pending@.len() as int;
        let ghost ni = self.in_flight@.len() as int;
        let ghost nf = self.failed@.len() as int;
        let ghost nc = self.completed@.len() as int;
        let ghost old_failed = self.failed@;
        let ghost old_completed = self.completed@;
        let ghost names_before = in_flight_names(self.in_flight@);
        let e = self.in_flight.remove(idx);
        let ghost id = e.job.job_id@;
        proof {
            assert(before[np + k] == id);
            assert(in_flight_ids(self.in_flight@) =~= in_flight_ids(old_in_flight).remove(k));
            assert(in_flight_names(self.in_flight@) =~= names_before.remove(k));
            assert forall|j: int| 0 <= j < self.pool.workers@.len() implies occurrences(
                in_flight_names(self.in_flight@),
                (#[trigger] self.pool.workers@[j]).config.name@,
            ) <= effective_max_concurrent(self.pool.workers@[j].config, self.pool.defaults) by {
                lemma_occurrences_remove(names_before, k, self.pool.workers@[j].config.name@);
            }
            assert forall|m: int| 0 <= m < before.len() && m != np + k implies #[trigger] before[m]
                != id by {
                if before[m] == id {
                    lemma_occ_two(before, np + k, m);
                }
            }
            assert forall|m: int| 0 <= m < self.in_flight@.len() implies {
                let x = #[trigger] self.in_flight@[m];
                &&& self.dispatched@.contains_key(x.job.job_id@)
                &&& self.dispatched@[x.job.job_id@] == x.failures + 1
                &&& x.failures < self.max_retries
            } by {
                if m < k {
                    assert(self.in_flight@[m] == old_in_flight[m]);
                } else {
                    assert(self.in_flight@[m] == old_in_flight[m + 1]);
                }
            }
        }
        match result.status {
            JobStatus::Completed => {
                self.record_completion(worker_name, result.duration_ms);
                let download = match &result.audio_path {
                    Some(p) => {
                        let mut file = result.job_id.clone();
                        proof {
                            reveal_strlit(".wav");
                        }
                        push_all(&mut file, ".wav");
                        assert(file@ =~= result.job_id@ + seq!['.', 'w', 'a', 'v']);
                        let local = path_join(self.temp_dir.as_str(), file.as_str());
                        Some((p.clone(), local))
                    },
                    None => None,
                };
                let ghost rid = result.job_id@;
                self.completed.push(result);
                proof {
                    assert(result_ids(self.completed@) =~= result_ids(old_completed).push(rid));
                    assert(self.all_ids() =~= before.remove(np + k).insert(np + ni - 1 + nf + nc, id));
                    assert forall|x: Seq<char>| #[trigger] occ(self.all_ids(), x) == occ(before, x) by {
                        lemma_occ_remove(before, np + k, x);
                        lemma_occ_insert(before.remove(np + k), np + ni - 1 + nf + nc, id, x);
                    }
                    assert forall|m: int| 0 <= m < self.completed@.len() implies {
                        let x = #[trigger] self.completed@[m];
                        &&& self.dispatched@.contains_key(x.job_id@)
                        &&& self.dispatched@[x.job_id@] <= self.max_retries
                    } by {
                        if m < nc {
                            assert(self.completed@[m] == old_completed[m]);
                        }
                    }
                }
                ResultAction::Terminal { download }
            },
            _ => {
                let failures = e.failures + 1;
                if failures < self.max_retries {
                    self.failed.push(QueuedJob { job: e.job, failures });
                    proof {
                        assert(queued_ids(self.failed@) =~= queued_ids(old_failed).push(id));
                        assert(self.all_ids() =~= before.remove(np + k).insert(np + ni - 1 + nf, id));
                        assert forall|x: Seq<char>| #[trigger] occ(self.all_ids(), x) == occ(before, x) by {
                            lemma_occ_remove(before, np + k, x);
                            lemma_occ_insert(before.remove(np + k), np + ni - 1 + nf, id, x);
                        }
                        assert forall|m: int| 0 <= m < self.failed@.len() implies {
                            let x = #[trigger] self.failed@[m];
                            &&& self.dispatched@.contains_key(x.job.job_id@)
                            &&& self.dispatched@[x.job.job_id@] == x.failures
                            &&& x.failures < self.max_retries
                        } by {
                            if m < nf {
                                assert(self.failed@[m] == old_failed[m]);
                            }
                        }
                    }
                    ResultAction::Retry
                } else {
                    let ghost rid = result.job_id@;
                    self.completed.push(result);
                    proof {
                        assert(result_ids(self.completed@) =~= result_ids(old_completed).push(rid));
                        assert(self.all_ids() =~= before.remove(np + k).insert(
                            np + ni - 1 + nf + nc,
                            id,
                        ));
                        assert forall|x: Seq<char>| #[trigger] occ(self.all_ids(), x) == occ(before, x) by {
                            lemma_occ_remove(before, np + k, x);
                            lemma_occ_insert(before.remove(np + k), np + ni - 1 + nf + nc, id, x);
                        }
                        assert forall|m: int| 0 <= m < self.completed@.len() implies {
                            let x = #[trigger] self.completed@[m];
                            &&& self.dispatched@.contains_key(x.job_id@)
                            &&& self.dispatched@[x.job_id@] <= self.max_retries
                        } by {
                            if m < nc {
                                assert(self.completed@[m] == old_completed[m]);
                            }
                        }
                    }
                    ResultAction::Terminal { download: None }
                }
            },
        }
    }

    /// Counts a completed job, and its synthesis time, for the worker.
    fn record_completion(&mut self, worker_name: &str, duration_ms: Option<u64>)
        ensures
            stats_views(final(self).worker_stats@) == stats_after(
                stats_views(old(self).worker_stats@),
                worker_name@,
                duration_of(duration_ms),
            ),
            final(self).pool == old(self).pool,
            final(self).pending == old(self).pending,
            final(self).in_flight == old(self).in_flight,
            final(self).failed == old(self).failed,
            final(self).completed == old(self).completed,
            final(self).max_retries == old(self).max_retries,
            final(self).enqueued == old(self).enqueued,
            final(self).dispatched == old(self).dispatched,
            final(self).enqueued == old(self).enqueued,
            final(self).temp_dir == old(self).temp_dir,
    {
        let ms: u64 = match duration_ms {
            Some(m) => m,
            None => 0,
        };
        bump_stats(&mut self.worker_stats, worker_name, ms);
    }

    /// Position of the in-flight job with identifier `id`.
    fn position_in_flight(&self, id: &String) -> (r: Option<usize>)
        ensures
            r matches Some(k) ==> k as int == find_in_flight(self.in_flight@, id@),
            r is None ==> find_in_flight(self.in_flight@, id@) < 0,
    {
        proof {
            lemma_find_in_flight(self.in_flight@, id@);
        }
        let mut idx: usize = 0;
        while idx < self.in_flight.len()
            invariant
                idx <= self.in_flight@.len(),
                forall|k: int| 0 <= k < idx ==> (#[trigger] self.in_flight@[k]).job.job_id@ != id@,
            decreases self.in_flight@.len() - idx,
        {
            if self.in_flight[idx].job.job_id == *id {
                proof {
                    lemma_find_in_flight(self.in_flight@, id@);
                    let f = find_in_flight(self.in_flight@, id@);
                    if f < 0 {
                        assert(self.in_flight@[idx as int].job.job_id@ != id@);
                    } else if f < idx {
                        assert(self.in_flight@[f].job.job_id@ != id@);
                    } else if f > idx {
                        assert(self.in_flight@[idx as int].job.job_id@ != id@);
                    }
                }
                return Some(idx);
            }
            idx = idx + 1;
        }
        None
    }
}

/// Statistics as `(name, completed, total time)` triples.
pub open spec fn stats_views(s: Seq<WorkerStats>) -> Seq<(Seq<char>, usize, u64)> {
    s.map_values(|w: WorkerStats| (w.name@, w.completed, w.total_time_ms))
}

/// Position of the first statistics entry of `name`, or -1.
pub open spec fn stats_position(s: Seq<(Seq<char>, usize, u64)>, name: Seq<char>) -> int
    decreases s.len(),
{
    if s.len() == 0 {
        -1
    } else if stats_position(s.drop_last(), name) >= 0 {
        stats_position(s.drop_last(), name)
    } else if s.last().0 == name {
        s.len() - 1
    } else {
        -1
    }
}

proof fn lemma_stats_position(s: Seq<(Seq<char>, usize, u64)>, name: Seq<char>)
    ensures
        -1 <= stats_position(s, name) < s.len(),
        stats_position(s, name) >= 0 ==> s[stats_position(s, name)].0 == name,
        forall|k: int|
            0 <= k < s.len() && (k < stats_position(s, name) || stats_position(s, name) < 0)
                ==> (#[trigger] s[k]).0 != name,
    decreases s.len(),
{
    if s.len() > 0 {
        let t = s.drop_last();
        lemma_stats_position(t, name);
        assert forall|k: int|
            0 <= k < s.len() && (k < stats_position(s, name) || stats_position(s, name) < 0)
                implies (#[trigger] s[k]).0 != name by {
            if k < s.len() - 1 {
                assert(s[k] == t[k]);
            }
        }
    }
}

/// `n + 1`, stopping at the largest count.
pub open spec fn bump_count(n: usize) -> usize {
    if n == usize::MAX {
        n
    } else {
        (n + 1) as usize
    }
}

/// `a + b`, stopping at the largest time.
pub open spec fn add_time(a: u64, b: u64) -> u64 {
    if a + b > u64::MAX {
        u64::MAX
    } else {
        (a + b) as u64
    }
}

/// The synthesis time a result reports, zero when it reports none.
pub open spec fn duration_of(d: Option<u64>) -> u64 {
    match d {
        Some(ms) => ms,
        None => 0,
    }
}

/// The statistics after one more completed job of `ms` milliseconds on
/// worker `name`: its entry counts one more job and `ms` more time (both
/// saturating), or a new entry is added for a worker seen for the first time.
pub open spec fn stats_after(s: Seq<(Seq<char>, usize, u64)>, name: Seq<char>, ms: u64) -> Seq<
    (Seq<char>, usize, u64),
> {
    let k = stats_position(s, name);
    if k >= 0 {
        s.update(k, (s[k].0, bump_count(s[k].1), add_time(s[k].2, ms)))
    } else {
        s.push((name, 1usize, ms))
    }
}

/// Adds one completed job of `ms` milliseconds to the named worker's statistics.
fn bump_stats(stats: &mut Vec<WorkerStats>, worker_name: &str, ms: u64)
    ensures
        stats_views(final(stats)@) == stats_after(stats_views(old(stats)@), worker_name@, ms),
{
    let ghost before = stats@;
    proof {
        lemma_stats_position(stats_views(before), worker_name@);
    }
    let mut i: usize = 0;
    while i < stats.len()
        invariant
            i <= stats@.len(),
            stats@ == before,
            before == old(stats)@,
            forall|k: int| 0 <= k < i ==> (#[trigger] stats@[k]).name@ != worker_name@,
        decreases stats@.len() - i,
    {
        if str_eq(stats[i].name.as_str(), worker_name) {
            proof {
                lemma_stats_position(stats_views(before), worker_name@);
                let f = stats_position(stats_views(before), worker_name@);
                if f < 0 || f > i {
                    assert(stats_views(before)[i as int].0 != worker_name@);
                } else if f < i {
                    assert(stats_views(before)[f].0 != worker_name@);
                }
                assert(f == i as int);
            }
            let mut s = stats.remove(i);
            let ghost s0 = s;
            assert(s0 == before[i as int]);
            s.completed = s.completed.saturating_add(1);
            s.total_time_ms = s.total_time_ms.saturating_add(ms);
            let ghost sv = (s.name@, s.completed, s.total_time_ms);
            assert(sv == (
                s0.name@,
                bump_count(s0.completed),
                add_time(s0.total_time_ms, ms),
            ));
            assert(stats_views(before)[i as int] == (s0.name@, s0.completed, s0.total_time_ms));
            stats.insert(i, s);
            assert(stats_views(stats@) =~= stats_views(before).update(i as int, sv));
            let ghost sb = stats_views(before);
            assert(sb.update(i as int, sv) == stats_after(sb, worker_name@, ms));
            return;
        }
        i = i + 1;
    }
    proof {
        let f = stats_position(stats_views(before), worker_name@);
        if f >= 0 {
            assert(stats_views(before)[f].0 != worker_name@);
        }
    }
    let w = WorkerStats { name: worker_name.to_owned(), completed: 1, total_time_ms: ms };
    let ghost wv = (w.name@, w.completed, w.total_time_ms);
    stats.push(w);
    assert(stats_views(stats@) =~= stats_views(before).push(wv));
}

} // verus!
