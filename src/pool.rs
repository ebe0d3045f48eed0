//! The worker pool: per-worker runtime state, readiness, and the choice of
//! the worker that receives the next job.
use vstd::prelude::*;
use crate::chars::{chars_of, str_eq};
use crate::config::{
    WorkerConfig, WorkerDefaults, WorkersConfig, effective_max_concurrent, effective_ssh_timeout,
    find_worker,
};
use crate::protocol::WorkerStatus;
use crate::transport::SshConnection;
use crate::chunker::string_views;
use crate::lookup::{lemma_position_named, position_named, workers_named};

verus! {

/// A worker handle: configuration plus what is known of the worker at run time.
pub struct Worker {
    pub config: WorkerConfig,
    pub connection: SshConnection,
    /// Last readiness report, if one was received.
    pub status: Option<WorkerStatus>,
    /// Identifiers of the jobs this worker is running.
    pub active_jobs: Vec<String>,
    /// Whether the connection test succeeded.
    pub connected: bool,
}

/// A worker is ready when it is connected and its last report says ready.
pub open spec fn worker_ready(w: Worker) -> bool {
    w.connected && (w.status matches Some(s) && s.ready)
}

impl Worker {
    pub fn new(config: WorkerConfig, defaults: &WorkerDefaults) -> (r: Self)
        ensures
            r.config == config,
            r.connection.config == config,
            r.connection.timeout_secs == effective_ssh_timeout(config, *defaults),
            r.connection.control_socket is None,
            r.status is None,
            r.active_jobs@.len() == 0,
            !r.connected,
    {
        let timeout = config.ssh_timeout(defaults);
        let connection = SshConnection::new(config.clone(), timeout);
        Worker { config, connection, status: None, active_jobs: Vec::new(), connected: false }
    }

    pub fn name(&self) -> (r: &str)
        ensures
            r@ == self.config.name@,
    {
        self.config.name.as_str()
    }

    pub fn is_ready(&self) -> (r: bool)
        ensures
            r == worker_ready(*self),
    {
        self.connected && match &self.status {
            Some(s) => s.ready,
            None => false,
        }
    }

    pub fn active_job_count(&self) -> (r: usize)
        ensures
            r == self.active_jobs@.len(),
    {
        self.active_jobs.len()
    }

    /// Ready, and running fewer jobs than its bound.
    pub fn can_accept_job(&self, defaults: &WorkerDefaults) -> (r: bool)
        ensures
            r == (worker_ready(*self) && self.active_jobs@.len() < effective_max_concurrent(
                self.config,
                *defaults,
            )),
    {
        if !self.is_ready() {
            return false;
        }
        let max = self.config.max_concurrent(defaults);
        self.active_jobs.len() < max as usize
    }

    /// Records a successful connection test.
    pub fn mark_connected(&mut self)
        ensures
            final(self).connected,
            final(self).status == old(self).status,
            final(self).config == old(self).config,
            final(self).active_jobs == old(self).active_jobs,
    {
        self.connected = true;
    }

    /// Records a readiness report.
    pub fn set_status(&mut self, status: WorkerStatus)
        ensures
            final(self).status == Some(status),
            final(self).connected == old(self).connected,
            final(self).config == old(self).config,
            final(self).active_jobs == old(self).active_jobs,
    {
        self.status = Some(status);
    }
}

/// How many of `names` equal `name`.
pub open spec fn occurrences(names: Seq<String>, name: Seq<char>) -> nat
    decreases names.len(),
{
    if names.len() == 0 {
        0
    } else {
        occurrences(names.drop_last(), name) + (if names.last()@ == name {
            1nat
        } else {
            0nat
        })
    }
}

/// Lexicographic order of names, by character code.
pub open spec fn name_lt(a: Seq<char>, b: Seq<char>) -> bool
    decreases a.len(),
{
    if a.len() == 0 {
        b.len() > 0
    } else if b.len() == 0 {
        false
    } else if a[0] != b[0] {
        (a[0] as u32) < (b[0] as u32)
    } else {
        name_lt(a.skip(1), b.skip(1))
    }
}

/// The order of preference: priority, then load, then name, all ascending.
pub open spec fn key_lt(p1: u32, l1: nat, n1: Seq<char>, p2: u32, l2: nat, n2: Seq<char>) -> bool {
    p1 < p2 || (p1 == p2 && (l1 < l2 || (l1 == l2 && name_lt(n1, n2))))
}

/// Whether worker `w` with `load` jobs in flight may take one more.
pub open spec fn eligible(w: Worker, load: nat, d: WorkerDefaults) -> bool {
    worker_ready(w) && load < effective_max_concurrent(w.config, d)
}

/// `ws[i]` is preferred to `ws[j]`.
pub open spec fn preferred(ws: Seq<Worker>, inflight: Seq<String>, i: int, j: int) -> bool {
    key_lt(
        ws[i].config.priority,
        occurrences(inflight, ws[i].config.name@),
        ws[i].config.name@,
        ws[j].config.priority,
        occurrences(inflight, ws[j].config.name@),
        ws[j].config.name@,
    )
}

/// The most preferred eligible worker among the first `n`; the earliest on a tie.
pub open spec fn best_worker(ws: Seq<Worker>, inflight: Seq<String>, d: WorkerDefaults, n: nat) -> Option<int>
    decreases n,
{
    if n == 0 {
        None
    } else {
        let b = best_worker(ws, inflight, d, (n - 1) as nat);
        let i = n - 1;
        if !eligible(ws[i], occurrences(inflight, ws[i].config.name@), d) {
            b
        } else {
            match b {
                None => Some(i),
                Some(j) => if preferred(ws, inflight, i, j) {
                    Some(i)
                } else {
                    Some(j)
                },
            }
        }
    }
}

proof fn lemma_name_lt_transitive(a: Seq<char>, b: Seq<char>, c: Seq<char>)
    requires
        name_lt(a, b),
        name_lt(b, c),
    ensures
        name_lt(a, c),
    decreases a.len(),
{
    if a.len() > 0 && b.len() > 0 && c.len() > 0 && a[0] == b[0] && b[0] == c[0] {
        lemma_name_lt_transitive(a.skip(1), b.skip(1), c.skip(1));
    }
}

proof fn lemma_name_lt_irreflexive(a: Seq<char>)
    ensures
        !name_lt(a, a),
    decreases a.len(),
{
    if a.len() > 0 {
        lemma_name_lt_irreflexive(a.skip(1));
    }
}

proof fn lemma_best_worker_bounds(ws: Seq<Worker>, inflight: Seq<String>, d: WorkerDefaults, n: nat)
    requires
        n <= ws.len(),
    ensures
        best_worker(ws, inflight, d, n) matches Some(i) ==> 0 <= i < n && eligible(
            ws[i],
            occurrences(inflight, ws[i].config.name@),
            d,
        ),
        best_worker(ws, inflight, d, n) is None ==> forall|j: int|
            0 <= j < n ==> !eligible(#[trigger] ws[j], occurrences(inflight, ws[j].config.name@), d),
    decreases n,
{
    if n > 0 {
        lemma_best_worker_bounds(ws, inflight, d, (n - 1) as nat);
    }
}

/// The chosen worker is eligible, and no eligible worker is preferred to it;
/// when none is eligible, nothing is chosen.
pub proof fn lemma_best_worker_is_minimal(
    ws: Seq<Worker>,
    inflight: Seq<String>,
    d: WorkerDefaults,
    n: nat,
)
    requires
        n <= ws.len(),
    ensures
        best_worker(ws, inflight, d, n) matches Some(i) ==> 0 <= i < n && eligible(
            ws[i],
            occurrences(inflight, ws[i].config.name@),
            d,
        ) && forall|j: int|
            0 <= j < n && eligible(#[trigger] ws[j], occurrences(inflight, ws[j].config.name@), d)
                ==> !preferred(ws, inflight, j, i),
        best_worker(ws, inflight, d, n) is None ==> forall|j: int|
            0 <= j < n ==> !eligible(#[trigger] ws[j], occurrences(inflight, ws[j].config.name@), d),
    decreases n,
{
    lemma_best_worker_bounds(ws, inflight, d, n);
    if n > 0 {
        lemma_best_worker_is_minimal(ws, inflight, d, (n - 1) as nat);
        let i = n - 1;
        match best_worker(ws, inflight, d, n) {
            Some(b) => {
                assert forall|j: int|
                    0 <= j < n && eligible(
                        #[trigger] ws[j],
                        occurrences(inflight, ws[j].config.name@),
                        d,
                    ) implies !preferred(ws, inflight, j, b) by {
                    let kb = ws[b].config.name@;
                    let kj = ws[j].config.name@;
                    lemma_name_lt_irreflexive(kb);
                    if j == b {
                    } else if b == i {
                        // `i` replaced the earlier choice `p`, or there was none
                        match best_worker(ws, inflight, d, (n - 1) as nat) {
                            Some(p) => {
                                assert(preferred(ws, inflight, i, p));
                                assert(!preferred(ws, inflight, j, p));
                                if preferred(ws, inflight, j, i) {
                                    if ws[j].config.priority == ws[p].config.priority
                                        && occurrences(inflight, kj) == occurrences(
                                        inflight,
                                        ws[p].config.name@,
                                    ) {
                                        lemma_name_lt_transitive(kj, kb, ws[p].config.name@);
                                    }
                                }
                            },
                            None => {},
                        }
                    } else {
                        if j == i {
                            assert(!preferred(ws, inflight, i, b));
                        }
                    }
                }
            },
            None => {},
        }
    }
}

/// The choice depends only on each worker's priority, name, readiness,
/// bound on concurrent jobs and in-flight count: two pools that agree on
/// those pick the same position.
pub proof fn lemma_selection_deterministic(
    ws1: Seq<Worker>,
    in1: Seq<String>,
    d1: WorkerDefaults,
    ws2: Seq<Worker>,
    in2: Seq<String>,
    d2: WorkerDefaults,
    n: nat,
)
    requires
        n <= ws1.len(),
        ws1.len() == ws2.len(),
        forall|i: int|
            0 <= i < ws1.len() ==> {
                &&& (#[trigger] ws1[i]).config.priority == ws2[i].config.priority
                &&& ws1[i].config.name@ == ws2[i].config.name@
                &&& worker_ready(ws1[i]) == worker_ready(ws2[i])
                &&& effective_max_concurrent(ws1[i].config, d1) == effective_max_concurrent(
                    ws2[i].config,
                    d2,
                )
                &&& occurrences(in1, ws1[i].config.name@) == occurrences(in2, ws2[i].config.name@)
            },
    ensures
        best_worker(ws1, in1, d1, n) == best_worker(ws2, in2, d2, n),
    decreases n,
{
    if n > 0 {
        lemma_selection_deterministic(ws1, in1, d1, ws2, in2, d2, (n - 1) as nat);
        let i = n - 1;
        assert(ws1[i as int].config.priority == ws2[i as int].config.priority);
        match best_worker(ws1, in1, d1, (n - 1) as nat) {
            Some(j) => {
                lemma_best_worker_bounds(ws1, in1, d1, (n - 1) as nat);
                assert(ws1[j].config.priority == ws2[j].config.priority);
            },
            None => {},
        }
    }
}

/// How many entries of `names` equal `name`.
fn count_name(names: &Vec<String>, name: &str) -> (r: usize)
    ensures
        r == occurrences(names@, name@),
{
    let mut c: usize = 0;
    let mut i: usize = 0;
    while i < names.len()
        invariant
            i <= names@.len(),
            c == occurrences(names@.take(i as int), name@),
            c <= i,
        decreases names@.len() - i,
    {
        assert(names@.take(i + 1).drop_last() =~= names@.take(i as int));
        if str_eq(names[i].as_str(), name) {
            c = c + 1;
        }
        i = i + 1;
    }
    assert(names@.take(names@.len() as int) =~= names@);
    c
}

/// Whether `a` comes before `b` by character code.
fn name_less(a: &str, b: &str) -> (r: bool)
    ensures
        r == name_lt(a@, b@),
{
    let x = chars_of(a);
    let y = chars_of(b);
    let mut i: usize = 0;
    assert(x@.skip(0) =~= x@);
    assert(y@.skip(0) =~= y@);
    while i < x.len() && i < y.len() && x[i] == y[i]
        invariant
            i <= x@.len(),
            i <= y@.len(),
            name_lt(a@, b@) == name_lt(x@.skip(i as int), y@.skip(i as int)),
        decreases x@.len() - i,
    {
        assert(x@.skip(i as int).skip(1) =~= x@.skip(i + 1));
        assert(y@.skip(i as int).skip(1) =~= y@.skip(i + 1));
        i = i + 1;
    }
    assert(i < x@.len() ==> x@.skip(i as int)[0] == x@[i as int]);
    assert(i < y@.len() ==> y@.skip(i as int)[0] == y@[i as int]);
    if i == x.len() {
        i < y.len()
    } else if i == y.len() {
        false
    } else {
        (x[i] as u32) < (y[i] as u32)
    }
}

/// The workers behind a list of references.
pub open spec fn derefs(s: Seq<&Worker>) -> Seq<Worker> {
    s.map_values(|w: &Worker| *w)
}

/// Summary counts of a pool.
#[derive(Debug, Clone, Copy)]
pub struct PoolStatus {
    pub total: usize,
    pub connected: usize,
    pub ready: usize,
    pub active_jobs: usize,
}

/// Number of workers of `ws` that are connected.
pub open spec fn count_connected(ws: Seq<Worker>) -> nat
    decreases ws.len(),
{
    if ws.len() == 0 {
        0
    } else {
        count_connected(ws.drop_last()) + (if ws.last().connected {
            1nat
        } else {
            0nat
        })
    }
}

/// Number of workers of `ws` that are ready.
pub open spec fn count_ready(ws: Seq<Worker>) -> nat
    decreases ws.len(),
{
    if ws.len() == 0 {
        0
    } else {
        count_ready(ws.drop_last()) + (if worker_ready(ws.last()) {
            1nat
        } else {
            0nat
        })
    }
}

/// Total of the workers' active job counts.
pub open spec fn total_active(ws: Seq<Worker>) -> nat
    decreases ws.len(),
{
    if ws.len() == 0 {
        0
    } else {
        total_active(ws.drop_last()) + ws.last().active_jobs@.len()
    }
}

/// The workers and the defaults that apply to them, plus the voice
/// assets already known to be present on each worker.
pub struct WorkerPool {
    pub workers: Vec<Worker>,
    pub defaults: WorkerDefaults,
    /// `(worker name, voice hash)` pairs known to be uploaded in this session.
    pub uploaded_voices: Vec<(String, String)>,
}

/// The workers of a configuration, in order, as fresh handles.
pub open spec fn fresh_handles(ws: Seq<Worker>, cs: Seq<WorkerConfig>, d: WorkerDefaults) -> bool {
    &&& ws.len() == cs.len()
    &&& forall|i: int|
        0 <= i < ws.len() ==> {
            &&& (#[trigger] ws[i]).config == cs[i]
            &&& !ws[i].connected
            &&& ws[i].status is None
            &&& ws[i].active_jobs@.len() == 0
            &&& ws[i].connection.timeout_secs == effective_ssh_timeout(cs[i], d)
        }
}

impl WorkerPool {
    /// A pool of every configured worker.
    pub fn new(config: &WorkersConfig) -> (r: Self)
        ensures
            fresh_handles(r.workers@, config.workers@, config.defaults),
            r.defaults == config.defaults,
            r.uploaded_voices@.len() == 0,
    {
        let mut workers: Vec<Worker> = Vec::new();
        let mut i: usize = 0;
        while i < config.workers.len()
            invariant
                i <= config.workers@.len(),
                fresh_handles(workers@, config.workers@.take(i as int), config.defaults),
            decreases config.workers@.len() - i,
        {
            let w = Worker::new(config.workers[i].clone(), &config.defaults);
            workers.push(w);
            i = i + 1;
            assert(fresh_handles(workers@, config.workers@.take(i as int), config.defaults)) by {
                assert forall|k: int| 0 <= k < workers@.len() implies (#[trigger] workers@[k]).config
                    == config.workers@.take(i as int)[k] by {}
            }
        }
        assert(config.workers@.take(i as int) =~= config.workers@);
        WorkerPool { workers, defaults: config.defaults, uploaded_voices: Vec::new() }
    }

    /// A pool of the named workers, in the order of `names`; a name without
    /// an entry is skipped, and a name takes its first entry.
    pub fn with_workers(config: &WorkersConfig, names: &Vec<String>) -> (r: Self)
        ensures
            fresh_handles(
                r.workers@,
                workers_named(config.workers@, string_views(names@)),
                config.defaults,
            ),
            r.defaults == config.defaults,
            r.uploaded_voices@.len() == 0,
    {
        let mut workers: Vec<Worker> = Vec::new();
        let mut i: usize = 0;
        while i < names.len()
            invariant
                i <= names@.len(),
                fresh_handles(
                    workers@,
                    workers_named(config.workers@, string_views(names@.take(i as int))),
                    config.defaults,
                ),
            decreases names@.len() - i,
        {
            let ghost before = workers_named(config.workers@, string_views(names@.take(i as int)));
            assert(string_views(names@.take(i + 1)).drop_last() =~= string_views(names@.take(i as int)));
            assert(string_views(names@.take(i + 1)).last() == names@[i as int]@);
            proof {
                lemma_position_named(config.workers@, names@[i as int]@);
            }
            match find_worker(&config.workers, names[i].as_str()) {
                Some(p) => {
                    proof {
                        // both are the first position of that name
                        let q = position_named(config.workers@, names@[i as int]@);
                        if q < p as int {
                            assert(config.workers@[q].name@ == names@[i as int]@);
                        } else if q > p as int {
                            assert(config.workers@[p as int].name@ == names@[i as int]@);
                        }
                    }
                    let w = Worker::new(config.workers[p].clone(), &config.defaults);
                    workers.push(w);
                },
                None => {},
            }
            i = i + 1;
        }
        assert(names@.take(i as int) =~= names@);
        WorkerPool { workers, defaults: config.defaults, uploaded_voices: Vec::new() }
    }

    pub fn len(&self) -> (r: usize)
        ensures
            r == self.workers@.len(),
    {
        self.workers.len()
    }

    pub fn is_empty(&self) -> (r: bool)
        ensures
            r == (self.workers@.len() == 0),
    {
        self.workers.len() == 0
    }

    /// The ready workers, in pool order.
    pub fn ready_workers(&self) -> (r: Vec<&Worker>)
        ensures
            derefs(r@) == self.workers@.filter(|w: Worker| worker_ready(w)),
    {
        let mut r: Vec<&Worker> = Vec::new();
        let mut i: usize = 0;
        while i < self.workers.len()
            invariant
                i <= self.workers@.len(),
                derefs(r@) == self.workers@.take(i as int).filter(|w: Worker| worker_ready(w)),
            decreases self.workers@.len() - i,
        {
            proof {
                reveal(Seq::filter);
                assert(self.workers@.take(i + 1).drop_last() =~= self.workers@.take(i as int));
            }
            if self.workers[i].is_ready() {
                let ghost before = r@;
                r.push(&self.workers[i]);
                assert(derefs(r@) =~= derefs(before).push(self.workers@[i as int]));
            }
            i = i + 1;
        }
        assert(self.workers@.take(i as int) =~= self.workers@);
        r
    }

    /// The workers that can accept a job by their own active counts, in pool order.
    pub fn available_workers(&self) -> (r: Vec<&Worker>)
        ensures
            derefs(r@) == self.workers@.filter(
                |w: Worker|
                    worker_ready(w) && w.active_jobs@.len() < effective_max_concurrent(
                        w.config,
                        self.defaults,
                    ),
            ),
    {
        let mut r: Vec<&Worker> = Vec::new();
        let mut i: usize = 0;
        while i < self.workers.len()
            invariant
                i <= self.workers@.len(),
                derefs(r@) == self.workers@.take(i as int).filter(
                    |w: Worker|
                        worker_ready(w) && w.active_jobs@.len() < effective_max_concurrent(
                            w.config,
                            self.defaults,
                        ),
                ),
            decreases self.workers@.len() - i,
        {
            proof {
                reveal(Seq::filter);
                assert(self.workers@.take(i + 1).drop_last() =~= self.workers@.take(i as int));
            }
            if self.workers[i].can_accept_job(&self.defaults) {
                let ghost before = r@;
                r.push(&self.workers[i]);
                assert(derefs(r@) =~= derefs(before).push(self.workers@[i as int]));
            }
            i = i + 1;
        }
        assert(self.workers@.take(i as int) =~= self.workers@);
        r
    }

    /// Position of the worker that should receive the next job, given the
    /// worker name of each job in flight.
    pub fn select_worker(&self, in_flight_workers: &Vec<String>) -> (r: Option<usize>)
        ensures
            r == match best_worker(
                self.workers@,
                in_flight_workers@,
                self.defaults,
                self.workers@.len(),
            ) {
                Some(i) => Some(i as usize),
                None => None,
            },
    {
        let mut best: Option<usize> = None;
        let mut best_load: usize = 0;
        let mut i: usize = 0;
        while i < self.workers.len()
            invariant
                i <= self.workers@.len(),
                best == match best_worker(self.workers@, in_flight_workers@, self.defaults, i as nat) {
                    Some(b) => Some(b as usize),
                    None => None,
                },
                best matches Some(b) ==> b < i && best_load == occurrences(
                    in_flight_workers@,
                    self.workers@[b as int].config.name@,
                ),
            decreases self.workers@.len() - i,
        {
            proof {
                lemma_best_worker_bounds(self.workers@, in_flight_workers@, self.defaults, i as nat);
            }
            let w = &self.workers[i];
            let load = count_name(in_flight_workers, w.name());
            let max = w.config.max_concurrent(&self.defaults);
            if w.is_ready() && load < max as usize {
                match best {
                    None => {
                        best = Some(i);
                        best_load = load;
                    },
                    Some(b) => {
                        let bw = &self.workers[b];
                        let better = w.config.priority < bw.config.priority || (w.config.priority
                            == bw.config.priority && (load < best_load || (load == best_load
                            && name_less(w.name(), bw.name()))));
                        if better {
                            best = Some(i);
                            best_load = load;
                        }
                    },
                }
            }
            i = i + 1;
        }
        best
    }

    /// The worker that should receive the next job: the eligible one first by
    /// priority, then in-flight count, then name.
    pub fn get_available_worker(&self, in_flight_workers: &Vec<String>) -> (r: Option<&Worker>)
        ensures
            r is None <==> best_worker(
                self.workers@,
                in_flight_workers@,
                self.defaults,
                self.workers@.len(),
            ) is None,
            r matches Some(w) ==> *w == self.workers@[best_worker(
                self.workers@,
                in_flight_workers@,
                self.defaults,
                self.workers@.len(),
            )->0],
    {
        proof {
            lemma_best_worker_bounds(
                self.workers@,
                in_flight_workers@,
                self.defaults,
                self.workers@.len(),
            );
        }
        let ghost b = best_worker(
            self.workers@,
            in_flight_workers@,
            self.defaults,
            self.workers@.len(),
        );
        match self.select_worker(in_flight_workers) {
            Some(i) => {
                assert(b is Some);
                assert(0 <= b->0 < self.workers@.len());
                assert(self.workers@.len() == self.workers.len());
                assert(b->0 as usize == i);
                assert(b->0 == i as int);
                let w = &self.workers[i];
                assert(*w == self.workers@[b->0]);
                Some(w)
            },
            None => None,
        }
    }

    /// Position of the first worker named `name`.
    pub fn position_of(&self, name: &str) -> (r: Option<usize>)
        ensures
            r matches Some(i) ==> 0 <= i < self.workers@.len() && self.workers@[i as int].config.name@
                == name@ && forall|j: int| 0 <= j < i ==> (#[trigger] self.workers@[j]).config.name@ != name@,
            r is None <==> forall|j: int|
                0 <= j < self.workers@.len() ==> (#[trigger] self.workers@[j]).config.name@ != name@,
    {
        let mut i: usize = 0;
        while i < self.workers.len()
            invariant
                i <= self.workers@.len(),
                forall|j: int| 0 <= j < i ==> (#[trigger] self.workers@[j]).config.name@ != name@,
            decreases self.workers@.len() - i,
        {
            if str_eq(self.workers[i].name(), name) {
                return Some(i);
            }
            i = i + 1;
        }
        None
    }

    /// The first worker named `name`.
    pub fn get_worker(&self, name: &str) -> (r: Option<&Worker>)
        ensures
            r is None <==> forall|j: int|
                0 <= j < self.workers@.len() ==> (#[trigger] self.workers@[j]).config.name@ != name@,
            r matches Some(w) ==> exists|i: int|
                0 <= i < self.workers@.len() && *w == self.workers@[i] && w.config.name@ == name@
                    && forall|j: int|
                    0 <= j < i ==> (#[trigger] self.workers@[j]).config.name@ != name@,
    {
        match self.position_of(name) {
            Some(i) => Some(&self.workers[i]),
            None => None,
        }
    }

    /// The default job timeout.
    pub fn job_timeout(&self) -> (r: u64)
        ensures
            r == self.defaults.job_timeout_secs,
    {
        self.defaults.job_timeout_secs
    }

    /// Counts of all, connected and ready workers, and of their active jobs.
    pub fn status_summary(&self) -> (r: PoolStatus)
        requires
            total_active(self.workers@) <= usize::MAX,
        ensures
            r.total == self.workers@.len(),
            r.connected == count_connected(self.workers@),
            r.ready == count_ready(self.workers@),
            r.active_jobs == total_active(self.workers@),
    {
        let mut connected: usize = 0;
        let mut ready: usize = 0;
        let mut active: usize = 0;
        let mut i: usize = 0;
        while i < self.workers.len()
            invariant
                i <= self.workers@.len(),
                total_active(self.workers@) <= usize::MAX,
                connected == count_connected(self.workers@.take(i as int)),
                ready == count_ready(self.workers@.take(i as int)),
                active == total_active(self.workers@.take(i as int)),
                connected <= i,
                ready <= i,
            decreases self.workers@.len() - i,
        {
            assert(self.workers@.take(i + 1).drop_last() =~= self.workers@.take(i as int));
            proof {
                lemma_total_active_prefix(self.workers@, i + 1);
            }
            if self.workers[i].connected {
                connected = connected + 1;
            }
            if self.workers[i].is_ready() {
                ready = ready + 1;
            }
            active = active + self.workers[i].active_jobs.len();
            i = i + 1;
        }
        assert(self.workers@.take(i as int) =~= self.workers@);
        PoolStatus { total: self.workers.len(), connected, ready, active_jobs: active }
    }
}

proof fn lemma_total_active_prefix(ws: Seq<Worker>, n: int)
    requires
        0 <= n <= ws.len(),
    ensures
        total_active(ws.take(n)) <= total_active(ws),
    decreases ws.len(),
{
    if n < ws.len() {
        assert(ws.drop_last().take(n) =~= ws.take(n));
        lemma_total_active_prefix(ws.drop_last(), n);
    } else {
        assert(ws.take(n) =~= ws);
    }
}

/// Whether the job identifier `id` is among `jobs`.
pub open spec fn holds_job(jobs: Seq<String>, id: Seq<char>) -> bool {
    exists|i: int| 0 <= i < jobs.len() && (#[trigger] jobs[i])@ == id
}

/// No identifier occurs twice.
pub open spec fn distinct_jobs(jobs: Seq<String>) -> bool {
    forall|i: int, j: int|
        0 <= i < jobs.len() && 0 <= j < jobs.len() && i != j ==> (#[trigger] jobs[i])@
            != (#[trigger] jobs[j])@
}

impl Worker {
    /// Counts a job as running on this worker.
    pub fn admit_job(&mut self, job_id: &str)
        requires
            distinct_jobs(old(self).active_jobs@),
        ensures
            distinct_jobs(final(self).active_jobs@),
            forall|x: Seq<char>|
                #[trigger] holds_job(final(self).active_jobs@, x) <==> (holds_job(
                    old(self).active_jobs@,
                    x,
                ) || x == job_id@),
            final(self).config == old(self).config,
            final(self).connected == old(self).connected,
            final(self).status == old(self).status,
    {
        let mut i: usize = 0;
        while i < self.active_jobs.len()
            invariant
                i <= self.active_jobs@.len(),
                forall|k: int| 0 <= k < i ==> (#[trigger] self.active_jobs@[k])@ != job_id@,
                self.active_jobs@ == old(self).active_jobs@,
                distinct_jobs(old(self).active_jobs@),
                self.config == old(self).config,
                self.connected == old(self).connected,
                self.status == old(self).status,
            decreases self.active_jobs@.len() - i,
        {
            if str_eq(self.active_jobs[i].as_str(), job_id) {
                return;
            }
            i = i + 1;
        }
        let ghost before = self.active_jobs@;
        self.active_jobs.push(job_id.to_owned());
        proof {
            let after = self.active_jobs@;
            assert(after[before.len() as int]@ == job_id@);
            assert forall|x: Seq<char>| #[trigger] holds_job(after, x) <==> (holds_job(before, x)
                || x == job_id@) by {
                if holds_job(before, x) {
                    let k = choose|k: int| 0 <= k < before.len() && (#[trigger] before[k])@ == x;
                    assert(after[k] == before[k]);
                }
                if holds_job(after, x) {
                    let k = choose|k: int| 0 <= k < after.len() && (#[trigger] after[k])@ == x;
                    if k < before.len() {
                        assert(after[k] == before[k]);
                    }
                }
            }
            assert forall|a: int, b: int|
                0 <= a < after.len() && 0 <= b < after.len() && a != b implies (#[trigger] after[a])@
                != (#[trigger] after[b])@ by {
                if a < before.len() && b < before.len() {
                    assert(after[a] == before[a] && after[b] == before[b]);
                } else if a < before.len() {
                    assert(after[a] == before[a]);
                } else if b < before.len() {
                    assert(after[b] == before[b]);
                }
            }
        }
    }

    /// Stops counting a job as running on this worker.
    pub fn release_job(&mut self, job_id: &str)
        requires
            distinct_jobs(old(self).active_jobs@),
        ensures
            distinct_jobs(final(self).active_jobs@),
            forall|x: Seq<char>|
                #[trigger] holds_job(final(self).active_jobs@, x) <==> (holds_job(
                    old(self).active_jobs@,
                    x,
                ) && x != job_id@),
            final(self).config == old(self).config,
            final(self).connected == old(self).connected,
            final(self).status == old(self).status,
    {
        let mut i: usize = 0;
        while i < self.active_jobs.len()
            invariant
                i <= self.active_jobs@.len(),
                forall|k: int| 0 <= k < i ==> (#[trigger] self.active_jobs@[k])@ != job_id@,
                self.active_jobs@ == old(self).active_jobs@,
                distinct_jobs(old(self).active_jobs@),
                self.config == old(self).config,
                self.connected == old(self).connected,
                self.status == old(self).status,
            decreases self.active_jobs@.len() - i,
        {
            if str_eq(self.active_jobs[i].as_str(), job_id) {
                let ghost before = self.active_jobs@;
                let ghost at = i as int;
                self.active_jobs.remove(i);
                proof {
                    let after = self.active_jobs@;
                    assert(after =~= before.remove(at));
                    assert forall|x: Seq<char>| #[trigger] holds_job(after, x) <==> (holds_job(
                        before,
                        x,
                    ) && x != job_id@) by {
                        if holds_job(before, x) && x != job_id@ {
                            let k = choose|k: int| 0 <= k < before.len() && (#[trigger] before[k])@ == x;
                            if k < at {
                                assert(after[k] == before[k]);
                            } else {
                                assert(k != at);
                                assert(after[k - 1] == before[k]);
                            }
                        }
                        if holds_job(after, x) {
                            let k = choose|k: int| 0 <= k < after.len() && (#[trigger] after[k])@ == x;
                            if k < at {
                                assert(after[k] == before[k]);
                            } else {
                                assert(after[k] == before[k + 1]);
                            }
                        }
                    }
                    assert forall|a: int, b: int|
                        0 <= a < after.len() && 0 <= b < after.len() && a != b implies (
                        #[trigger] after[a])@ != (#[trigger] after[b])@ by {
                        let a0 = if a < at { a } else { a + 1 };
                        let b0 = if b < at { b } else { b + 1 };
                        assert(after[a] == before[a0] && after[b] == before[b0]);
                    }
                }
                return;
            }
            i = i + 1;
        }
    }
}

} // verus!
