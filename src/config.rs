//! Worker configuration: pool defaults and the per-worker entries.
use vstd::prelude::*;
use crate::chars::{clone_opt_string, concat2, push_all, str_eq};

verus! {

/// Default SSH timeout in seconds.
pub const DEFAULT_SSH_TIMEOUT_SECS: u64 = 30;

/// Default job timeout in seconds.
pub const DEFAULT_JOB_TIMEOUT_SECS: u64 = 300;

pub fn default_ssh_timeout() -> (r: u64)
    ensures
        r == DEFAULT_SSH_TIMEOUT_SECS,
{
    DEFAULT_SSH_TIMEOUT_SECS
}

pub fn default_job_timeout() -> (r: u64)
    ensures
        r == DEFAULT_JOB_TIMEOUT_SECS,
{
    DEFAULT_JOB_TIMEOUT_SECS
}

pub fn default_retry_attempts() -> (r: u32)
    ensures
        r == 3,
{
    3
}

pub fn default_max_concurrent() -> (r: u32)
    ensures
        r == 1,
{
    1
}

pub fn default_port() -> (r: u16)
    ensures
        r == 22,
{
    22
}

pub fn default_priority() -> (r: u32)
    ensures
        r == 1,
{
    1
}

/// Settings that apply to every worker unless the worker overrides them.
#[derive(Debug, Clone, Copy, PartialEq, Eq)]
pub struct WorkerDefaults {
    /// SSH connection timeout in seconds.
    pub ssh_timeout_secs: u64,
    /// Job execution timeout in seconds.
    pub job_timeout_secs: u64,
    /// Initial per-job retry budget of the scheduler.
    pub retry_attempts: u32,
    /// Maximum concurrent jobs per worker.
    pub max_concurrent_jobs: u32,
}

impl Default for WorkerDefaults {
    fn default() -> (r: Self)
        ensures
            r.ssh_timeout_secs == DEFAULT_SSH_TIMEOUT_SECS,
            r.job_timeout_secs == DEFAULT_JOB_TIMEOUT_SECS,
            r.retry_attempts == 3,
            r.max_concurrent_jobs == 1,
    {
        WorkerDefaults {
            ssh_timeout_secs: default_ssh_timeout(),
            job_timeout_secs: default_job_timeout(),
            retry_attempts: default_retry_attempts(),
            max_concurrent_jobs: default_max_concurrent(),
        }
    }
}

/// Configuration of a single worker.
#[derive(Debug)]
pub struct WorkerConfig {
    /// Unique name of this worker within the pool.
    pub name: String,
    /// SSH hostname or IP address.
    pub host: String,
    /// SSH user name.
    pub user: String,
    /// SSH port.
    pub port: u16,
    /// Path to an SSH private key; the agent is used when unset.
    pub ssh_key: Option<String>,
    /// Priority for job assignment (lower is preferred).
    pub priority: u32,
    /// Override of the SSH timeout.
    pub ssh_timeout_secs: Option<u64>,
    /// Override of the job timeout.
    pub job_timeout_secs: Option<u64>,
    /// Override of the maximum concurrent jobs.
    pub max_concurrent_jobs: Option<u32>,
}

impl Clone for WorkerConfig {
    fn clone(&self) -> (r: Self)
        ensures
            r == *self,
    {
        WorkerConfig {
            name: self.name.clone(),
            host: self.host.clone(),
            user: self.user.clone(),
            port: self.port,
            ssh_key: clone_opt_string(&self.ssh_key),
            priority: self.priority,
            ssh_timeout_secs: self.ssh_timeout_secs,
            job_timeout_secs: self.job_timeout_secs,
            max_concurrent_jobs: self.max_concurrent_jobs,
        }
    }
}

/// `o`'s value, or `d` when it is unset.
pub open spec fn or_default<T>(o: Option<T>, d: T) -> T {
    match o {
        Some(v) => v,
        None => d,
    }
}

/// The SSH timeout in effect for a worker.
pub open spec fn effective_ssh_timeout(c: WorkerConfig, d: WorkerDefaults) -> u64 {
    or_default(c.ssh_timeout_secs, d.ssh_timeout_secs)
}

/// The job timeout in effect for a worker.
pub open spec fn effective_job_timeout(c: WorkerConfig, d: WorkerDefaults) -> u64 {
    or_default(c.job_timeout_secs, d.job_timeout_secs)
}

/// The bound on concurrent jobs in effect for a worker.
pub open spec fn effective_max_concurrent(c: WorkerConfig, d: WorkerDefaults) -> u32 {
    or_default(c.max_concurrent_jobs, d.max_concurrent_jobs)
}

impl WorkerConfig {
    /// A worker on the default port, with default priority and no overrides.
    pub fn new(name: &str, host: &str, user: &str) -> (r: Self)
        ensures
            r.name@ == name@,
            r.host@ == host@,
            r.user@ == user@,
            r.port == 22,
            r.ssh_key is None,
            r.priority == 1,
            r.ssh_timeout_secs is None,
            r.job_timeout_secs is None,
            r.max_concurrent_jobs is None,
    {
        WorkerConfig {
            name: name.to_owned(),
            host: host.to_owned(),
            user: user.to_owned(),
            port: default_port(),
            ssh_key: None,
            priority: default_priority(),
            ssh_timeout_secs: None,
            job_timeout_secs: None,
            max_concurrent_jobs: None,
        }
    }

    pub fn with_port(self, port: u16) -> (r: Self)
        ensures
            r == (WorkerConfig { port, ..self }),
    {
        let mut c = self;
        c.port = port;
        c
    }

    pub fn with_ssh_key(self, path: &str) -> (r: Self)
        ensures
            r.ssh_key matches Some(k) && k@ == path@,
            r.name == self.name && r.host == self.host && r.user == self.user,
            r.port == self.port && r.priority == self.priority,
            r.ssh_timeout_secs == self.ssh_timeout_secs,
            r.job_timeout_secs == self.job_timeout_secs,
            r.max_concurrent_jobs == self.max_concurrent_jobs,
    {
        let mut c = self;
        c.ssh_key = Some(path.to_owned());
        c
    }

    pub fn with_priority(self, priority: u32) -> (r: Self)
        ensures
            r == (WorkerConfig { priority, ..self }),
    {
        let mut c = self;
        c.priority = priority;
        c
    }

    /// The SSH timeout: the worker's override, else the default.
    pub fn ssh_timeout(&self, defaults: &WorkerDefaults) -> (r: u64)
        ensures
            r == effective_ssh_timeout(*self, *defaults),
    {
        match self.ssh_timeout_secs {
            Some(t) => t,
            None => defaults.ssh_timeout_secs,
        }
    }

    /// The job timeout: the worker's override, else the default.
    pub fn job_timeout(&self, defaults: &WorkerDefaults) -> (r: u64)
        ensures
            r == effective_job_timeout(*self, *defaults),
    {
        match self.job_timeout_secs {
            Some(t) => t,
            None => defaults.job_timeout_secs,
        }
    }

    /// The bound on concurrent jobs: the worker's override, else the default.
    pub fn max_concurrent(&self, defaults: &WorkerDefaults) -> (r: u32)
        ensures
            r == effective_max_concurrent(*self, *defaults),
    {
        match self.max_concurrent_jobs {
            Some(m) => m,
            None => defaults.max_concurrent_jobs,
        }
    }

    /// The SSH destination, `user@host`.
    pub fn ssh_target(&self) -> (r: String)
        ensures
            r@ == self.user@ + seq!['@'] + self.host@,
    {
        let mut r = concat2(self.user.as_str(), "@");
        proof {
            reveal_strlit("@");
        }
        push_all(&mut r, self.host.as_str());
        r
    }
}

/// The workers of `ws` that are not named `name`, in order.
pub open spec fn without_name(ws: Seq<WorkerConfig>, name: Seq<char>) -> Seq<WorkerConfig> {
    ws.filter(|w: WorkerConfig| w.name@ != name)
}

/// Whether some worker of `ws` is named `name`.
pub open spec fn has_name(ws: Seq<WorkerConfig>, name: Seq<char>) -> bool {
    exists|i: int| 0 <= i < ws.len() && (#[trigger] ws[i]).name@ == name
}

/// `i` is the first position of a worker named `name`.
pub open spec fn first_named(ws: Seq<WorkerConfig>, name: Seq<char>, i: int) -> bool {
    &&& 0 <= i < ws.len()
    &&& ws[i].name@ == name
    &&& forall|j: int| 0 <= j < i ==> (#[trigger] ws[j]).name@ != name
}

/// The pool defaults and the ordered worker entries.
#[derive(Debug, Clone)]
pub struct WorkersConfig {
    pub defaults: WorkerDefaults,
    pub workers: Vec<WorkerConfig>,
}

impl Default for WorkersConfig {
    fn default() -> (r: Self)
        ensures
            r.defaults.ssh_timeout_secs == DEFAULT_SSH_TIMEOUT_SECS,
            r.defaults.job_timeout_secs == DEFAULT_JOB_TIMEOUT_SECS,
            r.defaults.retry_attempts == 3,
            r.defaults.max_concurrent_jobs == 1,
            r.workers@.len() == 0,
    {
        WorkersConfig { defaults: WorkerDefaults::default(), workers: Vec::new() }
    }
}

/// Position of the first worker named `name`, if any.
pub fn find_worker(ws: &Vec<WorkerConfig>, name: &str) -> (r: Option<usize>)
    ensures
        r matches Some(i) ==> first_named(ws@, name@, i as int),
        r is None <==> !has_name(ws@, name@),
{
    let mut i: usize = 0;
    while i < ws.len()
        invariant
            i <= ws@.len(),
            forall|j: int| 0 <= j < i ==> (#[trigger] ws@[j]).name@ != name@,
        decreases ws@.len() - i,
    {
        if str_eq(ws[i].name.as_str(), name) {
            return Some(i);
        }
        i = i + 1;
    }
    None
}

/// Drops every worker named `name`, keeping the order of the rest.
fn retain_other_names(ws: &mut Vec<WorkerConfig>, name: &str)
    ensures
        final(ws)@ == without_name(old(ws)@, name@),
{
    let ghost orig = ws@;
    let mut kept: Vec<WorkerConfig> = Vec::new();
    let mut i: usize = 0;
    let n = ws.len();
    // `ws` is emptied from the back into `rev`, then `rev` is emptied in the original order
    let mut rev: Vec<WorkerConfig> = Vec::new();
    while ws.len() > 0
        invariant
            orig == ws@ + rev@.reverse(),
        decreases ws@.len(),
    {
        let w = ws.pop().unwrap();
        proof {
            assert(rev@.push(w).reverse() =~= seq![w] + rev@.reverse());
        }
        rev.push(w);
    }
    assert(orig =~= rev@.reverse());
    while i < n
        invariant
            n == orig.len(),
            i <= n,
            rev@.len() == n - i,
            forall|k: int| 0 <= k < rev@.len() ==> #[trigger] rev@[k] == orig[n - 1 - k],
            kept@ == without_name(orig.subrange(0, i as int), name@),
        decreases n - i,
    {
        let w = rev.pop().unwrap();
        assert(w == orig[i as int]);
        proof {
            reveal(Seq::filter);
            assert(orig.subrange(0, i + 1).drop_last() =~= orig.subrange(0, i as int));
        }
        if !str_eq(w.name.as_str(), name) {
            kept.push(w);
        }
        i = i + 1;
    }
    assert(orig.subrange(0, n as int) =~= orig);
    *ws = kept;
}

impl WorkersConfig {
    /// The first worker named `name`.
    pub fn get_worker(&self, name: &str) -> (r: Option<&WorkerConfig>)
        ensures
            r matches Some(w) ==> exists|i: int|
                first_named(self.workers@, name@, i) && *w == self.workers@[i],
            r is None <==> !has_name(self.workers@, name@),
    {
        match find_worker(&self.workers, name) {
            Some(i) => Some(&self.workers[i]),
            None => None,
        }
    }

    /// Adds a worker, replacing any entry of the same name.
    pub fn add_worker(&mut self, worker: WorkerConfig)
        ensures
            final(self).workers@ == without_name(old(self).workers@, worker.name@).push(worker),
            final(self).defaults == old(self).defaults,
    {
        retain_other_names(&mut self.workers, worker.name.as_str());
        self.workers.push(worker);
    }

    /// Removes the workers named `name`; true when one was there.
    pub fn remove_worker(&mut self, name: &str) -> (r: bool)
        ensures
            final(self).workers@ == without_name(old(self).workers@, name@),
            final(self).defaults == old(self).defaults,
            r == has_name(old(self).workers@, name@),
    {
        let found = find_worker(&self.workers, name);
        retain_other_names(&mut self.workers, name);
        found.is_some()
    }
}

} // verus!
