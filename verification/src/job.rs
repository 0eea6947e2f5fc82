//! Background job registry: the data model for tracking jobs in flight.
//!
//! A registry of all running and completed background jobs (bash commands,
//! sub-agents, teammates) found by job ID. Execution handles live in the
//! runtime layer that fills it.
use vstd::prelude::*;
use crate::text::{push_char, str_eq};
use crate::clock::now_unix_millis;

verus! {

/// Type of background job.
#[derive(Debug, Clone, Copy, PartialEq, Eq, Hash, Structural)]
pub enum JobType {
    /// Background bash command.
    LocalBash,
    /// Background sub-agent.
    LocalAgent,
    /// In-process teammate.
    InProcessTeammate,
}

/// Lifecycle status of a background job.
#[derive(Debug, Clone, Copy, PartialEq, Eq, Hash, Structural)]
pub enum JobStatus {
    /// Just created, not yet running.
    Pending,
    /// Actively executing.
    Running,
    /// Finished successfully.
    Completed,
    /// Finished with an error.
    Failed,
    /// Stopped by the user.
    Killed,
}

/// `Completed`, `Failed` and `Killed` end a job.
pub open spec fn terminal(s: JobStatus) -> bool {
    s == JobStatus::Completed || s == JobStatus::Failed || s == JobStatus::Killed
}

impl JobStatus {
    /// Returns `true` for `Completed`, `Failed`, or `Killed`.
    pub fn is_terminal(self) -> (r: bool)
        ensures
            r == terminal(self),
    {
        match self {
            JobStatus::Completed | JobStatus::Failed | JobStatus::Killed => true,
            _ => false,
        }
    }
}

/// A single entry in the job registry.
#[derive(Debug)]
pub struct BackgroundJob {
    /// Unique job ID (prefixed: `b` for bash, `a` for agent).
    pub id: String,
    /// What kind of job this is.
    pub job_type: JobType,
    /// Current lifecycle status.
    pub status: JobStatus,
    /// Human-readable description (e.g. `"git push"`).
    pub description: String,
    /// The `tool_use_id` that spawned this job.
    pub tool_use_id: Option<String>,
    /// Unix timestamp (seconds) when the job was created.
    pub started_at: u64,
    /// Unix timestamp (seconds) when the job reached a terminal state.
    pub ended_at: Option<u64>,
    /// Path to the job's output file.
    pub output_path: Option<String>,
    /// Exit code for bash jobs (0 = success).
    pub exit_code: Option<i32>,
    /// Error message if the job failed.
    pub error: Option<String>,
}

/// The current time as Unix epoch seconds: whole seconds of the clock's
/// milliseconds.
fn now_epoch_secs() -> u64 {
    now_unix_millis() / 1000
}

/// `j` with every field but `status` and `ended_at` equal to those of `k`.
pub open spec fn same_but_status(j: BackgroundJob, k: BackgroundJob) -> bool {
    &&& j.id == k.id
    &&& j.job_type == k.job_type
    &&& j.description == k.description
    &&& j.tool_use_id == k.tool_use_id
    &&& j.started_at == k.started_at
    &&& j.output_path == k.output_path
    &&& j.exit_code == k.exit_code
    &&& j.error == k.error
}

impl BackgroundJob {
    /// A new pending job entry, stamped with the current time.
    pub fn new(id: String, job_type: JobType, description: String) -> (r: Self)
        ensures
            r.id == id,
            r.job_type == job_type,
            r.status == JobStatus::Pending,
            r.description == description,
            r.tool_use_id is None,
            r.ended_at is None,
            r.output_path is None,
            r.exit_code is None,
            r.error is None,
    {
        BackgroundJob {
            id,
            job_type,
            status: JobStatus::Pending,
            description,
            tool_use_id: None,
            started_at: now_epoch_secs(),
            ended_at: None,
            output_path: None,
            exit_code: None,
            error: None,
        }
    }

    /// Move to a terminal status, stamping `ended_at` with the current time.
    pub fn finish(&mut self, status: JobStatus)
        requires
            terminal(status),
        ensures
            final(self).status == status,
            final(self).ended_at is Some,
            same_but_status(*final(self), *old(self)),
    {
        self.status = status;
        self.ended_at = Some(now_epoch_secs());
    }
}

/// The first position at or after `i` holding `id`, or `-1`.
pub open spec fn key_from(keys: Seq<Seq<char>>, id: Seq<char>, i: int) -> int
    decreases keys.len() - i,
{
    if i < 0 || i >= keys.len() {
        -1
    } else if keys[i] == id {
        i
    } else {
        key_from(keys, id, i + 1)
    }
}

/// The position of `id` among `keys`, or `-1`.
pub open spec fn key_index(keys: Seq<Seq<char>>, id: Seq<char>) -> int {
    key_from(keys, id, 0)
}

/// `key_from` lands on `id`, and no earlier position from `i` on holds it.
pub proof fn lemma_key_from(keys: Seq<Seq<char>>, id: Seq<char>, i: int)
    requires
        0 <= i,
    ensures
        -1 <= key_from(keys, id, i) < keys.len(),
        key_from(keys, id, i) >= 0 ==> i <= key_from(keys, id, i) && keys[key_from(keys, id, i)] == id,
        key_from(keys, id, i) < 0 ==> forall|k: int| i <= k < keys.len() ==> #[trigger] keys[k] != id,
    decreases keys.len() - i,
{
    if i < keys.len() && keys[i] != id {
        lemma_key_from(keys, id, i + 1);
    }
}

/// The test for a running job.
pub open spec fn is_running() -> spec_fn(BackgroundJob) -> bool {
    |j: BackgroundJob| j.status == JobStatus::Running
}

/// The test for a job that has ended.
pub open spec fn has_ended() -> spec_fn(BackgroundJob) -> bool {
    |j: BackgroundJob| terminal(j.status)
}

/// The test for a job that has not ended.
pub open spec fn not_ended() -> spec_fn(BackgroundJob) -> bool {
    |j: BackgroundJob| !terminal(j.status)
}

/// The jobs of a sequence of job references.
pub open spec fn deref_jobs(s: Seq<&BackgroundJob>) -> Seq<BackgroundJob> {
    s.map_values(|j: &BackgroundJob| *j)
}

/// The views of a sequence of strings.
pub open spec fn texts(s: Seq<String>) -> Seq<Seq<char>> {
    s.map_values(|k: String| k@)
}

/// No two strings of `s` are equal.
pub open spec fn distinct_texts(s: Seq<Seq<char>>) -> bool {
    forall|i: int, j: int| 0 <= i < j < s.len() ==> #[trigger] s[i] != #[trigger] s[j]
}

/// The keys, among the first `n`, whose jobs satisfy `pred`, in order.
pub open spec fn keys_where(
    keys: Seq<Seq<char>>,
    jobs: Seq<BackgroundJob>,
    pred: spec_fn(BackgroundJob) -> bool,
    n: int,
) -> Seq<Seq<char>>
    decreases n,
{
    if n <= 0 {
        Seq::empty()
    } else {
        let p = keys_where(keys, jobs, pred, n - 1);
        if pred(jobs[n - 1]) {
            p.push(keys[n - 1])
        } else {
            p
        }
    }
}

/// Whether `x` is one of the first `n` of `keys`.
pub open spec fn among_first(x: Seq<char>, keys: Seq<Seq<char>>, n: int) -> bool {
    exists|k: int| 0 <= k < n && keys[k] == x
}

/// Every string of `picked` is one of the first `n` of `keys`.
pub open spec fn drawn_from(picked: Seq<Seq<char>>, keys: Seq<Seq<char>>, n: int) -> bool {
    forall|a: int| 0 <= a < picked.len() ==> among_first(#[trigger] picked[a], keys, n)
}

/// The keys picked from distinct keys are distinct, and each is one of the
/// first `n`.
proof fn lemma_keys_where(keys: Seq<Seq<char>>, jobs: Seq<BackgroundJob>, pred: spec_fn(BackgroundJob) -> bool, n: int)
    requires
        distinct_texts(keys),
        0 <= n <= keys.len(),
    ensures
        distinct_texts(keys_where(keys, jobs, pred, n)),
        drawn_from(keys_where(keys, jobs, pred, n), keys, n),
    decreases n,
{
    if n > 0 {
        lemma_keys_where(keys, jobs, pred, n - 1);
        let p = keys_where(keys, jobs, pred, n - 1);
        let w = keys_where(keys, jobs, pred, n);
        assert forall|a: int| 0 <= a < w.len() implies among_first(#[trigger] w[a], keys, n) by {
            if a < p.len() {
                assert(w[a] == p[a]);
                assert(among_first(p[a], keys, n - 1));
                let k = choose|k: int| 0 <= k < n - 1 && keys[k] == p[a];
                assert(0 <= k < n && keys[k] == w[a]);
            } else {
                assert(keys[n - 1] == w[a]);
            }
        }
        assert(drawn_from(w, keys, n));
        assert forall|a: int, b: int| 0 <= a < b < w.len() implies #[trigger] w[a] != #[trigger] w[b] by {
            assert(w[a] == p[a]);
            if b >= p.len() {
                assert(among_first(p[a], keys, n - 1));
                let k = choose|k: int| 0 <= k < n - 1 && keys[k] == p[a];
                assert(keys[k] != keys[n - 1]);
            } else {
                assert(w[b] == p[b]);
            }
        }
    }
}

/// The IDs jobs were registered under, in registration order. Like the
/// keys of a map, no two are equal.
#[derive(Debug)]
struct JobKeys {
    keys: Vec<String>,
}

impl JobKeys {
    /// No two registered IDs are equal.
    #[verifier::type_invariant]
    spec fn keys_distinct(&self) -> bool {
        distinct_texts(texts(self.keys@))
    }

    /// No keys.
    fn empty() -> (r: Self)
        ensures
            r.keys@.len() == 0,
            texts(r.keys@) == Seq::<Seq<char>>::empty(),
    {
        let r = JobKeys { keys: Vec::new() };
        proof {
            assert(texts(r.keys@) =~= Seq::<Seq<char>>::empty());
        }
        r
    }

    /// Keys that are known to be distinct.
    fn from_distinct(keys: Vec<String>) -> (r: Self)
        requires
            distinct_texts(texts(keys@)),
        ensures
            r.keys@ == keys@,
    {
        JobKeys { keys }
    }

    /// Position of `id`.
    fn find(&self, id: &str) -> (r: Option<usize>)
        ensures
            distinct_texts(texts(self.keys@)),
            match r {
                Some(i) => i as int == key_index(texts(self.keys@), id@) && (i as int) < self.keys@.len(),
                None => key_index(texts(self.keys@), id@) == -1,
            },
    {
        proof {
            use_type_invariant(self);
        }
        let mut i: usize = 0;
        while i < self.keys.len()
            invariant
                i <= self.keys.len(),
                distinct_texts(texts(self.keys@)),
                key_index(texts(self.keys@), id@) == key_from(texts(self.keys@), id@, i as int),
            decreases self.keys.len() - i,
        {
            if str_eq(self.keys[i].as_str(), id) {
                return Some(i);
            }
            i += 1;
        }
        None
    }

    /// Appends a key that is not there yet.
    fn push(&mut self, key: String)
        requires
            key_index(texts(old(self).keys@), key@) == -1,
        ensures
            final(self).keys@ == old(self).keys@.push(key),
    {
        proof {
            use_type_invariant(&*self);
            lemma_key_from(texts(self.keys@), key@, 0);
        }
        let ghost k = key;
        let mut v: Vec<String> = Vec::new();
        std::mem::swap(&mut v, &mut self.keys);
        v.push(key);
        proof {
            let o = texts(old(self).keys@);
            let t = texts(v@);
            assert(t =~= o.push(k@));
            assert forall|a: int, b: int| 0 <= a < b < t.len() implies #[trigger] t[a] != #[trigger] t[b] by {
                if b == t.len() - 1 {
                    assert(t[a] == o[a]);
                } else {
                    assert(t[a] == o[a] && t[b] == o[b]);
                }
            }
        }
        self.keys = v;
    }
}

/// Registry of background jobs, in the order they were registered, each
/// found by the ID it was registered under.
#[derive(Debug)]
pub struct JobRegistry {
    keys: JobKeys,
    entries: Vec<BackgroundJob>,
}

impl JobRegistry {
    /// The registered jobs, in registration order.
    pub closed spec fn job_seq(&self) -> Seq<BackgroundJob> {
        self.entries@
    }

    /// The IDs the jobs were registered under, in the same order.
    pub closed spec fn keys(&self) -> Seq<Seq<char>> {
        texts(self.keys.keys@)
    }

    /// One registered ID for each job.
    pub closed spec fn wf(&self) -> bool {
        self.keys.keys@.len() == self.entries@.len()
    }

    /// An empty registry.
    pub fn new() -> (r: Self)
        ensures
            r.wf(),
            r.job_seq() == Seq::<BackgroundJob>::empty(),
            r.keys() == Seq::<Seq<char>>::empty(),
    {
        JobRegistry { keys: JobKeys::empty(), entries: Vec::new() }
    }

    /// Position of the job registered as `id`.
    fn find(&self, id: &str) -> (r: Option<usize>)
        requires
            self.wf(),
        ensures
            distinct_texts(self.keys()),
            match r {
                Some(i) => i as int == key_index(self.keys(), id@) && (i as int) < self.job_seq().len(),
                None => key_index(self.keys(), id@) == -1,
            },
    {
        self.keys.find(id)
    }

    /// Register a new job under its ID. Returns `false` if the ID is
    /// already taken.
    pub fn register(&mut self, entry: BackgroundJob) -> (r: bool)
        requires
            old(self).wf(),
        ensures
            final(self).wf(),
            distinct_texts(final(self).keys()),
            r == (key_index(old(self).keys(), entry.id@) == -1),
            r ==> final(self).job_seq() == old(self).job_seq().push(entry),
            r ==> final(self).keys() == old(self).keys().push(entry.id@),
            !r ==> final(self).job_seq() == old(self).job_seq() && final(self).keys() == old(self).keys(),
    {
        if self.find(entry.id.as_str()).is_some() {
            return false;
        }
        let key = entry.id.clone();
        self.keys.push(key);
        self.entries.push(entry);
        proof {
            assert(self.keys() =~= old(self).keys().push(entry.id@));
            use_type_invariant(&self.keys);
        }
        true
    }

    /// Update a job's status; a terminal status also stamps `ended_at`.
    /// No-op if the job doesn't exist.
    pub fn set_status(&mut self, id: &str, status: JobStatus)
        requires
            old(self).wf(),
        ensures
            final(self).wf(),
            final(self).keys() == old(self).keys(),
            ({
                let s = old(self).job_seq();
                let i = key_index(old(self).keys(), id@);
                let f = final(self).job_seq();
                &&& i < 0 ==> f == s
                &&& i >= 0 ==> {
                    &&& f.len() == s.len()
                    &&& forall|k: int| 0 <= k < s.len() && k != i ==> f[k] == s[k]
                    &&& f[i].status == status
                    &&& same_but_status(f[i], s[i])
                    &&& terminal(status) ==> f[i].ended_at is Some
                    &&& !terminal(status) ==> f[i].ended_at == s[i].ended_at
                }
            }),
    {
        if let Some(i) = self.find(id) {
            if status.is_terminal() {
                self.entries[i].finish(status);
            } else {
                self.entries[i].status = status;
            }
        }
    }

    /// Set the output path for a job.
    pub fn set_output_path(&mut self, id: &str, path: String)
        requires
            old(self).wf(),
        ensures
            final(self).wf(),
            final(self).keys() == old(self).keys(),
            ({
                let s = old(self).job_seq();
                let i = key_index(old(self).keys(), id@);
                &&& i < 0 ==> final(self).job_seq() == s
                &&& i >= 0 ==> final(self).job_seq() == s.update(
                    i,
                    BackgroundJob { output_path: Some(path), ..s[i] },
                )
            }),
    {
        if let Some(i) = self.find(id) {
            self.entries[i].output_path = Some(path);
        }
    }

    /// Record a failure with an error message.
    pub fn set_error(&mut self, id: &str, error: String)
        requires
            old(self).wf(),
        ensures
            final(self).wf(),
            final(self).keys() == old(self).keys(),
            ({
                let s = old(self).job_seq();
                let i = key_index(old(self).keys(), id@);
                let f = final(self).job_seq();
                &&& i < 0 ==> f == s
                &&& i >= 0 ==> {
                    &&& f.len() == s.len()
                    &&& forall|k: int| 0 <= k < s.len() && k != i ==> f[k] == s[k]
                    &&& f[i].status == JobStatus::Failed
                    &&& f[i].ended_at is Some
                    &&& f[i].error == Some(error)
                    &&& same_but_status(f[i], BackgroundJob { error: Some(error), ..s[i] })
                }
            }),
    {
        if let Some(i) = self.find(id) {
            self.entries[i].error = Some(error);
            self.entries[i].finish(JobStatus::Failed);
        }
    }

    /// Record completion with an exit code: `0` completes the job, any
    /// other code fails it.
    pub fn set_exit_code(&mut self, id: &str, exit_code: i32)
        requires
            old(self).wf(),
        ensures
            final(self).wf(),
            final(self).keys() == old(self).keys(),
            ({
                let s = old(self).job_seq();
                let i = key_index(old(self).keys(), id@);
                let f = final(self).job_seq();
                &&& i < 0 ==> f == s
                &&& i >= 0 ==> {
                    &&& f.len() == s.len()
                    &&& forall|k: int| 0 <= k < s.len() && k != i ==> f[k] == s[k]
                    &&& f[i].status == (if exit_code == 0 {
                        JobStatus::Completed
                    } else {
                        JobStatus::Failed
                    })
                    &&& f[i].ended_at is Some
                    &&& f[i].exit_code == Some(exit_code)
                    &&& same_but_status(f[i], BackgroundJob { exit_code: Some(exit_code), ..s[i] })
                }
            }),
    {
        if let Some(i) = self.find(id) {
            self.entries[i].exit_code = Some(exit_code);
            let status = if exit_code == 0 {
                JobStatus::Completed
            } else {
                JobStatus::Failed
            };
            self.entries[i].finish(status);
        }
    }

    /// Look up a job by the ID it was registered under.
    pub fn get(&self, id: &str) -> (r: Option<&BackgroundJob>)
        requires
            self.wf(),
        ensures
            distinct_texts(self.keys()),
            match r {
                Some(j) => key_index(self.keys(), id@) >= 0 && *j == self.job_seq()[key_index(self.keys(), id@)],
                None => key_index(self.keys(), id@) == -1,
            },
    {
        match self.find(id) {
            Some(i) => Some(&self.entries[i]),
            None => None,
        }
    }

    /// Mutable look up a job by the ID it was registered under. The
    /// registered IDs stay as they are, whatever the caller does with the
    /// job.
    pub fn get_mut(&mut self, id: &str) -> (r: Option<&mut BackgroundJob>)
        requires
            old(self).wf(),
        ensures
            final(self).wf(),
            final(self).keys() == old(self).keys(),
            match r {
                Some(j) => {
                    let i = key_index(old(self).keys(), id@);
                    &&& 0 <= i < old(self).job_seq().len()
                    &&& *j == old(self).job_seq()[i]
                    &&& final(self).job_seq() == old(self).job_seq().update(i, *final(j))
                },
                None => key_index(old(self).keys(), id@) == -1 && final(self).job_seq() == old(self).job_seq(),
            },
    {
        match self.find(id) {
            Some(i) => Some(&mut self.entries[i]),
            None => None,
        }
    }

    /// All jobs, in registration order.
    pub fn list(&self) -> (r: Vec<&BackgroundJob>)
        ensures
            deref_jobs(r@) == self.job_seq(),
    {
        let mut r: Vec<&BackgroundJob> = Vec::new();
        let mut i: usize = 0;
        while i < self.entries.len()
            invariant
                i <= self.entries.len(),
                deref_jobs(r@) == self.entries@.take(i as int),
            decreases self.entries.len() - i,
        {
            let ghost before = r@;
            r.push(&self.entries[i]);
            proof {
                assert(deref_jobs(r@) =~= deref_jobs(before).push(self.entries@[i as int]));
                assert(self.entries@.take(i + 1) =~= self.entries@.take(i as int).push(self.entries@[i as int]));
            }
            i += 1;
        }
        proof {
            assert(self.entries@.take(i as int) =~= self.entries@);
        }
        r
    }

    /// The running jobs, in registration order.
    pub fn list_running(&self) -> (r: Vec<&BackgroundJob>)
        ensures
            deref_jobs(r@) == self.job_seq().filter(is_running()),
    {
        let ghost s = self.entries@;
        let mut r: Vec<&BackgroundJob> = Vec::new();
        let mut i: usize = 0;
        while i < self.entries.len()
            invariant
                i <= self.entries.len(),
                s == self.entries@,
                deref_jobs(r@) == s.take(i as int).filter(is_running()),
            decreases self.entries.len() - i,
        {
            proof {
                assert(s.take(i + 1) =~= s.take(i as int).push(s[i as int]));
                s.take(i as int).lemma_filter_push(s[i as int], is_running());
            }
            if self.entries[i].status == JobStatus::Running {
                r.push(&self.entries[i]);
                proof {
                    assert(deref_jobs(r@) =~= deref_jobs(r@.drop_last()).push(s[i as int]));
                }
            }
            i += 1;
        }
        proof {
            assert(s.take(i as int) =~= s);
        }
        r
    }

    /// Remove the jobs that have ended. Returns the IDs they were
    /// registered under, in registration order; no two are equal.
    pub fn evict_terminal(&mut self) -> (r: Vec<String>)
        requires
            old(self).wf(),
        ensures
            final(self).wf(),
            final(self).job_seq() == old(self).job_seq().filter(not_ended()),
            final(self).keys() == keys_where(old(self).keys(), old(self).job_seq(), not_ended(), old(self).job_seq().len() as int),
            texts(r@) == keys_where(old(self).keys(), old(self).job_seq(), has_ended(), old(self).job_seq().len() as int),
            distinct_texts(texts(r@)),
    {
        proof {
            use_type_invariant(&self.keys);
        }
        let ghost s = self.entries@;
        let ghost ks = self.keys();
        let mut kept: Vec<BackgroundJob> = Vec::new();
        let mut kept_keys: Vec<String> = Vec::new();
        let mut ids: Vec<String> = Vec::new();
        let mut i: usize = 0;
        while i < self.entries.len()
            invariant
                i <= self.entries.len(),
                self.entries@ == s,
                self.keys() == ks,
                ks.len() == s.len(),
                kept@ == s.take(i as int).filter(not_ended()),
                texts(kept_keys@) == keys_where(ks, s, not_ended(), i as int),
                texts(ids@) == keys_where(ks, s, has_ended(), i as int),
            decreases self.entries.len() - i,
        {
            proof {
                assert(s.take(i + 1) =~= s.take(i as int).push(s[i as int]));
                s.take(i as int).lemma_filter_push(s[i as int], not_ended());
            }
            let key = self.keys.keys[i].clone();
            let j = self.entries[i].duplicate();
            if j.status.is_terminal() {
                let ghost before = ids@;
                ids.push(key);
                proof {
                    assert(texts(ids@) =~= texts(before).push(ks[i as int]));
                }
            } else {
                let ghost before = kept_keys@;
                kept_keys.push(key);
                kept.push(j);
                proof {
                    assert(texts(kept_keys@) =~= texts(before).push(ks[i as int]));
                }
            }
            i += 1;
        }
        proof {
            assert(s.take(i as int) =~= s);
            lemma_keys_where(ks, s, not_ended(), s.len() as int);
            lemma_keys_where(ks, s, has_ended(), s.len() as int);
            lemma_filter_len_matches(ks, s, not_ended(), s.len() as int);
        }
        self.keys = JobKeys::from_distinct(kept_keys);
        self.entries = kept;
        ids
    }

    /// Number of registered jobs.
    pub fn len(&self) -> (r: usize)
        ensures
            r == self.job_seq().len(),
    {
        self.entries.len()
    }

    /// Whether the registry is empty.
    pub fn is_empty(&self) -> (r: bool)
        ensures
            r == (self.job_seq().len() == 0),
    {
        self.entries.len() == 0
    }
}

/// The keys picked for `pred` are as many as the jobs `pred` keeps.
proof fn lemma_filter_len_matches(keys: Seq<Seq<char>>, jobs: Seq<BackgroundJob>, pred: spec_fn(BackgroundJob) -> bool, n: int)
    requires
        0 <= n <= jobs.len(),
    ensures
        keys_where(keys, jobs, pred, n).len() == jobs.take(n).filter(pred).len(),
    decreases n,
{
    if n > 0 {
        lemma_filter_len_matches(keys, jobs, pred, n - 1);
        assert(jobs.take(n) =~= jobs.take(n - 1).push(jobs[n - 1]));
        jobs.take(n - 1).lemma_filter_push(jobs[n - 1], pred);
    } else {
        assert(jobs.take(0) =~= Seq::<BackgroundJob>::empty());
    }
}

impl BackgroundJob {
    /// An independent copy of the entry.
    pub fn duplicate(&self) -> (r: Self)
        ensures
            r == *self,
    {
        BackgroundJob {
            id: self.id.clone(),
            job_type: self.job_type,
            status: self.status,
            description: self.description.clone(),
            tool_use_id: match &self.tool_use_id {
                Some(s) => Some(s.clone()),
                None => None,
            },
            started_at: self.started_at,
            ended_at: self.ended_at,
            output_path: match &self.output_path {
                Some(s) => Some(s.clone()),
                None => None,
            },
            exit_code: self.exit_code,
            error: match &self.error {
                Some(s) => Some(s.clone()),
                None => None,
            },
        }
    }
}

impl Default for JobRegistry {
    fn default() -> (r: Self)
        ensures
            r.wf(),
            r.job_seq() == Seq::<BackgroundJob>::empty(),
            r.keys() == Seq::<Seq<char>>::empty(),
    {
        JobRegistry::new()
    }
}

/// The lowercase hexadecimal digit for `d < 16`.
pub open spec fn hex_digit(d: int) -> char {
    if d < 10 {
        ((d + 48) as u8) as char
    } else {
        ((d - 10 + 97) as u8) as char
    }
}

/// The lowercase hexadecimal notation of `n`, at least `width` digits,
/// padded with leading zeros.
pub open spec fn hex_padded(n: nat, width: nat) -> Seq<char>
    decreases width, n,
{
    if n < 16 && width <= 1 {
        seq![hex_digit(n as int)]
    } else {
        hex_padded(n / 16, if width > 0 { (width - 1) as nat } else { 0 }).push(hex_digit((n % 16) as int))
    }
}

/// The digit character of `d < 16`.
fn hex_char(d: u64) -> (c: char)
    requires
        d < 16,
    ensures
        c == hex_digit(d as int),
{
    if d < 10 {
        ((d + 48) as u8) as char
    } else {
        ((d - 10 + 97) as u8) as char
    }
}

/// The digits of `hex_padded(n, width)`.
fn hex_chars(n: u64, width: u64) -> (r: Vec<char>)
    ensures
        r@ == hex_padded(n as nat, width as nat),
    decreases width, n,
{
    if n < 16 && width <= 1 {
        let mut v: Vec<char> = Vec::new();
        v.push(hex_char(n));
        proof {
            assert(v@ =~= seq![hex_digit(n as int)]);
        }
        v
    } else {
        let w = if width > 0 { width - 1 } else { 0 };
        let mut v = hex_chars(n / 16, w);
        v.push(hex_char(n % 16));
        v
    }
}

/// A job ID: the prefix followed by `hash` in lowercase hexadecimal, at
/// least eight digits.
pub fn job_id_from_hash(prefix: char, hash: u64) -> (r: String)
    ensures
        r@ == seq![prefix] + hex_padded(hash as nat, 8),
{
    let digits = hex_chars(hash, 8);
    let mut s = String::new();
    push_char(&mut s, prefix);
    let mut i: usize = 0;
    while i < digits.len()
        invariant
            i <= digits.len(),
            s@ == seq![prefix] + digits@.take(i as int),
        decreases digits.len() - i,
    {
        push_char(&mut s, digits[i]);
        proof {
            assert(digits@.take(i + 1) =~= digits@.take(i as int).push(digits@[i as int]));
        }
        i += 1;
    }
    proof {
        assert(digits@.take(i as int) =~= digits@);
    }
    s
}

} // verus!
