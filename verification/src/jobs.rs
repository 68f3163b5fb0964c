//! The job table behind the asynchronous job API: submission, polling,
//! cancellation, removal, dispatch to a bounded number of workers, completion,
//! expiry, and recovery of the jobs that were persisted before a restart.
//! Persistence itself (one JSON file per job) is the caller's part; this
//! module names the files and decides what is kept.

use vstd::prelude::*;
use std::collections::HashMap;

use crate::text::chars_of;
use crate::decimal::{decimal, format_u64, parse_u64_chars, parse_u64_spec};
use crate::timestamp::{chrono_now, is_timestamp_text, timestamp_seconds, timestamp_seconds_spec, unix_time_now};

verus! {

broadcast use vstd::std_specs::hash::group_hash_axioms;

/// Job status.
#[derive(Debug, PartialEq, Eq)]
pub enum JobStatus {
    Pending,
    Running,
    Completed,
    Failed(String),
    Cancelled,
}

impl Clone for JobStatus {
    fn clone(&self) -> (r: Self)
        ensures
            r == *self,
    {
        match self {
            JobStatus::Pending => JobStatus::Pending,
            JobStatus::Running => JobStatus::Running,
            JobStatus::Completed => JobStatus::Completed,
            JobStatus::Failed(m) => JobStatus::Failed(m.clone()),
            JobStatus::Cancelled => JobStatus::Cancelled,
        }
    }
}

/// A submitted analysis job. `result` holds the detection result as JSON
/// text once the job has completed.
#[derive(Debug)]
pub struct Job {
    pub id: u64,
    pub status: JobStatus,
    pub input: String,
    pub input_type: String,
    pub context: String,
    pub deep: bool,
    pub ai: bool,
    pub sandbox: bool,
    pub created_at: String,
    pub updated_at: String,
    pub result: Option<String>,
}

impl Clone for Job {
    fn clone(&self) -> (r: Self)
        ensures
            r == *self,
    {
        Job {
            id: self.id,
            status: self.status.clone(),
            input: self.input.clone(),
            input_type: self.input_type.clone(),
            context: self.context.clone(),
            deep: self.deep,
            ai: self.ai,
            sandbox: self.sandbox,
            created_at: self.created_at.clone(),
            updated_at: self.updated_at.clone(),
            result: match &self.result {
                Some(r) => Some(r.clone()),
                None => None,
            },
        }
    }
}

/// Whether a job with this status may still be cancelled.
pub open spec fn is_active(status: JobStatus) -> bool {
    status is Pending || status is Running
}

/// Whether a job with this status has finished (its record may expire).
pub open spec fn is_finished(status: JobStatus) -> bool {
    status is Completed || status is Failed || status is Cancelled
}

/// `job` with a new status and update time, everything else kept.
pub open spec fn restamped(job: Job, status: JobStatus, updated_at: String) -> Job {
    Job { status: status, updated_at: updated_at, ..job }
}

/// Whether `after` is `before` moved to `status` at some wall-clock time.
pub open spec fn moved_to(before: Job, after: Job, status: JobStatus) -> bool {
    &&& after == restamped(before, status, after.updated_at)
    &&& is_timestamp_text(after.updated_at@)
}

/// The job filed under `id`, if any.
pub open spec fn lookup(jobs: Map<u64, Job>, id: u64) -> Option<Job> {
    if jobs.contains_key(id) {
        Some(jobs[id])
    } else {
        None
    }
}

/// Whether some job is pending.
pub open spec fn has_pending(jobs: Map<u64, Job>) -> bool {
    exists|k: u64| #[trigger] jobs.contains_key(k) && jobs[k].status is Pending
}

/// The time before which a finished job's last update makes it expire: one
/// day before `now_secs`, or 0 early on.
pub open spec fn expiry_cutoff(now_secs: u64) -> u64 {
    if now_secs >= 86400 {
        (now_secs - 86400) as u64
    } else {
        0
    }
}

/// Whether a job's record has expired at `now_secs`: it has finished and its
/// last update (whole seconds, 0 when unreadable) is before the cutoff.
pub open spec fn is_expired(job: Job, now_secs: u64) -> bool {
    is_finished(job.status) && timestamp_seconds_spec(job.updated_at@) < expiry_cutoff(now_secs)
}

/// Whether `ids` lists exactly the finished jobs of `jobs` whose last update
/// (whole seconds) lies more than a day (86400 s) before `now_secs`.
pub open spec fn lists_past_retention(ids: Seq<u64>, jobs: Map<u64, Job>, now_secs: u64) -> bool {
    forall|k: u64|
        #[trigger] ids.contains(k) <==> jobs.contains_key(k) && is_finished(jobs[k].status)
            && timestamp_seconds_spec(jobs[k].updated_at@) + 86400 < now_secs
}

/// Whether `ids` lists exactly the jobs of `jobs` that have expired at
/// `now_secs`.
pub open spec fn lists_expired(ids: Seq<u64>, jobs: Map<u64, Job>, now_secs: u64) -> bool {
    forall|k: u64| #[trigger] ids.contains(k) <==> jobs.contains_key(k) && is_expired(jobs[k], now_secs)
}

/// Whether a persisted job is loaded back after a restart: everything but
/// jobs that completed, were cancelled, or failed with an empty message.
pub open spec fn is_reloaded(status: JobStatus) -> bool {
    !(status is Completed) && !(status is Cancelled) && !(status matches JobStatus::Failed(m) && m@.len() == 0)
}

/// The jobs of `loaded` by id, a later job replacing an earlier one with the
/// same id.
pub open spec fn latest_by_id(loaded: Seq<Job>) -> Map<u64, Job>
    decreases loaded.len(),
{
    if loaded.len() == 0 {
        Map::empty()
    } else {
        latest_by_id(loaded.drop_last()).insert(loaded.last().id, loaded.last())
    }
}

/// The highest id among `jobs` (0 for none).
pub open spec fn highest_id(jobs: Seq<Job>) -> u64
    decreases jobs.len(),
{
    if jobs.len() == 0 {
        0
    } else {
        let rest = highest_id(jobs.drop_last());
        if jobs.last().id > rest {
            jobs.last().id
        } else {
            rest
        }
    }
}

/// The id after which a table that absorbed `loaded` (with `highest` the
/// highest id seen on disk) numbers new jobs.
pub open spec fn next_id_after_restore(next_id: u64, loaded: Seq<Job>, highest: u64) -> u64 {
    if (latest_by_id(loaded).dom().len() > 0 || highest > 0) && highest >= next_id {
        (highest + 1) as u64
    } else {
        next_id
    }
}

/// The abstract state of a job table.
pub struct JobQueueView {
    /// The id the next submission gets.
    pub next_id: u64,
    /// The jobs, by id.
    pub jobs: Map<u64, Job>,
    /// How many jobs may run at once.
    pub max_concurrent: nat,
    /// How many dispatched jobs have not been released yet.
    pub running_count: u64,
}

/// Job table state.
pub struct JobQueue {
    next_id: u64,
    jobs: HashMap<u64, Job>,
    max_concurrent: usize,
    running_count: u64,
}

impl View for JobQueue {
    type V = JobQueueView;

    closed spec fn view(&self) -> JobQueueView {
        JobQueueView {
            next_id: self.next_id,
            jobs: self.jobs@,
            max_concurrent: self.max_concurrent as nat,
            running_count: self.running_count,
        }
    }
}

/// Every job is filed under its own id.
pub open spec fn ids_match(jobs: Map<u64, Job>) -> bool {
    forall|k: u64| #[trigger] jobs.contains_key(k) ==> jobs[k].id == k
}

/// Every filed id is below the id that the next submission gets, so that
/// submissions get ids that no job has.
pub open spec fn ids_below(jobs: Map<u64, Job>, next_id: u64) -> bool {
    forall|k: u64| #[trigger] jobs.contains_key(k) ==> k < next_id
}

/// The id after `id`, wrapping around as an atomic increment does.
pub open spec fn wrapping_next(id: u64) -> u64 {
    if id == u64::MAX {
        0
    } else {
        (id + 1) as u64
    }
}

/// Whether `job` is the record a submission with these parameters creates
/// under `id`.
pub open spec fn is_submission(
    job: Job,
    id: u64,
    input: String,
    input_type: String,
    context: String,
    deep: bool,
    ai: bool,
    sandbox: bool,
) -> bool {
    &&& job.id == id
    &&& job.status == JobStatus::Pending
    &&& job.input == input
    &&& job.input_type == input_type
    &&& job.context == context
    &&& job.deep == deep
    &&& job.ai == ai
    &&& job.sandbox == sandbox
    &&& job.created_at == job.updated_at
    &&& is_timestamp_text(job.created_at@)
    &&& job.result is None
}

/// The keys of a job map, each once, in its iteration order.
fn keys_of(jobs: &HashMap<u64, Job>) -> (ids: Vec<u64>)
    ensures
        forall|k: u64| jobs@.contains_key(k) <==> ids@.contains(k),
        ids@.no_duplicates(),
{
    let mut ids: Vec<u64> = Vec::new();
    for k in it: jobs.keys()
        invariant
            ids@.len() == it.index(),
            forall|j: int| 0 <= j < ids@.len() ==> ids@[j] == *it.seq()[j],
            it.seq().unref().to_set() == jobs@.dom(),
            forall|k: u64|
                #[trigger] jobs@.contains_key(k) ==> ids@.contains(k) || exists|j: int|
                    it.index() <= j < it.seq().len() && *it.seq()[j] == k,
            forall|k: u64| #[trigger] ids@.contains(k) ==> jobs@.contains_key(k),
            it.seq().no_duplicates(),
            ids@.no_duplicates(),
    {
        let ghost old_ids = ids@;
        let ghost s = it.seq().unref();
        let ghost i = it.index();
        proof {
            assert(s.to_set().contains(s[i]));
            assert forall|j: int| 0 <= j < old_ids.len() implies old_ids[j] != s[i] by {
                assert(old_ids[j] == *it.seq()[j]);
                assert(it.seq()[j] != it.seq()[i]);
            }
        }
        ids.push(*k);
        proof {
            assert(*k == s[i]);
            assert forall|q: u64| #[trigger] jobs@.contains_key(q) implies ids@.contains(q)
                || exists|j: int| i + 1 <= j < s.len() && s[j] == q by {
                if old_ids.contains(q) {
                    let j = choose|j: int| 0 <= j < old_ids.len() && old_ids[j] == q;
                    assert(ids@[j] == q);
                } else {
                    let j = choose|j: int| i <= j < s.len() && s[j] == q;
                    if j == i {
                        assert(ids@[ids@.len() - 1] == q);
                    }
                }
            }
            assert forall|q: u64| #[trigger] ids@.contains(q) implies jobs@.contains_key(q) by {
                let j = choose|j: int| 0 <= j < ids@.len() && ids@[j] == q;
                if j < old_ids.len() {
                    assert(old_ids[j] == q);
                    assert(old_ids.contains(q));
                } else {
                    assert(q == s[i]);
                    assert(s.contains(q));
                    assert(s.to_set().contains(q));
                }
            }
        }
    }
    ids
}

impl JobQueue {
    /// The job table's well-formedness: every job is filed under its id.
    #[verifier::type_invariant]
    spec fn wf(self) -> bool {
        ids_match(self.jobs@)
    }

    /// An empty table whose first submission gets `start_id`.
    pub fn with_start_id(max_concurrent: usize, start_id: u64) -> (q: Self)
        ensures
            q@.next_id == start_id,
            q@.jobs == Map::<u64, Job>::empty(),
            q@.max_concurrent == max_concurrent,
            q@.running_count == 0,
    {
        JobQueue { next_id: start_id, jobs: HashMap::new(), max_concurrent, running_count: 0 }
    }

    /// An empty, in-memory table: its first submission gets id 1.
    pub fn in_memory(max_concurrent: usize) -> (q: Self)
        ensures
            q@.next_id == 1,
            q@.jobs == Map::<u64, Job>::empty(),
            q@.max_concurrent == max_concurrent,
            q@.running_count == 0,
    {
        Self::with_start_id(max_concurrent, 1)
    }

    /// Submits a new job, pending, stamped with the current time, and returns
    /// its id.
    pub fn submit(
        &mut self,
        input: String,
        input_type: String,
        context: String,
        deep: bool,
        ai: bool,
        sandbox: bool,
    ) -> (id: u64)
        ensures
            id == old(self)@.next_id,
            final(self)@.next_id == wrapping_next(old(self)@.next_id),
            final(self)@.jobs == old(self)@.jobs.insert(id, final(self)@.jobs[id]),
            is_submission(final(self)@.jobs[id], id, input, input_type, context, deep, ai, sandbox),
            ids_below(old(self)@.jobs, old(self)@.next_id) ==> !old(self)@.jobs.contains_key(id),
            ids_below(old(self)@.jobs, old(self)@.next_id) && old(self)@.next_id < u64::MAX
                ==> ids_below(final(self)@.jobs, final(self)@.next_id),
            final(self)@.max_concurrent == old(self)@.max_concurrent,
            final(self)@.running_count == old(self)@.running_count,
    {
        proof {
            use_type_invariant(&*self);
        }
        let id = self.next_id;
        self.next_id = if id == u64::MAX {
            0
        } else {
            id + 1
        };
        let now = chrono_now();
        let job = Job {
            id,
            status: JobStatus::Pending,
            input,
            input_type,
            context,
            deep,
            ai,
            sandbox,
            created_at: now.clone(),
            updated_at: now,
            result: None,
        };
        self.file_job(job);
        id
    }

    /// The job with this id, if there is one.
    pub fn get(&self, id: u64) -> (r: Option<Job>)
        ensures
            r == lookup(self@.jobs, id),
    {
        match self.jobs.get(&id) {
            Some(job) => Some(job.clone()),
            None => None,
        }
    }

    /// Cancels a pending or running job (stamping the time) and returns the
    /// job as it then stands; a job in another state is left as it is.
    pub fn cancel(&mut self, id: u64) -> (r: Option<Job>)
        ensures
            final(self)@.next_id == old(self)@.next_id,
            final(self)@.max_concurrent == old(self)@.max_concurrent,
            final(self)@.running_count == old(self)@.running_count,
            !old(self)@.jobs.contains_key(id) ==> r is None && final(self)@.jobs == old(self)@.jobs,
            old(self)@.jobs.contains_key(id) && !is_active(old(self)@.jobs[id].status) ==> r == Some(
                old(self)@.jobs[id],
            ) && final(self)@.jobs == old(self)@.jobs,
            old(self)@.jobs.contains_key(id) && is_active(old(self)@.jobs[id].status) ==> {
                &&& r == Some(final(self)@.jobs[id])
                &&& final(self)@.jobs == old(self)@.jobs.insert(id, final(self)@.jobs[id])
                &&& moved_to(old(self)@.jobs[id], final(self)@.jobs[id], JobStatus::Cancelled)
            },
    {
        proof {
            use_type_invariant(&*self);
        }
        match self.jobs.get(&id) {
            Some(job) => {
                let active = match job.status {
                    JobStatus::Pending => true,
                    JobStatus::Running => true,
                    _ => false,
                };
                if active {
                    let mut updated = job.clone();
                    updated.status = JobStatus::Cancelled;
                    updated.updated_at = chrono_now();
                    let snapshot = updated.clone();
                    self.file_job(updated);
                    Some(snapshot)
                } else {
                    Some(job.clone())
                }
            },
            None => None,
        }
    }

    /// The ids of all jobs, each once, in the table's iteration order.
    fn job_ids(&self) -> (ids: Vec<u64>)
        ensures
            forall|k: u64| self@.jobs.contains_key(k) <==> ids@.contains(k),
            ids@.no_duplicates(),
    {
        keys_of(&self.jobs)
    }


    /// Starts the next pending job when fewer than `max_concurrent` jobs are
    /// running: the job is marked running (stamping the time), the running
    /// count goes up by one, and the job is returned for the caller to run.
    /// Which pending job is started is up to the table's iteration order.
    pub fn dispatch_one(&mut self) -> (r: Option<Job>)
        ensures
            old(self)@.running_count <= old(self)@.max_concurrent ==> final(self)@.running_count
                <= final(self)@.max_concurrent,
            old(self)@.running_count >= old(self)@.max_concurrent ==> r is None && final(self)@ == old(self)@,
            old(self)@.running_count < old(self)@.max_concurrent && !has_pending(old(self)@.jobs) ==> r is None
                && final(self)@ == old(self)@,
            old(self)@.running_count < old(self)@.max_concurrent && has_pending(old(self)@.jobs) ==> {
                &&& r is Some
                &&& old(self)@.jobs.contains_key(r->Some_0.id)
                &&& old(self)@.jobs[r->Some_0.id].status is Pending
                &&& moved_to(old(self)@.jobs[r->Some_0.id], r->Some_0, JobStatus::Running)
                &&& final(self)@.jobs == old(self)@.jobs.insert(r->Some_0.id, r->Some_0)
                &&& final(self)@.running_count == old(self)@.running_count + 1
                &&& final(self)@.next_id == old(self)@.next_id
                &&& final(self)@.max_concurrent == old(self)@.max_concurrent
            },
    {
        proof {
            use_type_invariant(&*self);
        }
        if self.running_count >= self.max_concurrent as u64 {
            return None;
        }
        let ids = self.job_ids();
        let mut i: usize = 0;
        let mut found: Option<u64> = None;
        while i < ids.len()
            invariant_except_break
                found is None,
            invariant
                i <= ids@.len(),
                forall|k: u64| self@.jobs.contains_key(k) <==> ids@.contains(k),
                forall|j: int| 0 <= j < i ==> !(self@.jobs[#[trigger] ids@[j]].status is Pending),
            ensures
                found matches Some(k) ==> self@.jobs.contains_key(k) && self@.jobs[k].status is Pending,
                found is None ==> forall|j: int| 0 <= j < ids@.len() ==> !(self@.jobs[#[trigger] ids@[j]].status is Pending),
            decreases ids@.len() - i,
        {
            let k = ids[i];
            proof {
                assert(ids@.contains(k));
            }
            let pending = match self.jobs.get(&k) {
                Some(job) => match job.status {
                    JobStatus::Pending => true,
                    _ => false,
                },
                None => false,
            };
            if pending {
                found = Some(k);
                break;
            }
            i = i + 1;
        }
        let id = match found {
            Some(id) => id,
            None => {
                proof {
                    assert forall|k: u64| #[trigger] self@.jobs.contains_key(k) implies !(self@.jobs[k].status is Pending) by {
                        assert(ids@.contains(k));
                        let j = choose|j: int| 0 <= j < ids@.len() && ids@[j] == k;
                    }
                }
                return None;
            },
        };
        let mut job = match self.jobs.get(&id) {
            Some(job) => job.clone(),
            None => {
                return None;
            },
        };
        job.status = JobStatus::Running;
        job.updated_at = chrono_now();
        let snapshot = job.clone();
        self.file_job(job);
        self.running_count = self.running_count + 1;
        Some(snapshot)
    }

    /// Records how a run ended: a detection result (as JSON text) completes
    /// the job, an error message fails it; either way the time is stamped.
    /// Nothing happens when the job is no longer in the table.
    pub fn complete_job(&mut self, id: u64, outcome: Result<String, String>)
        ensures
            final(self)@.next_id == old(self)@.next_id,
            final(self)@.max_concurrent == old(self)@.max_concurrent,
            final(self)@.running_count == old(self)@.running_count,
            !old(self)@.jobs.contains_key(id) ==> final(self)@.jobs == old(self)@.jobs,
            old(self)@.jobs.contains_key(id) ==> {
                &&& final(self)@.jobs == old(self)@.jobs.insert(id, final(self)@.jobs[id])
                &&& is_timestamp_text(final(self)@.jobs[id].updated_at@)
                &&& match outcome {
                    Ok(detection) => final(self)@.jobs[id] == Job {
                        status: JobStatus::Completed,
                        result: Some(detection),
                        updated_at: final(self)@.jobs[id].updated_at,
                        ..old(self)@.jobs[id]
                    },
                    Err(message) => final(self)@.jobs[id] == restamped(
                        old(self)@.jobs[id],
                        JobStatus::Failed(message),
                        final(self)@.jobs[id].updated_at,
                    ),
                }
            },
    {
        proof {
            use_type_invariant(&*self);
        }
        let mut job = match self.jobs.get(&id) {
            Some(job) => job.clone(),
            None => {
                return;
            },
        };
        match outcome {
            Ok(detection) => {
                job.status = JobStatus::Completed;
                job.result = Some(detection);
            },
            Err(message) => {
                job.status = JobStatus::Failed(message);
            },
        }
        job.updated_at = chrono_now();
        self.file_job(job);
    }

    /// Frees the slot of a job that finished running (the running count goes
    /// down by one, wrapping as an atomic decrement does).
    pub fn release_slot(&mut self)
        ensures
            final(self)@.jobs == old(self)@.jobs,
            final(self)@.next_id == old(self)@.next_id,
            final(self)@.max_concurrent == old(self)@.max_concurrent,
            final(self)@.running_count == (if old(self)@.running_count == 0 {
                u64::MAX
            } else {
                (old(self)@.running_count - 1) as u64
            }),
    {
        proof {
            use_type_invariant(&*self);
        }
        self.running_count = if self.running_count == 0 {
            u64::MAX
        } else {
            self.running_count - 1
        };
    }

    /// The ids of the finished jobs whose last update (in whole seconds, 0
    /// when unreadable) is earlier than a day before `now_secs`, each once.
    pub fn expired_job_ids_at(&self, now_secs: u64) -> (ids: Vec<u64>)
        ensures
            ids@.no_duplicates(),
            forall|k: u64|
                #[trigger] ids@.contains(k) <==> self@.jobs.contains_key(k) && is_finished(self@.jobs[k].status)
                    && timestamp_seconds_spec(self@.jobs[k].updated_at@) + 86400 < now_secs,
            forall|k: u64|
                #[trigger] ids@.contains(k) <==> self@.jobs.contains_key(k) && is_expired(
                    self@.jobs[k],
                    now_secs,
                ),
    {
        let all = self.job_ids();
        let cutoff = if now_secs >= 86400 {
            now_secs - 86400
        } else {
            0
        };
        let mut ids: Vec<u64> = Vec::new();
        let n = all.len();
        for i in 0..n
            invariant
                n == all@.len(),
                all@.no_duplicates(),
                forall|k: u64| self@.jobs.contains_key(k) <==> all@.contains(k),
                cutoff == expiry_cutoff(now_secs),
                ids@.no_duplicates(),
                forall|k: u64|
                    #[trigger] ids@.contains(k) <==> (exists|j: int| 0 <= j < i && all@[j] == k)
                        && self@.jobs.contains_key(k) && is_expired(self@.jobs[k], now_secs),
        {
            let k = all[i];
            proof {
                assert(all@.contains(k));
            }
            let expired = match self.jobs.get(&k) {
                Some(job) => {
                    let finished = match job.status {
                        JobStatus::Completed => true,
                        JobStatus::Failed(_) => true,
                        JobStatus::Cancelled => true,
                        _ => false,
                    };
                    finished && timestamp_seconds(job.updated_at.as_str()) < cutoff
                },
                None => false,
            };
            let ghost before = ids@;
            if expired {
                proof {
                    assert(!before.contains(k));
                }
                ids.push(k);
            }
            proof {
                assert forall|q: u64| #[trigger] ids@.contains(q) <==> (exists|j: int| 0 <= j < i + 1 && all@[j] == q)
                    && self@.jobs.contains_key(q) && is_expired(self@.jobs[q], now_secs) by {
                    if ids@.contains(q) {
                        if !before.contains(q) {
                            assert(q == k);
                        }
                    }
                    if (exists|j: int| 0 <= j < i + 1 && all@[j] == q) && self@.jobs.contains_key(q)
                        && is_expired(self@.jobs[q], now_secs) {
                        let j = choose|j: int| 0 <= j < i + 1 && all@[j] == q;
                        if j == i {
                            assert(ids@[ids@.len() - 1] == q);
                        } else {
                            assert(before.contains(q));
                            let m = choose|m: int| 0 <= m < before.len() && before[m] == q;
                            assert(ids@[m] == q);
                        }
                    }
                }
            }
        }
        proof {
            assert forall|q: u64| self@.jobs.contains_key(q) && is_expired(self@.jobs[q], now_secs)
                implies #[trigger] ids@.contains(q) by {
                assert(all@.contains(q));
                let j = choose|j: int| 0 <= j < all@.len() && all@[j] == q;
            }
            assert forall|q: u64| #[trigger] ids@.contains(q) <==> self@.jobs.contains_key(q) && is_finished(
                self@.jobs[q].status,
            ) && timestamp_seconds_spec(self@.jobs[q].updated_at@) + 86400 < now_secs by {
                if self@.jobs.contains_key(q) {
                    lemma_retention_day(self@.jobs[q], now_secs);
                }
            }
        }
        ids
    }

    /// The expired jobs (see `expired_job_ids_at`) as of the current
    /// wall-clock time.
    pub fn expired_job_ids(&self) -> (ids: Vec<u64>)
        ensures
            ids@.no_duplicates(),
            exists|now_secs: u64| #[trigger] lists_expired(ids@, self@.jobs, now_secs),
            exists|now_secs: u64| #[trigger] lists_past_retention(ids@, self@.jobs, now_secs),
    {
        let (now_secs, _millis) = unix_time_now();
        let ids = self.expired_job_ids_at(now_secs);
        proof {
            assert(lists_expired(ids@, self@.jobs, now_secs));
        }
        assert(lists_past_retention(ids@, self@.jobs, now_secs));
        ids
    }

    /// Absorbs the jobs restored from disk (in the order they were read): a
    /// job already in the table is kept over a restored one with the same id,
    /// and among restored jobs with the same id the last one counts. When
    /// anything was restored or some id was seen on disk (`highest`, the
    /// highest id among all persisted jobs), numbering continues after
    /// `highest` unless it already does.
    pub fn absorb_restored(&mut self, restored: Vec<Job>, highest: u64)
        requires
            highest < u64::MAX,
        ensures
            final(self)@.jobs == latest_by_id(restored@).union_prefer_right(old(self)@.jobs),
            final(self)@.next_id == next_id_after_restore(old(self)@.next_id, restored@, highest),
            final(self)@.max_concurrent == old(self)@.max_concurrent,
            final(self)@.running_count == old(self)@.running_count,
    {
        let mut loaded: HashMap<u64, Job> = HashMap::new();
        let n = restored.len();
        for i in 0..n
            invariant
                n == restored@.len(),
                loaded@ == latest_by_id(restored@.take(i as int)),
                ids_match(loaded@),
        {
            let job = restored[i].clone();
            proof {
                assert(restored@.take(i + 1).drop_last() =~= restored@.take(i as int));
                assert(restored@.take(i + 1).last() == job);
            }
            loaded.insert(job.id, job);
        }
        proof {
            assert(restored@.take(n as int) =~= restored@);
        }
        proof {
            use_type_invariant(&*self);
        }
        let ids = keys_of(&loaded);
        let mut table: HashMap<u64, Job> = HashMap::new();
        std::mem::swap(&mut table, &mut self.jobs);
        let ghost before = table@;
        let m = ids.len();
        for i in 0..m
            invariant
                m == ids@.len(),
                forall|k: u64| loaded@.contains_key(k) <==> ids@.contains(k),
                ids@.no_duplicates(),
                ids_match(loaded@),
                ids_match(before),
                ids_match(table@),
                forall|k: u64|
                    #[trigger] table@.contains_key(k) <==> before.contains_key(k) || (exists|j: int|
                        0 <= j < i && ids@[j] == k),
                forall|k: u64|
                    #[trigger] table@.contains_key(k) ==> table@[k] == (if before.contains_key(k) {
                        before[k]
                    } else {
                        loaded@[k]
                    }),
                loaded@ == latest_by_id(restored@),
                self.next_id == old(self).next_id,
                self.max_concurrent == old(self).max_concurrent,
                self.running_count == old(self).running_count,
        {
            let id = ids[i];
            proof {
                assert(ids@.contains(id));
            }
            if !table.contains_key(&id) {
                match loaded.get(&id) {
                    Some(job) => {
                        table.insert(id, job.clone());
                    },
                    None => {},
                }
            }
            proof {
                assert forall|k: u64| #[trigger] table@.contains_key(k) <==> before.contains_key(k) || (exists|j: int|
                    0 <= j < i + 1 && ids@[j] == k) by {
                    if k == id {
                        assert(ids@[i as int] == k);
                    }
                }
            }
        }
        proof {
            assert forall|k: u64| #[trigger] table@.contains_key(k) <==> latest_by_id(restored@).union_prefer_right(before).contains_key(k) by {
                if loaded@.contains_key(k) {
                    assert(ids@.contains(k));
                    let j = choose|j: int| 0 <= j < ids@.len() && ids@[j] == k;
                }
                if exists|j: int| 0 <= j < m && ids@[j] == k {
                    let j = choose|j: int| 0 <= j < m && ids@[j] == k;
                    assert(ids@.contains(k));
                }
            }
            assert(table@ =~= latest_by_id(restored@).union_prefer_right(before));
        }
        self.jobs = table;
        let count = loaded.len();
        if (count > 0 || highest > 0) && highest >= self.next_id {
            self.next_id = highest + 1;
        }
    }

    /// Removes a job from the table; tells whether there was one.
    pub fn remove(&mut self, id: u64) -> (removed: bool)
        ensures
            removed == old(self)@.jobs.contains_key(id),
            final(self)@.jobs == old(self)@.jobs.remove(id),
            final(self)@.next_id == old(self)@.next_id,
            final(self)@.max_concurrent == old(self)@.max_concurrent,
            final(self)@.running_count == old(self)@.running_count,
    {
        proof {
            use_type_invariant(&*self);
        }
        let mut jobs: HashMap<u64, Job> = HashMap::new();
        std::mem::swap(&mut jobs, &mut self.jobs);
        let removed = jobs.remove(&id).is_some();
        self.jobs = jobs;
        removed
    }

    /// Files `job` under its id, replacing any job filed there.
    fn file_job(&mut self, job: Job)
        ensures
            final(self)@.jobs == old(self)@.jobs.insert(job.id, job),
            final(self)@.next_id == old(self)@.next_id,
            final(self)@.max_concurrent == old(self)@.max_concurrent,
            final(self)@.running_count == old(self)@.running_count,
    {
        proof {
            use_type_invariant(&*self);
        }
        let mut jobs: HashMap<u64, Job> = HashMap::new();
        std::mem::swap(&mut jobs, &mut self.jobs);
        jobs.insert(job.id, job);
        self.jobs = jobs;
    }
}

/// What a persisted job becomes when the table is reloaded after a restart:
/// nothing for a job that completed, was cancelled, or failed with an empty
/// message; a running job goes back to pending (stamping the time); any
/// other job is reloaded as it was.
pub fn restore_on_restart(job: Job) -> (r: Option<Job>)
    ensures
        !is_reloaded(job.status) ==> r is None,
        is_reloaded(job.status) && job.status is Running ==> r is Some && moved_to(
            job,
            r->Some_0,
            JobStatus::Pending,
        ),
        is_reloaded(job.status) && !(job.status is Running) ==> r == Some(job),
{
    let reloaded = match &job.status {
        JobStatus::Completed => false,
        JobStatus::Cancelled => false,
        JobStatus::Failed(m) => !m.as_str().is_empty(),
        _ => true,
    };
    if !reloaded {
        return None;
    }
    let running = match job.status {
        JobStatus::Running => true,
        _ => false,
    };
    if running {
        let mut restored = job;
        restored.status = JobStatus::Pending;
        restored.updated_at = chrono_now();
        Some(restored)
    } else {
        Some(job)
    }
}

/// The highest id among `jobs` (0 for none).
pub fn highest_job_id(jobs: &Vec<Job>) -> (h: u64)
    ensures
        h == highest_id(jobs@),
{
    let mut h: u64 = 0;
    let n = jobs.len();
    for i in 0..n
        invariant
            n == jobs@.len(),
            h == highest_id(jobs@.take(i as int)),
    {
        proof {
            assert(jobs@.take(i + 1).drop_last() =~= jobs@.take(i as int));
        }
        if jobs[i].id > h {
            h = jobs[i].id;
        }
    }
    proof {
        assert(jobs@.take(n as int) =~= jobs@);
    }
    h
}

/// The name of the file a job is persisted in: `job_<id>.json`.
pub open spec fn job_file_name_text(id: nat) -> Seq<char> {
    seq!['j', 'o', 'b', '_'] + decimal(id) + seq!['.', 'j', 's', 'o', 'n']
}

/// The job id a file name stands for: the text between a leading `job_` and
/// a trailing `.json`, parsed as a `u64`.
pub open spec fn job_id_of_file_name(name: Seq<char>) -> Option<u64> {
    if name.len() >= 9 && name.take(4) == seq!['j', 'o', 'b', '_'] && name.skip(name.len() - 5) == seq![
        '.',
        'j',
        's',
        'o',
        'n',
    ] {
        parse_u64_spec(name.subrange(4, name.len() - 5))
    } else {
        None
    }
}

/// The highest job id that the file names stand for (0 for none).
pub open spec fn highest_file_id(names: Seq<String>) -> u64
    decreases names.len(),
{
    if names.len() == 0 {
        0
    } else {
        let rest = highest_file_id(names.drop_last());
        match job_id_of_file_name(names.last()@) {
            Some(id) => if id > rest {
                id
            } else {
                rest
            },
            None => rest,
        }
    }
}

/// The name of the file job `id` is persisted in.
pub fn job_file_name(id: u64) -> (name: String)
    ensures
        name@ == job_file_name_text(id as nat),
{
    let mut name = String::from_str("job_");
    let digits = format_u64(id);
    name.append(digits.as_str());
    name.append(".json");
    proof {
        reveal_strlit("job_");
        reveal_strlit(".json");
        assert(name@ =~= job_file_name_text(id as nat));
    }
    name
}

/// The job id a file name stands for, if any.
pub fn job_id_from_file_name(name: &str) -> (r: Option<u64>)
    ensures
        r == job_id_of_file_name(name@),
{
    let v = chars_of(name);
    let n = v.len();
    if n >= 9 && v[0] == 'j' && v[1] == 'o' && v[2] == 'b' && v[3] == '_' && v[n - 5] == '.' && v[n - 4]
        == 'j' && v[n - 3] == 's' && v[n - 2] == 'o' && v[n - 1] == 'n' {
        proof {
            assert(v@.take(4) =~= seq!['j', 'o', 'b', '_']);
            assert(v@.skip(n - 5) =~= seq!['.', 'j', 's', 'o', 'n']);
        }
        parse_u64_chars(&v, 4, n - 5)
    } else {
        proof {
            if n >= 9 && v@.take(4) == seq!['j', 'o', 'b', '_'] && v@.skip(n - 5) == seq!['.', 'j', 's', 'o', 'n'] {
                assert(v@[0] == v@.take(4)[0] && v@[1] == v@.take(4)[1]);
                assert(v@[2] == v@.take(4)[2] && v@[3] == v@.take(4)[3]);
                assert(v@[n - 5] == v@.skip(n - 5)[0] && v@[n - 4] == v@.skip(n - 5)[1]);
                assert(v@[n - 3] == v@.skip(n - 5)[2] && v@[n - 2] == v@.skip(n - 5)[3]);
                assert(v@[n - 1] == v@.skip(n - 5)[4]);
            }
        }
        None
    }
}

/// The highest job id that the file names in a jobs directory stand for (0
/// for none).
pub fn highest_job_file_id(names: &Vec<String>) -> (h: u64)
    ensures
        h == highest_file_id(names@),
{
    let mut h: u64 = 0;
    let n = names.len();
    for i in 0..n
        invariant
            n == names@.len(),
            h == highest_file_id(names@.take(i as int)),
    {
        proof {
            assert(names@.take(i + 1).drop_last() =~= names@.take(i as int));
        }
        match job_id_from_file_name(names[i].as_str()) {
            Some(id) => {
                if id > h {
                    h = id;
                }
            },
            None => {},
        }
    }
    proof {
        assert(names@.take(n as int) =~= names@);
    }
    h
}

/// A job's file name reads back as the job's id.
pub proof fn lemma_job_file_name_roundtrip(id: u64)
    ensures
        job_id_of_file_name(job_file_name_text(id as nat)) == Some(id),
{
    let name = job_file_name_text(id as nat);
    let d = decimal(id as nat);
    crate::decimal::lemma_decimal_digits(id as nat);
    assert(name.take(4) =~= seq!['j', 'o', 'b', '_']);
    assert(name.skip(name.len() - 5) =~= seq!['.', 'j', 's', 'o', 'n']);
    assert(name.subrange(4, name.len() - 5) =~= d);
    crate::decimal::lemma_parse_decimal(id);
}

/// Finitely many jobs are filed by `latest_by_id`.
proof fn lemma_latest_finite(loaded: Seq<Job>)
    ensures
        latest_by_id(loaded).dom().finite(),
    decreases loaded.len(),
{
    if loaded.len() > 0 {
        lemma_latest_finite(loaded.drop_last());
    }
}

/// The ids filed by `latest_by_id` are ids of the listed jobs.
proof fn lemma_latest_keys(loaded: Seq<Job>, k: u64)
    requires
        latest_by_id(loaded).contains_key(k),
    ensures
        exists|i: int| 0 <= i < loaded.len() && (#[trigger] loaded[i]).id == k,
    decreases loaded.len(),
{
    let rest = loaded.drop_last();
    if k == loaded.last().id {
        assert(loaded[loaded.len() - 1].id == k);
    } else {
        lemma_latest_keys(rest, k);
        let i = choose|i: int| 0 <= i < rest.len() && (#[trigger] rest[i]).id == k;
        assert(loaded[i] == rest[i]);
    }
}

/// Recovery never hands out an id twice: when every filed id was below the
/// next id and every restored job's id is at most `highest`, the same holds
/// after absorbing the restored jobs, so later submissions get fresh ids.
pub proof fn lemma_restore_keeps_ids_fresh(jobs: Map<u64, Job>, next_id: u64, restored: Seq<Job>, highest: u64)
    requires
        ids_below(jobs, next_id),
        highest < u64::MAX,
        forall|i: int| 0 <= i < restored.len() ==> (#[trigger] restored[i]).id <= highest,
    ensures
        ids_below(
            latest_by_id(restored).union_prefer_right(jobs),
            next_id_after_restore(next_id, restored, highest),
        ),
{
    let merged = latest_by_id(restored).union_prefer_right(jobs);
    let next = next_id_after_restore(next_id, restored, highest);
    assert forall|k: u64| #[trigger] merged.contains_key(k) implies k < next by {
        if !jobs.contains_key(k) {
            lemma_latest_keys(restored, k);
            let i = choose|i: int| 0 <= i < restored.len() && (#[trigger] restored[i]).id == k;
            assert(latest_by_id(restored).dom().contains(k));
            lemma_latest_finite(restored);
            vstd::set_lib::lemma_set_empty_equivalency_len(latest_by_id(restored).dom());
            assert(latest_by_id(restored).dom().len() > 0);
        }
    }
}

/// A submitted job reads back as submitted: pending, with the submitted
/// input and options.
pub proof fn lemma_read_after_submit(
    jobs: Map<u64, Job>,
    id: u64,
    job: Job,
    input: String,
    input_type: String,
    context: String,
    deep: bool,
    ai: bool,
    sandbox: bool,
)
    requires
        is_submission(job, id, input, input_type, context, deep, ai, sandbox),
    ensures
        lookup(jobs.insert(id, job), id) == Some(job),
        lookup(jobs.insert(id, job), id)->Some_0.status == JobStatus::Pending,
        lookup(jobs.insert(id, job), id)->Some_0.input == input,
{
}

/// A removed job no longer reads back.
pub proof fn lemma_read_after_remove(jobs: Map<u64, Job>, id: u64)
    ensures
        lookup(jobs.remove(id), id) is None,
{
}

/// Cancelling twice is cancelling once: a cancelled job is not active, so a
/// second cancellation leaves it as it is.
pub proof fn lemma_cancel_idempotent(before: Job, after: Job)
    requires
        moved_to(before, after, JobStatus::Cancelled),
    ensures
        !is_active(after.status),
{
}

/// A job brought back after a restart is never running and never finished
/// with a verdict that stops reloading.
pub proof fn lemma_restored_jobs_not_running(job: Job, restored: Job)
    requires
        is_reloaded(job.status),
        job.status is Running ==> moved_to(job, restored, JobStatus::Pending),
        !(job.status is Running) ==> restored == job,
    ensures
        !(restored.status is Running),
        is_reloaded(restored.status),
{
}

/// The id handed out by the `i`-th submission (counting from 0) to a table
/// whose next id is `start`.
pub open spec fn id_after(start: u64, i: nat) -> u64
    decreases i,
{
    if i == 0 {
        start
    } else {
        wrapping_next(id_after(start, (i - 1) as nat))
    }
}

/// Without wrapping, the `i`-th submission gets `start + i`.
proof fn lemma_id_after(start: u64, i: nat)
    requires
        start + i <= u64::MAX,
    ensures
        id_after(start, i) == start + i,
    decreases i,
{
    if i > 0 {
        lemma_id_after(start, (i - 1) as nat);
    }
}

/// Successive submissions to a table get strictly increasing ids, none
/// below the table's next id, as long as the id counter does not wrap
/// (`start + j` fits in a `u64`).
pub proof fn lemma_successive_submissions(start: u64, i: nat, j: nat)
    requires
        i < j,
        start + j <= u64::MAX,
    ensures
        start <= id_after(start, i) < id_after(start, j),
{
    lemma_id_after(start, i);
    lemma_id_after(start, j);
}

/// Every job file id counts towards the highest one.
pub proof fn lemma_file_ids_at_most_highest(names: Seq<String>, k: int)
    requires
        0 <= k < names.len(),
        job_id_of_file_name(names[k]@) is Some,
    ensures
        job_id_of_file_name(names[k]@)->Some_0 <= highest_file_id(names),
    decreases names.len(),
{
    if k < names.len() - 1 {
        assert(names.drop_last()[k] == names[k]);
        lemma_file_ids_at_most_highest(names.drop_last(), k);
    }
}

/// The id a table persisted in a directory holding files `names` numbers its
/// first submission with: one past the highest job file id, so above every
/// job file id and at least 1. `None` when the highest id is `u64::MAX` and
/// no id follows it.
pub fn start_id_for_files(names: &Vec<String>) -> (r: Option<u64>)
    ensures
        highest_file_id(names@) == u64::MAX ==> r is None,
        highest_file_id(names@) < u64::MAX ==> r == Some((highest_file_id(names@) + 1) as u64),
        r matches Some(start) ==> start >= 1 && forall|k: int|
            0 <= k < names@.len() && (#[trigger] job_id_of_file_name(names@[k]@)) is Some
                ==> job_id_of_file_name(names@[k]@)->Some_0 < start,
{
    let highest = highest_job_file_id(names);
    if highest == u64::MAX {
        return None;
    }
    proof {
        assert forall|k: int|
            0 <= k < names@.len() && (#[trigger] job_id_of_file_name(names@[k]@)) is Some implies
            job_id_of_file_name(names@[k]@)->Some_0 < highest + 1 by {
            lemma_file_ids_at_most_highest(names@, k);
        }
    }
    Some(highest + 1)
}

/// Every job's id counts towards the highest id.
pub proof fn lemma_highest_id_bounds(jobs: Seq<Job>, k: int)
    requires
        0 <= k < jobs.len(),
    ensures
        jobs[k].id <= highest_id(jobs),
    decreases jobs.len(),
{
    if k < jobs.len() - 1 {
        assert(jobs.drop_last()[k] == jobs[k]);
        lemma_highest_id_bounds(jobs.drop_last(), k);
    }
}

/// After absorbing restored jobs, numbering goes on above the highest id
/// seen on disk whenever anything was restored or a positive id was seen.
pub proof fn lemma_restore_numbering_continues(next_id: u64, restored: Seq<Job>, highest: u64)
    requires
        highest < u64::MAX,
        latest_by_id(restored).dom().len() > 0 || highest > 0,
    ensures
        next_id_after_restore(next_id, restored, highest) > highest,
{
}

/// Restarting keeps numbering fresh: after the jobs read from disk
/// (`parsed`, whose highest id is `highest`) are restored into a table whose
/// ids are all below its next id (at least 1), every job that was in the
/// table stays as it was, every filed id stays below the next id, and each
/// of the next `count` submissions gets an id above every id read from disk,
/// each one above the one before.
pub proof fn lemma_restart_then_submit(
    jobs: Map<u64, Job>,
    next_id: u64,
    parsed: Seq<Job>,
    restored: Seq<Job>,
    highest: u64,
    count: nat,
)
    requires
        ids_below(jobs, next_id),
        next_id >= 1,
        highest == highest_id(parsed),
        highest < u64::MAX,
        forall|i: int|
            0 <= i < restored.len() ==> exists|j: int| 0 <= j < parsed.len() && parsed[j].id == (#[trigger] restored[i]).id,
        next_id_after_restore(next_id, restored, highest) + count <= u64::MAX,
    ensures
        ({
            let merged = latest_by_id(restored).union_prefer_right(jobs);
            let next = next_id_after_restore(next_id, restored, highest);
            &&& forall|id: u64| #[trigger] jobs.contains_key(id) ==> merged.contains_key(id) && merged[id] == jobs[id]
            &&& ids_below(merged, next)
            &&& forall|i: nat, j: int|
                i < count && 0 <= j < parsed.len() ==> (#[trigger] parsed[j]).id < #[trigger] id_after(next, i)
            &&& forall|i: nat, k: nat| i < k < count ==> #[trigger] id_after(next, i) < #[trigger] id_after(next, k)
            &&& forall|i: nat| i < count ==> !(#[trigger] merged.contains_key(id_after(next, i)))
        }),
{
    let merged = latest_by_id(restored).union_prefer_right(jobs);
    let next = next_id_after_restore(next_id, restored, highest);
    assert forall|i: int| 0 <= i < restored.len() implies (#[trigger] restored[i]).id <= highest by {
        let j = choose|j: int| 0 <= j < parsed.len() && parsed[j].id == restored[i].id;
        lemma_highest_id_bounds(parsed, j);
    }
    lemma_restore_keeps_ids_fresh(jobs, next_id, restored, highest);
    assert forall|i: nat, j: int| i < count && 0 <= j < parsed.len() implies (#[trigger] parsed[j]).id
        < #[trigger] id_after(next, i) by {
        lemma_highest_id_bounds(parsed, j);
        lemma_id_after(next, i);
        if latest_by_id(restored).dom().len() > 0 || highest > 0 {
            if highest >= next_id {
                lemma_restore_numbering_continues(next_id, restored, highest);
            }
        }
    }
    assert forall|i: nat, k: nat| i < k < count implies #[trigger] id_after(next, i) < #[trigger] id_after(next, k) by {
        lemma_successive_submissions(next, i, k);
    }
    assert forall|i: nat| i < count implies !(#[trigger] merged.contains_key(id_after(next, i))) by {
        lemma_id_after(next, i);
    }
}

/// A table persisted in a directory whose files are `names` numbers its
/// submissions from `start_id_for_files(names)`: as long as the counter
/// does not wrap, every id it hands out is at least 1 and above every job
/// file id, and later submissions get larger ids, so no two are alike.
pub proof fn lemma_directory_numbering(names: Seq<String>, start: u64, i: nat, j: nat)
    requires
        highest_file_id(names) < u64::MAX,
        start == highest_file_id(names) + 1,
        i < j,
        start + j <= u64::MAX,
    ensures
        id_after(start, i) >= 1,
        id_after(start, i) < id_after(start, j),
        forall|k: int|
            0 <= k < names.len() && (#[trigger] job_id_of_file_name(names[k]@)) is Some
                ==> job_id_of_file_name(names[k]@)->Some_0 < id_after(start, i),
{
    lemma_successive_submissions(start, i, j);
    assert forall|k: int|
        0 <= k < names.len() && (#[trigger] job_id_of_file_name(names[k]@)) is Some implies
        job_id_of_file_name(names[k]@)->Some_0 < id_after(start, i) by {
        lemma_file_ids_at_most_highest(names, k);
    }
}

/// Finished jobs are kept for a day: a job has expired at `now_secs`
/// exactly when it has finished and a full day (86400 s) has passed since
/// its last update (whole seconds) before `now_secs`; a job updated less
/// than a day ago, or one still pending or running, never has.
pub proof fn lemma_retention_day(job: Job, now_secs: u64)
    ensures
        is_expired(job, now_secs) <==> is_finished(job.status) && timestamp_seconds_spec(job.updated_at@) + 86400
            < now_secs,
{
}

/// The text of an optional string.
pub open spec fn opt_string_text(o: Option<String>) -> Option<Seq<char>> {
    match o {
        Some(s) => Some(s@),
        None => None,
    }
}

/// The default jobs directory, as path components joined in order: under
/// `%APPDATA%` on Windows, else under `$XDG_DATA_HOME` or
/// `$HOME/.local/share`, falling back to `.`; then `cryptotrace/jobs`.
/// Variables are given where they are set to valid Unicode.
pub open spec fn jobs_dir_components(
    windows: bool,
    appdata: Option<Seq<char>>,
    xdg_data_home: Option<Seq<char>>,
    home: Option<Seq<char>>,
) -> Seq<Seq<char>> {
    let base = if windows {
        match appdata {
            Some(a) => seq![a],
            None => seq!["."@],
        }
    } else {
        match xdg_data_home {
            Some(x) => seq![x],
            None => match home {
                Some(h) => seq![h, ".local"@, "share"@],
                None => seq!["."@],
            },
        }
    };
    base + seq!["cryptotrace"@, "jobs"@]
}

/// The path components of the default jobs directory (see
/// `jobs_dir_components`).
pub fn default_jobs_dir_components(
    windows: bool,
    appdata: Option<String>,
    xdg_data_home: Option<String>,
    home: Option<String>,
) -> (parts: Vec<String>)
    ensures
        parts@.map_values(|p: String| p@) == jobs_dir_components(
            windows,
            opt_string_text(appdata),
            opt_string_text(xdg_data_home),
            opt_string_text(home),
        ),
{
    let mut parts: Vec<String> = Vec::new();
    if windows {
        match appdata {
            Some(a) => parts.push(a),
            None => parts.push(String::from_str(".")),
        }
    } else {
        match xdg_data_home {
            Some(x) => parts.push(x),
            None => match home {
                Some(h) => {
                    parts.push(h);
                    parts.push(String::from_str(".local"));
                    parts.push(String::from_str("share"));
                },
                None => parts.push(String::from_str(".")),
            },
        }
    }
    parts.push(String::from_str("cryptotrace"));
    parts.push(String::from_str("jobs"));
    proof {
        assert(parts@.map_values(|p: String| p@) =~= jobs_dir_components(
            windows,
            opt_string_text(appdata),
            opt_string_text(xdg_data_home),
            opt_string_text(home),
        ));
    }
    parts
}

} // verus!
