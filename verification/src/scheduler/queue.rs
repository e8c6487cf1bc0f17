use std::collections::hash_map::Entry;
use std::collections::HashMap;

use crate::clock::Timestamp;
use crate::ids::JobId;
use crate::lemmas;
use crate::scheduler::job::{Job, JobStatus, JobView};
use crate::scheduler::listing;
use crate::scheduler::listing::is_before;
use crate::text;
use vstd::prelude::*;

verus! {

broadcast use {vstd::std_specs::hash::group_hash_axioms, crate::lemmas::map_values_domain};

/// Number of jobs a queue holds unless told otherwise.
pub const DEFAULT_MAX_JOBS: usize = 10_000;

/// All jobs the node knows, by identifier, up to a maximum number.
#[derive(Debug)]
pub struct JobQueue {
    jobs: HashMap<JobId, Job>,
    max_jobs: usize,
}

impl View for JobQueue {
    type V = Map<JobId, JobView>;

    closed spec fn view(&self) -> Map<JobId, JobView> {
        self.jobs@.map_values(|job: Job| job@)
    }
}

/// Every job stands under its own identifier, and the moments in it are moments of the calendar.
pub open spec fn jobs_wf(jobs: Map<JobId, JobView>) -> bool {
    &&& jobs.dom().finite()
    &&& forall|id: JobId| #[trigger]
        jobs.contains_key(id) ==> jobs[id].id == id && jobs[id].wf()
}

/// `listed` holds exactly the jobs of `jobs` that are in `which`, each once.
pub open spec fn lists_jobs(
    listed: Seq<&Job>,
    jobs: Map<JobId, JobView>,
    which: spec_fn(JobView) -> bool,
) -> bool {
    &&& forall|i: int|
        0 <= i < listed.len() ==> jobs.contains_key(#[trigger] listed[i].id) && listed[i]@
            == jobs[listed[i].id] && which(listed[i]@)
    &&& forall|i: int, j: int|
        0 <= i < j < listed.len() ==> #[trigger] listed[i].id != #[trigger] listed[j].id
    &&& forall|id: JobId| #[trigger]
        jobs.contains_key(id) && which(jobs[id]) ==> exists|i: int|
            0 <= i < listed.len() && #[trigger] listed[i].id == id
}

/// `pairs` holds identifier and command of exactly the jobs in `which`, each once.
pub open spec fn lists_commands(
    pairs: Seq<(JobId, String)>,
    jobs: Map<JobId, JobView>,
    which: spec_fn(JobView) -> bool,
) -> bool {
    &&& forall|i: int|
        0 <= i < pairs.len() ==> jobs.contains_key((#[trigger] pairs[i]).0) && pairs[i].1@
            == jobs[pairs[i].0].command && which(jobs[pairs[i].0])
    &&& forall|i: int, j: int|
        0 <= i < j < pairs.len() ==> (#[trigger] pairs[i]).0 != (#[trigger] pairs[j]).0
    &&& forall|id: JobId| #[trigger]
        jobs.contains_key(id) && which(jobs[id]) ==> exists|i: int|
            0 <= i < pairs.len() && (#[trigger] pairs[i]).0 == id
}

/// How many jobs are in `which`.
pub open spec fn count_jobs(jobs: Map<JobId, JobView>, which: spec_fn(JobView) -> bool) -> nat {
    jobs.dom().filter(|id: JobId| which(jobs[id])).len()
}

/// The jobs that are not in `which`.
pub open spec fn without_jobs(jobs: Map<JobId, JobView>, which: spec_fn(JobView) -> bool) -> Map<
    JobId,
    JobView,
> {
    Map::new(|id: JobId| jobs.contains_key(id) && !which(jobs[id]), |id: JobId| jobs[id])
}

/// The jobs but for those that are in `which` and among `ids`.
spec fn without_jobs_among(
    jobs: Map<JobId, JobView>,
    which: spec_fn(JobView) -> bool,
    ids: Seq<JobId>,
) -> Map<JobId, JobView> {
    Map::new(
        |id: JobId| jobs.contains_key(id) && !(which(jobs[id]) && ids.contains(id)),
        |id: JobId| jobs[id],
    )
}

/// The jobs stand in order of creation.
pub open spec fn by_creation(listed: Seq<&Job>) -> bool {
    forall|i: int, j: int|
        0 <= i < j < listed.len() ==> (#[trigger] listed[i]).created_at.at_or_before(
            (#[trigger] listed[j]).created_at,
        )
}

/// `job` with a new status, and with a new output and error where given.
pub open spec fn with_status(
    job: JobView,
    status: JobStatus,
    output: Option<Seq<char>>,
    error: Option<Seq<char>>,
) -> JobView {
    JobView {
        status,
        output: if output is Some {
            output
        } else {
            job.output
        },
        error: if error is Some {
            error
        } else {
            job.error
        },
        ..job
    }
}

/// The jobs after a request to cancel the one under `id`: only a job that waits or runs changes.
pub open spec fn after_cancel(jobs: Map<JobId, JobView>, id: JobId) -> Map<JobId, JobView> {
    if jobs.contains_key(id) && jobs[id].status.active() {
        jobs.insert(id, cancelled(jobs[id]))
    } else {
        jobs
    }
}

/// `job` after a result was recorded by the node that executed it.
pub open spec fn with_result(
    job: JobView,
    status: JobStatus,
    executed_by: u64,
    exit_code: Option<i32>,
    output: Option<Seq<char>>,
    error: Option<Seq<char>>,
    completed_at: Timestamp,
) -> JobView {
    JobView {
        status,
        executed_by: Some(executed_by),
        exit_code,
        output,
        error,
        completed_at: Some(completed_at),
        ..job
    }
}

/// `job` after replicated metadata reached it: what it printed stays as it was.
pub open spec fn with_metadata(
    job: JobView,
    status: JobStatus,
    executed_by: u64,
    exit_code: Option<i32>,
    completed_at: Option<Timestamp>,
) -> JobView {
    JobView { status, executed_by: Some(executed_by), exit_code, completed_at, ..job }
}

/// `job` after its assignment to a worker.
pub open spec fn assigned_to(job: JobView, worker_id: u64) -> JobView {
    JobView { assigned_worker: Some(worker_id), status: JobStatus::Running, ..job }
}

/// `job` after its cancellation.
pub open spec fn cancelled(job: JobView) -> JobView {
    JobView { status: JobStatus::Cancelled, ..job }
}

/// Every job.
pub open spec fn any_job() -> spec_fn(JobView) -> bool {
    |job: JobView| true
}

/// The jobs that wait for a worker.
pub open spec fn pending() -> spec_fn(JobView) -> bool {
    |job: JobView| job.status is Pending
}

/// The jobs that ended by running, successfully or not.
pub open spec fn finished() -> spec_fn(JobView) -> bool {
    |job: JobView| job.status is Completed || job.status is Failed
}

/// The jobs assigned to the worker.
pub open spec fn assigned_jobs(worker_id: u64) -> spec_fn(JobView) -> bool {
    |job: JobView| job.assigned_worker == Some(worker_id)
}

/// The jobs that run on the worker.
pub open spec fn running_on(worker_id: u64) -> spec_fn(JobView) -> bool {
    |job: JobView| job.status is Running && job.assigned_worker == Some(worker_id)
}

/// The map with the job under `id`, where there is one, replaced by `job`.
pub open spec fn updated(jobs: Map<JobId, JobView>, id: JobId, job: JobView) -> Map<JobId, JobView> {
    if jobs.contains_key(id) {
        jobs.insert(id, job)
    } else {
        jobs
    }
}

impl Default for JobQueue {
    fn default() -> (r: Self)
        ensures
            r.wf(),
            r@ == Map::<JobId, JobView>::empty(),
            r.capacity() == DEFAULT_MAX_JOBS,
    {
        Self::new()
    }
}

impl JobQueue {
    /// The number of jobs this queue may hold.
    pub closed spec fn capacity(&self) -> usize {
        self.max_jobs
    }

    /// Invariant of the queue: its jobs are well-formed and no more than it may hold.
    pub open spec fn wf(&self) -> bool {
        &&& jobs_wf(self@)
        &&& self@.len() <= self.capacity()
    }

    /// An empty queue of the usual capacity.
    pub fn new() -> (r: Self)
        ensures
            r.wf(),
            r@ == Map::<JobId, JobView>::empty(),
            r.capacity() == DEFAULT_MAX_JOBS,
    {
        Self::with_capacity(DEFAULT_MAX_JOBS)
    }

    /// An empty queue for at most `max_jobs` jobs.
    pub fn with_capacity(max_jobs: usize) -> (r: Self)
        ensures
            r.wf(),
            r@ == Map::<JobId, JobView>::empty(),
            r.capacity() == max_jobs,
    {
        JobQueue { jobs: HashMap::new(), max_jobs }
    }

    /// Adds a job, in place of one with the same identifier. A full queue takes nothing and
    /// returns `false`.
    pub fn add_job(&mut self, job: Job) -> (r: bool)
        requires
            old(self).wf(),
            job@.wf(),
        ensures
            final(self).wf(),
            final(self).capacity() == old(self).capacity(),
            r == (old(self)@.len() < old(self).capacity()),
            final(self)@ == (if r {
                old(self)@.insert(job.id, job@)
            } else {
                old(self)@
            }),
    {
        if self.jobs.len() >= self.max_jobs {
            return false;
        }
        self.jobs.insert(job.id, job);
        true
    }

    /// The job with this identifier.
    pub fn get_job(&self, id: &JobId) -> (r: Option<&Job>)
        ensures
            r is Some <==> self@.contains_key(*id),
            r matches Some(job) ==> job@ == self@[*id],
    {
        self.jobs.get(id)
    }

    /// The job with this identifier, to be changed in place.
    pub fn get_job_mut(&mut self, id: &JobId) -> (r: Option<&mut Job>)
        requires
            old(self).wf(),
        ensures
            r is Some <==> old(self)@.contains_key(*id),
            r matches Some(job) ==> job@ == old(self)@[*id] && final(self)@ == old(self)@.insert(
                *id,
                final(job)@,
            ),
            r is None ==> final(self)@ == old(self)@,
            final(self).capacity() == old(self).capacity(),
    {
        match self.jobs.entry(*id) {
            Entry::Occupied(entry) => Some(entry.into_mut()),
            Entry::Vacant(_) => None,
        }
    }

    /// Puts `job` in the place of the job with its identifier.
    fn replace(&mut self, job: Job)
        requires
            old(self).wf(),
            old(self)@.contains_key(job.id),
            job@.wf(),
        ensures
            final(self).wf(),
            final(self).capacity() == old(self).capacity(),
            final(self)@ == old(self)@.insert(job.id, job@),
    {
        self.jobs.insert(job.id, job);
        assert(self@.dom() =~= old(self)@.dom());
    }

    /// Sets the status of a job, and its output and error where given. Returns whether the job
    /// exists.
    pub fn update_status(
        &mut self,
        id: &JobId,
        status: JobStatus,
        output: Option<String>,
        error: Option<String>,
    ) -> (r: bool)
        requires
            old(self).wf(),
        ensures
            final(self).wf(),
            final(self).capacity() == old(self).capacity(),
            r == old(self)@.contains_key(*id),
            final(self)@ == updated(
                old(self)@,
                *id,
                with_status(
                    old(self)@[*id],
                    status,
                    text::opt_text(output),
                    text::opt_text(error),
                ),
            ),
    {
        match self.jobs.get(id) {
            Some(job) => {
                let mut job = job.clone();
                job.status = status;
                if output.is_some() {
                    job.output = output;
                }
                if error.is_some() {
                    job.error = error;
                }
                self.replace(job);
                true
            },
            None => false,
        }
    }

    /// Records the full result of an execution on the node that ran the job. The output stays on
    /// this node. Returns whether the job exists.
    pub fn update_job_result(
        &mut self,
        id: &JobId,
        status: JobStatus,
        executed_by: u64,
        exit_code: Option<i32>,
        output: Option<String>,
        error: Option<String>,
        completed_at: Timestamp,
    ) -> (r: bool)
        requires
            old(self).wf(),
            completed_at.wf(),
        ensures
            final(self).wf(),
            final(self).capacity() == old(self).capacity(),
            r == old(self)@.contains_key(*id),
            final(self)@ == updated(
                old(self)@,
                *id,
                with_result(
                    old(self)@[*id],
                    status,
                    executed_by,
                    exit_code,
                    text::opt_text(output),
                    text::opt_text(error),
                    completed_at,
                ),
            ),
    {
        match self.jobs.get(id) {
            Some(job) => {
                let mut job = job.clone();
                job.status = status;
                job.executed_by = Some(executed_by);
                job.exit_code = exit_code;
                job.output = output;
                job.error = error;
                job.completed_at = Some(completed_at);
                self.replace(job);
                true
            },
            None => false,
        }
    }

    /// Records replicated metadata of an execution. Output and error are not replicated and stay
    /// as they are. Returns whether the job exists.
    pub fn update_status_metadata(
        &mut self,
        id: &JobId,
        status: JobStatus,
        executed_by: u64,
        exit_code: Option<i32>,
        completed_at: Option<Timestamp>,
    ) -> (r: bool)
        requires
            old(self).wf(),
            completed_at is Some ==> completed_at->0.wf(),
        ensures
            final(self).wf(),
            final(self).capacity() == old(self).capacity(),
            r == old(self)@.contains_key(*id),
            final(self)@ == updated(
                old(self)@,
                *id,
                with_metadata(old(self)@[*id], status, executed_by, exit_code, completed_at),
            ),
    {
        match self.jobs.get(id) {
            Some(job) => {
                let mut job = job.clone();
                job.status = status;
                job.executed_by = Some(executed_by);
                job.exit_code = exit_code;
                job.completed_at = completed_at;
                self.replace(job);
                true
            },
            None => false,
        }
    }

    /// Assigns a job to a worker; the job then runs. Returns whether the job exists.
    pub fn assign_job(&mut self, job_id: &JobId, worker_id: u64) -> (r: bool)
        requires
            old(self).wf(),
        ensures
            final(self).wf(),
            final(self).capacity() == old(self).capacity(),
            r == old(self)@.contains_key(*job_id),
            final(self)@ == updated(
                old(self)@,
                *job_id,
                assigned_to(old(self)@[*job_id], worker_id),
            ),
    {
        match self.jobs.get(job_id) {
            Some(job) => {
                let mut job = job.clone();
                job.assigned_worker = Some(worker_id);
                job.status = JobStatus::Running;
                self.replace(job);
                true
            },
            None => false,
        }
    }

    /// Cancels a job that waits or runs. A job that has ended, and an unknown one, are left
    /// alone, and the result is `false`.
    pub fn cancel_job(&mut self, job_id: &JobId) -> (r: bool)
        requires
            old(self).wf(),
        ensures
            final(self).wf(),
            final(self).capacity() == old(self).capacity(),
            r == (old(self)@.contains_key(*job_id) && old(self)@[*job_id].status.active()),
            final(self)@ == after_cancel(old(self)@, *job_id),
    {
        match self.jobs.get(job_id) {
            Some(job) => {
                if job.status.is_active() {
                    let mut job = job.clone();
                    job.status = JobStatus::Cancelled;
                    self.replace(job);
                    true
                } else {
                    false
                }
            },
            None => false,
        }
    }

    /// The identifiers of all jobs, in no particular order.
    fn job_ids(&self) -> (r: Vec<JobId>)
        ensures
            r@.no_duplicates(),
            r@.to_set() == self@.dom(),
    {
        let mut ids: Vec<JobId> = Vec::new();
        let ghost all = vstd::std_specs::iter::IteratorSpec::remaining(&self.jobs.keys());
        for id in it: self.jobs.keys()
            invariant
                it.seq() == all,
                ids@ == all.unref().take(it.index()),
        {
            ids.push(*id);
        }
        assert(all.unref().take(all.len() as int) =~= all.unref());
        ids
    }

    /// All jobs, in no particular order.
    fn every_job(&self) -> (r: Vec<&Job>)
        requires
            self.wf(),
        ensures
            lists_jobs(r@, self@, any_job()),
    {
        let ids = self.job_ids();
        let mut jobs: Vec<&Job> = Vec::new();
        for i in 0..ids.len()
            invariant
                self.wf(),
                ids@.no_duplicates(),
                ids@.to_set() == self@.dom(),
                jobs@.len() == i,
                forall|k: int|
                    0 <= k < i ==> self@.contains_key(#[trigger] jobs@[k].id) && jobs@[k]@
                        == self@[jobs@[k].id] && jobs@[k].id == ids@[k],
        {
            assert(ids@.to_set().contains(ids@[i as int]));
            match self.jobs.get(&ids[i]) {
                Some(job) => jobs.push(job),
                None => {},
            }
        }
        assert forall|id: JobId| #[trigger] self@.contains_key(id) implies exists|i: int|
            0 <= i < jobs@.len() && #[trigger] jobs@[i].id == id by {
            assert(ids@.to_set().contains(id));
            let k = choose|k: int| 0 <= k < ids@.len() && ids@[k] == id;
            assert(jobs@[k].id == id);
        }
        jobs
    }

    /// All jobs that wait for a worker, in no particular order.
    pub fn pending_jobs(&self) -> (r: Vec<&Job>)
        requires
            self.wf(),
        ensures
            lists_jobs(r@, self@, pending()),
    {
        let all = self.every_job();
        let ghost which = |job: &Job| pending()(job@);
        let mut jobs: Vec<&Job> = Vec::new();
        for i in 0..all.len()
            invariant
                jobs@ == all@.take(i as int).filter(which),
                which == (|job: &Job| pending()(job@)),
        {
            proof {
                lemmas::filter_step(all@, i as int, which);
            }
            if all[i].status == JobStatus::Pending {
                jobs.push(all[i]);
            }
        }
        proof {
            assert(all@.take(all@.len() as int) =~= all@);
            filtered_list(all@, self@, pending());
        }
        jobs
    }

    /// All jobs in order of creation, those of the same moment by identifier.
    pub fn all_jobs(&self) -> (r: Vec<&Job>)
        requires
            self.wf(),
        ensures
            lists_jobs(r@, self@, any_job()),
            by_creation(r@),
            listing::job_views(r@) == listing::listing(self@),
            listing::is_listing(listing::listing(self@), self@),
    {
        let all = self.every_job();
        let mut jobs: Vec<&Job> = Vec::new();
        for i in 0..all.len()
            invariant
                lists_jobs(all@, self@, any_job()),
                ordered(jobs@),
                same_jobs(jobs@, all@.take(i as int)),
        {
            let ghost before = jobs@;
            assert forall|k: int| 0 <= k < before.len() implies (#[trigger] before[k]).id
                != all@[i as int].id by {
                let t = all@.take(i as int);
                assert(t.contains(before[k]));
                let m = choose|m: int| 0 <= m < t.len() && t[m] == before[k];
                assert(all@[m].id != all@[i as int].id);
            }
            let at = insertion_point(&jobs, all[i]);
            jobs.insert(at, all[i]);
            proof {
                inserted_job(before, all@.take(i as int), at as int, all@[i as int]);
                assert(all@.take(i + 1) =~= all@.take(i as int).push(all@[i as int]));
            }
        }
        assert(all@.take(all@.len() as int) =~= all@);
        proof {
            ordered_list(jobs@, all@, self@);
        }
        jobs
    }

    /// The jobs that run on a worker, in no particular order.
    fn running_jobs(&self, worker_id: u64) -> (r: Vec<&Job>)
        requires
            self.wf(),
        ensures
            lists_jobs(r@, self@, running_on(worker_id)),
    {
        let all = self.every_job();
        let ghost which = |job: &Job| running_on(worker_id)(job@);
        let mut jobs: Vec<&Job> = Vec::new();
        for i in 0..all.len()
            invariant
                jobs@ == all@.take(i as int).filter(which),
                which == (|job: &Job| running_on(worker_id)(job@)),
        {
            proof {
                lemmas::filter_step(all@, i as int, which);
            }
            if all[i].status == JobStatus::Running && is_worker(&all[i].assigned_worker, worker_id) {
                jobs.push(all[i]);
            }
        }
        proof {
            assert(all@.take(all@.len() as int) =~= all@);
            filtered_list(all@, self@, running_on(worker_id));
        }
        jobs
    }

    /// The number of jobs that run on a worker.
    pub fn running_jobs_on_worker(&self, worker_id: u64) -> (r: usize)
        requires
            self.wf(),
        ensures
            r == count_jobs(self@, running_on(worker_id)),
    {
        let jobs = self.running_jobs(worker_id);
        proof {
            listed_count(jobs@, self@, running_on(worker_id));
        }
        jobs.len()
    }

    /// The jobs assigned to a worker, whatever their status, in no particular order.
    pub fn jobs_for_worker(&self, worker_id: u64) -> (r: Vec<&Job>)
        requires
            self.wf(),
        ensures
            lists_jobs(r@, self@, assigned_jobs(worker_id)),
    {
        let all = self.every_job();
        let ghost which = |job: &Job| assigned_jobs(worker_id)(job@);
        let mut jobs: Vec<&Job> = Vec::new();
        for i in 0..all.len()
            invariant
                jobs@ == all@.take(i as int).filter(which),
                which == (|job: &Job| assigned_jobs(worker_id)(job@)),
        {
            proof {
                lemmas::filter_step(all@, i as int, which);
            }
            if is_worker(&all[i].assigned_worker, worker_id) {
                jobs.push(all[i]);
            }
        }
        proof {
            assert(all@.take(all@.len() as int) =~= all@);
            filtered_list(all@, self@, assigned_jobs(worker_id));
        }
        jobs
    }

    /// Identifier and command of every job that runs on a worker, in no particular order.
    pub fn jobs_assigned_to(&self, worker_id: u64) -> (r: Vec<(JobId, String)>)
        requires
            self.wf(),
        ensures
            lists_commands(r@, self@, running_on(worker_id)),
    {
        let jobs = self.running_jobs(worker_id);
        let mut pairs: Vec<(JobId, String)> = Vec::new();
        for i in 0..jobs.len()
            invariant
                pairs@.len() == i,
                forall|k: int|
                    0 <= k < i ==> (#[trigger] pairs@[k]).0 == jobs@[k].id && pairs@[k].1
                        == jobs@[k].command,
        {
            pairs.push((jobs[i].id, jobs[i].command.clone()));
        }
        proof {
            assert forall|id: JobId| #[trigger]
                self@.contains_key(id) && running_on(worker_id)(self@[id]) implies exists|i: int|
                0 <= i < pairs@.len() && (#[trigger] pairs@[i]).0 == id by {
                let k = choose|k: int| 0 <= k < jobs@.len() && #[trigger] jobs@[k].id == id;
                assert(pairs@[k].0 == id);
            }
        }
        pairs
    }

    /// Removes the jobs that completed or failed. Returns how many there were.
    pub fn cleanup_finished_jobs(&mut self) -> (r: usize)
        requires
            old(self).wf(),
        ensures
            final(self).wf(),
            final(self).capacity() == old(self).capacity(),
            final(self)@ == without_jobs(old(self)@, finished()),
            r == count_jobs(old(self)@, finished()),
    {
        let before: usize = self.jobs.len();
        let ids = self.job_ids();
        for i in 0..ids.len()
            invariant
                ids@.no_duplicates(),
                ids@.to_set() == old(self)@.dom(),
                old(self).wf(),
                self.capacity() == old(self).capacity(),
                self@ == without_jobs_among(old(self)@, finished(), ids@.take(i as int)),
        {
            assert(ids@.to_set().contains(ids@[i as int]));
            let ended = match self.jobs.get(&ids[i]) {
                Some(job) => job.status == JobStatus::Completed || job.status == JobStatus::Failed,
                None => false,
            };
            let ghost done = ids@.take(i as int);
            assert(ids@.take(i + 1) =~= done.push(ids@[i as int]));
            proof {
                lemmas::push_contains(done, ids@[i as int]);
                assert(!done.contains(ids@[i as int]));
                assert(self@.contains_key(ids@[i as int]));
                assert(self@[ids@[i as int]] == self.jobs@[ids@[i as int]]@);
                assert(self@[ids@[i as int]] == old(self)@[ids@[i as int]]);
                assert(ended == finished()(old(self)@[ids@[i as int]]));
            }
            let ghost step = self@;
            if ended {
                self.jobs.remove(&ids[i]);
                assert(self@ =~= step.remove(ids@[i as int]));
            }
            assert(self@ =~= without_jobs_among(old(self)@, finished(), ids@.take(i + 1)));
        }
        proof {
            assert(ids@.take(ids@.len() as int) =~= ids@);
            assert forall|id: JobId| old(self)@.contains_key(id) implies ids@.contains(id) by {
                assert(ids@.to_set().contains(id));
            }
            assert(self@ =~= without_jobs(old(self)@, finished()));
            removed_count(old(self)@, finished());
        }
        before - self.jobs.len()
    }

    /// The number of jobs.
    pub fn len(&self) -> (r: usize)
        ensures
            r == self@.len(),
    {
        self.jobs.len()
    }

    /// Tells whether there is no job.
    pub fn is_empty(&self) -> (r: bool)
        ensures
            r == (self@.len() == 0),
    {
        self.jobs.len() == 0
    }

    /// Tells whether the queue holds as many jobs as it may.
    pub fn is_full(&self) -> (r: bool)
        ensures
            r == (self@.len() >= self.capacity()),
    {
        self.jobs.len() >= self.max_jobs
    }

    /// Removes all jobs.
    pub fn clear(&mut self)
        ensures
            final(self).wf(),
            final(self)@ == Map::<JobId, JobView>::empty(),
            final(self).capacity() == old(self).capacity(),
    {
        self.jobs.clear();
    }
}

/// Tells whether a job is assigned to this worker.
fn is_worker(assigned: &Option<u64>, worker_id: u64) -> (r: bool)
    ensures
        r == (*assigned == Some(worker_id)),
{
    match assigned {
        Some(id) => *id == worker_id,
        None => false,
    }
}

/// The jobs in `which` and the others make up all jobs.
proof fn removed_count(jobs: Map<JobId, JobView>, which: spec_fn(JobView) -> bool)
    requires
        jobs.dom().finite(),
    ensures
        count_jobs(jobs, which) + without_jobs(jobs, which).len() == jobs.len(),
{
    let gone = jobs.dom().filter(|id: JobId| which(jobs[id]));
    let kept = without_jobs(jobs, which).dom();
    assert(gone.disjoint(kept));
    assert(gone + kept =~= jobs.dom());
    assert(kept =~= jobs.dom().filter(|id: JobId| !which(jobs[id])));
    vstd::set_lib::lemma_set_disjoint_lens(gone, kept);
}

/// A listing of the jobs in `which` is as long as there are such jobs.
proof fn listed_count(listed: Seq<&Job>, jobs: Map<JobId, JobView>, which: spec_fn(JobView) -> bool)
    requires
        lists_jobs(listed, jobs, which),
    ensures
        listed.len() == count_jobs(jobs, which),
{
    let ids = Seq::new(listed.len(), |i: int| listed[i].id);
    assert(ids.no_duplicates());
    ids.unique_seq_to_set();
    assert forall|id: JobId| ids.to_set().contains(id) <==> jobs.dom().filter(
        |id: JobId| which(jobs[id]),
    ).contains(id) by {
        if jobs.contains_key(id) && which(jobs[id]) {
            let k = choose|k: int| 0 <= k < listed.len() && #[trigger] listed[k].id == id;
            assert(ids[k] == id);
        }
    }
    assert(ids.to_set() =~= jobs.dom().filter(|id: JobId| which(jobs[id])));
}

/// `a` and `b` hold the same jobs, under distinct identifiers.
spec fn same_jobs(a: Seq<&Job>, b: Seq<&Job>) -> bool {
    &&& forall|i: int, j: int|
        0 <= i < j < a.len() ==> #[trigger] a[i].id != #[trigger] a[j].id
    &&& forall|i: int| 0 <= i < a.len() ==> b.contains(#[trigger] a[i])
    &&& forall|i: int| 0 <= i < b.len() ==> a.contains(#[trigger] b[i])
}

/// Inserting a job with a new identifier anywhere adds just this job.
proof fn inserted_job(a: Seq<&Job>, b: Seq<&Job>, at: int, job: &Job)
    requires
        same_jobs(a, b),
        0 <= at <= a.len(),
        forall|i: int| 0 <= i < b.len() ==> (#[trigger] b[i]).id != job.id,
    ensures
        same_jobs(a.insert(at, job), b.push(job)),
{
    let x = a.insert(at, job);
    let y = b.push(job);
    assert forall|i: int| 0 <= i < x.len() implies y.contains(#[trigger] x[i]) by {
        if i == at {
            assert(y[b.len() as int] == job);
        } else {
            let k = if i < at {
                i
            } else {
                i - 1
            };
            assert(b.contains(a[k]));
            let m = choose|m: int| 0 <= m < b.len() && b[m] == a[k];
            assert(y[m] == x[i]);
        }
    }
    assert forall|i: int| 0 <= i < y.len() implies x.contains(#[trigger] y[i]) by {
        if i == b.len() {
            assert(x[at] == job);
        } else {
            assert(a.contains(b[i]));
            let m = choose|m: int| 0 <= m < a.len() && a[m] == b[i];
            let k = if m < at {
                m
            } else {
                m + 1
            };
            assert(x[k] == y[i]);
        }
    }
    assert forall|i: int, j: int| 0 <= i < j < x.len() implies #[trigger] x[i].id
        != #[trigger] x[j].id by {
        let p = if i < at {
            i
        } else {
            i - 1
        };
        let q = if j < at {
            j
        } else {
            j - 1
        };
        if i != at {
            assert(b.contains(a[p]));
        }
        if j != at {
            assert(b.contains(a[q]));
        }
    }
}

/// The jobs stand in the order of a listing.
spec fn ordered(listed: Seq<&Job>) -> bool {
    forall|i: int, j: int|
        0 <= i < j < listed.len() ==> listing::precedes(
            (#[trigger] listed[i])@,
            (#[trigger] listed[j])@,
        )
}

/// All jobs put in order are the listing of the jobs.
proof fn ordered_list(listed: Seq<&Job>, all: Seq<&Job>, jobs: Map<JobId, JobView>)
    requires
        jobs_wf(jobs),
        lists_jobs(all, jobs, any_job()),
        same_jobs(listed, all),
        ordered(listed),
    ensures
        lists_jobs(listed, jobs, any_job()),
        by_creation(listed),
        listing::job_views(listed) == listing::listing(jobs),
        listing::is_listing(listing::listing(jobs), jobs),
{
    let views = listing::job_views(listed);
    assert forall|i: int| 0 <= i < listed.len() implies jobs.contains_key(#[trigger] listed[i].id)
        && listed[i]@ == jobs[listed[i].id] by {
        assert(all.contains(listed[i]));
    }
    assert forall|id: JobId| #[trigger] jobs.contains_key(id) implies views.contains(jobs[id])
        && exists|i: int| 0 <= i < listed.len() && #[trigger] listed[i].id == id by {
        assert(any_job()(jobs[id]));
        let k = choose|k: int| 0 <= k < all.len() && #[trigger] all[k].id == id;
        assert(listed.contains(all[k]));
        let m = choose|m: int| 0 <= m < listed.len() && listed[m] == all[k];
        assert(listed[m].id == id);
        assert(views[m] == jobs[id]);
    }
    assert forall|i: int| 0 <= i < views.len() implies jobs.contains_key((#[trigger] views[i]).id)
        && views[i] == jobs[views[i].id] by {
        assert(views[i] == listed[i]@);
    }
    assert(listing::in_order(views)) by {
        assert forall|i: int, j: int| 0 <= i < j < views.len() implies listing::precedes(
            #[trigger] views[i],
            #[trigger] views[j],
        ) by {
            assert(views[i] == listed[i]@ && views[j] == listed[j]@);
        }
    }
    assert(listing::is_listing(views, jobs));
    listing::listing_is_unique(views, listing::listing(jobs), jobs);
}

/// Where `job` belongs among other jobs in the order of a listing.
fn insertion_point(jobs: &Vec<&Job>, job: &Job) -> (r: usize)
    requires
        ordered(jobs@),
        forall|k: int| 0 <= k < jobs@.len() ==> (#[trigger] jobs@[k]).id != job.id,
    ensures
        r <= jobs@.len(),
        ordered(jobs@.insert(r as int, job)),
{
    let mut low: usize = 0;
    let mut high: usize = jobs.len();
    while low < high
        invariant
            low <= high <= jobs@.len(),
            ordered(jobs@),
            forall|k: int| 0 <= k < jobs@.len() ==> (#[trigger] jobs@[k]).id != job.id,
            forall|k: int| 0 <= k < low ==> listing::precedes((#[trigger] jobs@[k])@, job@),
            forall|k: int|
                high <= k < jobs@.len() ==> listing::precedes(job@, (#[trigger] jobs@[k])@),
        decreases high - low,
    {
        let mid: usize = low + (high - low) / 2;
        if is_before(jobs[mid], job) {
            low = mid + 1;
        } else {
            high = mid;
        }
    }
    low
}

/// Picking out of all jobs those in `which` lists exactly these.
proof fn filtered_list(all: Seq<&Job>, jobs: Map<JobId, JobView>, which: spec_fn(JobView) -> bool)
    requires
        lists_jobs(all, jobs, any_job()),
    ensures
        lists_jobs(all.filter(|job: &Job| which(job@)), jobs, which),
{
    let keep = |job: &Job| which(job@);
    filter_keeps_distinct(all, keep);
    broadcast use vstd::seq_lib::group_filter_ensures;

    let picked = all.filter(keep);
    assert forall|i: int| 0 <= i < picked.len() implies jobs.contains_key(#[trigger] picked[i].id)
        && picked[i]@ == jobs[picked[i].id] && which(picked[i]@) by {
        assert(all.contains(picked[i]));
        assert(keep(picked[i]));
    }
    assert forall|id: JobId| #[trigger] jobs.contains_key(id) && which(jobs[id]) implies exists|
        i: int,
    |
        0 <= i < picked.len() && #[trigger] picked[i].id == id by {
        let k = choose|k: int| 0 <= k < all.len() && #[trigger] all[k].id == id;
        assert(keep(all[k]));
        assert(picked.contains(all[k]));
        let i = choose|i: int| 0 <= i < picked.len() && picked[i] == all[k];
        assert(picked[i].id == id);
    }
}

/// Picking out of jobs with distinct identifiers keeps the identifiers distinct.
proof fn filter_keeps_distinct(all: Seq<&Job>, keep: spec_fn(&Job) -> bool)
    requires
        forall|i: int, j: int|
            0 <= i < j < all.len() ==> #[trigger] all[i].id != #[trigger] all[j].id,
    ensures
        forall|i: int, j: int|
            0 <= i < j < all.filter(keep).len() ==> #[trigger] all.filter(keep)[i].id
                != #[trigger] all.filter(keep)[j].id,
        forall|i: int| 0 <= i < all.filter(keep).len() ==> all.contains(#[trigger] all.filter(keep)[i]),
    decreases all.len(),
{
    reveal(Seq::filter);
    if all.len() > 0 {
        let front = all.drop_last();
        filter_keeps_distinct(front, keep);
        assert forall|i: int| 0 <= i < all.filter(keep).len() implies all.contains(
            #[trigger] all.filter(keep)[i],
        ) by {
            if i < front.filter(keep).len() {
                assert(front.contains(front.filter(keep)[i]));
                let m = choose|m: int| 0 <= m < front.len() && front[m] == front.filter(keep)[i];
                assert(all[m] == all.filter(keep)[i]);
            } else {
                assert(all[all.len() - 1] == all.filter(keep)[i]);
            }
        }
        assert forall|i: int, j: int| 0 <= i < j < all.filter(keep).len() implies #[trigger] all.filter(
            keep,
        )[i].id != #[trigger] all.filter(keep)[j].id by {
            assert(front.contains(front.filter(keep)[i]));
        }
    }
}

} // verus!
