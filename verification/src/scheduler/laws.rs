//! What holds of jobs, of the queue and of the workers.

use crate::clock::{Moment, Timestamp};
use crate::ids::JobId;
use crate::scheduler::assigner;
use crate::scheduler::assigner::WorkerView;
use crate::scheduler::job;
use crate::scheduler::job::{Job, JobStatus, JobView};
use crate::scheduler::listing;
use crate::scheduler::queue;
use vstd::prelude::*;

verus! {

// ---------------------------------------------------------------------------
// Jobs
// ---------------------------------------------------------------------------

/// A job waits or runs until it completes, fails or is cancelled.
pub proof fn jobs_are_active_until_they_end(status: JobStatus)
    ensures
        status.active() <==> status is Pending || status is Running,
        status.active() <==> !(status is Completed || status is Failed || status is Cancelled),
{
}

/// Users read each status under its own name.
pub proof fn statuses_have_their_names(status: JobStatus)
    ensures
        status is Pending ==> status.text() == "pending"@,
        status is Running ==> status.text() == "running"@,
        status is Completed ==> status.text() == "completed"@,
        status is Failed ==> status.text() == "failed"@,
        status is Cancelled ==> status.text() == "cancelled"@,
{
}

/// A job that was just submitted waits, has its command and image, and nothing has happened to it.
pub proof fn fresh_jobs_wait(
    id: JobId,
    command: Seq<char>,
    image: Option<Seq<char>>,
    created_at: Timestamp,
)
    ensures
        ({
            let fresh = job::fresh_job(id, command, image, created_at);
            &&& fresh.id == id
            &&& fresh.command == command
            &&& fresh.image == image
            &&& fresh.created_at == created_at
            &&& fresh.status is Pending
            &&& fresh.assigned_worker is None
            &&& fresh.executed_by is None
            &&& fresh.exit_code is None
            &&& fresh.output is None
            &&& fresh.error is None
            &&& fresh.completed_at is None
        }),
{
}

/// Changes to a job change what they name and nothing else.
pub proof fn changes_change_what_they_name(
    job: JobView,
    status: JobStatus,
    by: u64,
    code: Option<i32>,
    output: Option<Seq<char>>,
    error: Option<Seq<char>>,
    at: Timestamp,
)
    ensures
        ({
            let t = queue::with_status(job, status, output, error);
            &&& t.status == status
            &&& t.output == (match output {
                Some(text) => Some(text),
                None => job.output,
            })
            &&& t.error == (match error {
                Some(text) => Some(text),
                None => job.error,
            })
            &&& t == (JobView { status: t.status, output: t.output, error: t.error, ..job })
        }),
        ({
            let t = queue::with_result(job, status, by, code, output, error, at);
            &&& t.status == status
            &&& t.executed_by == Some(by)
            &&& t.exit_code == code
            &&& t.output == output
            &&& t.error == error
            &&& t.completed_at == Some(at)
            &&& t.id == job.id && t.command == job.command && t.image == job.image
            &&& t.assigned_worker == job.assigned_worker && t.created_at == job.created_at
        }),
        ({
            let t = queue::with_metadata(job, status, by, code, Some(at));
            &&& t.status == status
            &&& t.executed_by == Some(by)
            &&& t.exit_code == code
            &&& t.completed_at == Some(at)
            &&& t.output == job.output && t.error == job.error
            &&& t.id == job.id && t.command == job.command && t.image == job.image
            &&& t.assigned_worker == job.assigned_worker && t.created_at == job.created_at
        }),
        ({
            let t = queue::assigned_to(job, by);
            &&& t.status is Running
            &&& t.assigned_worker == Some(by)
            &&& t == (JobView {
                status: t.status,
                assigned_worker: t.assigned_worker,
                ..job
            })
        }),
        ({
            let t = queue::cancelled(job);
            &&& t.status is Cancelled
            &&& t == (JobView { status: t.status, ..job })
        }),
{
}

/// A change reaches the job under its identifier, where there is one, and no other.
pub proof fn changes_reach_one_job(
    jobs: Map<JobId, JobView>,
    id: JobId,
    job: JobView,
    other: JobId,
)
    ensures
        queue::updated(jobs, id, job).dom() == jobs.dom(),
        jobs.contains_key(id) ==> queue::updated(jobs, id, job)[id] == job,
        other != id && jobs.contains_key(other) ==> queue::updated(jobs, id, job)[other]
            == jobs[other],
{
    assert(queue::updated(jobs, id, job).dom() =~= jobs.dom());
}

// ---------------------------------------------------------------------------
// The queue
// ---------------------------------------------------------------------------

/// Which jobs wait, which ended by running, which are a worker's and which run on it.
pub proof fn jobs_are_told_apart(job: JobView, worker: u64)
    ensures
        queue::any_job()(job),
        queue::pending()(job) <==> job.status is Pending,
        queue::finished()(job) <==> job.status is Completed || job.status is Failed,
        queue::assigned_jobs(worker)(job) <==> job.assigned_worker == Some(worker),
        queue::running_on(worker)(job) <==> job.status is Running && job.assigned_worker == Some(
            worker,
        ),
{
}

/// Cleaning up takes away the jobs that completed or failed, and leaves the others as they are.
pub proof fn cleanup_leaves_what_has_not_ended(jobs: Map<JobId, JobView>, id: JobId)
    ensures
        ({
            let left = queue::without_jobs(jobs, queue::finished());
            &&& left.contains_key(id) <==> jobs.contains_key(id) && (jobs[id].status is Pending
                || jobs[id].status is Running || jobs[id].status is Cancelled)
            &&& left.contains_key(id) ==> left[id] == jobs[id]
        }),
        jobs.dom().finite() ==> queue::count_jobs(jobs, queue::finished()) == jobs.dom().filter(
            |id: JobId| jobs[id].status is Completed || jobs[id].status is Failed,
        ).len(),
{
    assert(jobs.dom().filter(|id: JobId| queue::finished()(jobs[id])) =~= jobs.dom().filter(
        |id: JobId| jobs[id].status is Completed || jobs[id].status is Failed,
    ));
}

/// As many jobs run on a worker as are running and assigned to it.
pub proof fn running_jobs_are_counted(jobs: Map<JobId, JobView>, worker: u64)
    ensures
        queue::count_jobs(jobs, queue::running_on(worker)) == jobs.dom().filter(
            |id: JobId| jobs[id].status is Running && jobs[id].assigned_worker == Some(worker),
        ).len(),
{
    assert(jobs.dom().filter(|id: JobId| queue::running_on(worker)(jobs[id]))
        =~= jobs.dom().filter(
        |id: JobId| jobs[id].status is Running && jobs[id].assigned_worker == Some(worker),
    ));
}

/// A listing holds every job once: first the one created first and, of those created at the same
/// moment, the one with the smallest identifier.
pub proof fn listings_are_by_creation(jobs: Map<JobId, JobView>, i: int, j: int)
    requires
        queue::jobs_wf(jobs),
        0 <= i < j < listing::listing(jobs).len(),
    ensures
        ({
            let a = listing::listing(jobs)[i];
            let b = listing::listing(jobs)[j];
            &&& jobs.contains_key(a.id) && jobs[a.id] == a
            &&& jobs.contains_key(b.id) && jobs[b.id] == b
            &&& a.id != b.id
            &&& {
                ||| a.created_at.seconds < b.created_at.seconds
                ||| a.created_at.seconds == b.created_at.seconds && a.created_at.nanos
                    < b.created_at.nanos
                ||| a.created_at == b.created_at && a.id < b.id
            }
        }),
{
    listing::listing_lists(jobs);
    assert(listing::precedes(listing::listing(jobs)[i], listing::listing(jobs)[j]));
}

/// Every job is listed.
pub proof fn listings_are_complete(jobs: Map<JobId, JobView>, id: JobId)
    requires
        queue::jobs_wf(jobs),
        jobs.contains_key(id),
    ensures
        exists|i: int|
            0 <= i < listing::listing(jobs).len() && #[trigger] listing::listing(jobs)[i]
                == jobs[id],
{
    listing::listing_lists(jobs);
    let listed = listing::listing(jobs);
    assert(listed.contains(jobs[id]));
    let i = choose|i: int| 0 <= i < listed.len() && listed[i] == jobs[id];
    assert(listing::listing(jobs)[i] == jobs[id]);
}

// ---------------------------------------------------------------------------
// Workers
// ---------------------------------------------------------------------------

/// A worker is alive while its last sign of life is younger than the timeout.
pub proof fn workers_live_until_the_timeout(last: Moment, now: Moment, timeout_ms: u64)
    ensures
        now >= last ==> (assigner::alive_at(last, now, timeout_ms) <==> now - last < timeout_ms
            * 1_000_000),
        now < last ==> (assigner::alive_at(last, now, timeout_ms) <==> timeout_ms > 0),
{
}

/// A sign of life is remembered: the worker is known, was heard of then, and keeps its jobs. It is
/// alive then, and the other workers stay as they are.
pub proof fn signs_of_life_are_remembered(
    workers: Map<u64, WorkerView>,
    id: u64,
    now: Moment,
    timeout_ms: u64,
    other: u64,
)
    requires
        timeout_ms > 0,
    ensures
        ({
            let after = assigner::after_heartbeat(workers, id, now);
            &&& after.contains_key(id)
            &&& after[id].last_heartbeat == now
            &&& workers.contains_key(id) ==> after[id].running_jobs == workers[id].running_jobs
            &&& !workers.contains_key(id) ==> after[id].running_jobs == Set::<JobId>::empty()
            &&& other != id ==> (after.contains_key(other) <==> workers.contains_key(other))
                && after[other] == workers[other]
            &&& assigner::alive_workers(after, now, timeout_ms).contains(id)
        }),
{
}

/// The workers alive are those known whose last sign of life is younger than the timeout.
pub proof fn living_workers_are_known(
    workers: Map<u64, WorkerView>,
    now: Moment,
    timeout_ms: u64,
    id: u64,
)
    requires
        workers.contains_key(id) ==> workers[id].last_heartbeat <= now,
    ensures
        assigner::alive_workers(workers, now, timeout_ms).contains(id) <==> workers.contains_key(id)
            && now - workers[id].last_heartbeat < timeout_ms * 1_000_000,
{
}

/// Taking up a job and letting go of it change the jobs of one worker by that job.
pub proof fn workers_count_their_jobs(
    workers: Map<u64, WorkerView>,
    id: u64,
    job: JobId,
    other: JobId,
)
    requires
        workers.contains_key(id),
    ensures
        ({
            let busy = assigner::after_assignment(workers, id, job);
            let done = assigner::after_completion(workers, id, job);
            &&& busy.dom() == workers.dom() && done.dom() == workers.dom()
            &&& busy[id].running_jobs.contains(job)
            &&& !done[id].running_jobs.contains(job)
            &&& other != job ==> (busy[id].running_jobs.contains(other)
                <==> workers[id].running_jobs.contains(other))
            &&& other != job ==> (done[id].running_jobs.contains(other)
                <==> workers[id].running_jobs.contains(other))
            &&& busy[id].last_heartbeat == workers[id].last_heartbeat
            &&& done[id].last_heartbeat == workers[id].last_heartbeat
            &&& forall|w: u64|
                w != id && workers.contains_key(w) ==> #[trigger] busy[w] == workers[w] && done[w]
                    == workers[w]
        }),
{
    assert(assigner::after_assignment(workers, id, job).dom() =~= workers.dom());
    assert(assigner::after_completion(workers, id, job).dom() =~= workers.dom());
}

/// A job that was taken up and let go of is as if it had never been taken up, and a worker that
/// is not known stays unknown.
pub proof fn letting_go_undoes_taking_up(workers: Map<u64, WorkerView>, id: u64, job: JobId)
    requires
        !workers.contains_key(id) || !workers[id].running_jobs.contains(job),
    ensures
        assigner::after_completion(assigner::after_assignment(workers, id, job), id, job)
            == workers,
        !workers.contains_key(id) ==> assigner::after_assignment(workers, id, job) == workers,
{
    let after = assigner::after_completion(
        assigner::after_assignment(workers, id, job),
        id,
        job,
    );
    if workers.contains_key(id) {
        assert(workers[id].running_jobs.insert(job).remove(job) =~= workers[id].running_jobs);
        assert(after =~= workers);
    }
}

/// An assignment takes a job that waits to a worker heard of within the timeout, and no other such
/// worker runs fewer jobs.
pub proof fn jobs_go_to_the_least_loaded(
    choice: (JobId, u64),
    workers: Map<u64, WorkerView>,
    now: Moment,
    timeout_ms: u64,
    jobs: Map<JobId, JobView>,
    other: u64,
)
    requires
        assigner::assignment_outcome(Some(choice), workers, now, timeout_ms, jobs),
        forall|id: u64| #[trigger] workers.contains_key(id) ==> workers[id].last_heartbeat <= now,
    ensures
        jobs.contains_key(choice.0),
        jobs[choice.0].status is Pending,
        workers.contains_key(choice.1),
        now - workers[choice.1].last_heartbeat < timeout_ms * 1_000_000,
        workers.contains_key(other) && now - workers[other].last_heartbeat < timeout_ms * 1_000_000
            ==> workers[choice.1].running_jobs.len() <= workers[other].running_jobs.len(),
{
    let alive = assigner::alive_workers(workers, now, timeout_ms);
    assert(alive.contains(choice.1));
    if workers.contains_key(other) && now - workers[other].last_heartbeat < timeout_ms * 1_000_000 {
        assert(alive.contains(other));
    }
}

/// No assignment is found only when no job waits or no worker was heard of within the timeout.
pub proof fn jobs_are_assigned_when_possible(
    workers: Map<u64, WorkerView>,
    now: Moment,
    timeout_ms: u64,
    jobs: Map<JobId, JobView>,
    id: JobId,
    worker: u64,
)
    requires
        assigner::assignment_outcome(None, workers, now, timeout_ms, jobs),
        jobs.contains_key(id),
        workers.contains_key(worker),
        workers[worker].last_heartbeat <= now,
    ensures
        !(jobs[id].status is Pending) || now - workers[worker].last_heartbeat >= timeout_ms
            * 1_000_000,
{
    if jobs[id].status is Pending && now - workers[worker].last_heartbeat < timeout_ms * 1_000_000 {
        assert(assigner::alive_workers(workers, now, timeout_ms).contains(worker));
        assert(jobs.contains_key(id) && jobs[id].status is Pending);
    }
}

/// What is assigned runs: the job on its worker, and the worker with the job.
pub proof fn assignments_take_effect(
    choice: (JobId, u64),
    workers: Map<u64, WorkerView>,
    new_workers: Map<u64, WorkerView>,
    jobs: Map<JobId, JobView>,
    new_jobs: Map<JobId, JobView>,
)
    requires
        assigner::assignment_made(Some(choice), workers, new_workers, jobs, new_jobs),
        jobs.contains_key(choice.0),
        workers.contains_key(choice.1),
    ensures
        new_jobs[choice.0].status is Running,
        new_jobs[choice.0].assigned_worker == Some(choice.1),
        new_workers[choice.1].running_jobs.contains(choice.0),
        forall|id: JobId|
            id != choice.0 && jobs.contains_key(id) ==> #[trigger] new_jobs[id] == jobs[id],
        forall|id: u64|
            id != choice.1 && workers.contains_key(id) ==> #[trigger] new_workers[id]
                == workers[id],
        assigner::assignment_made(None, workers, new_workers, jobs, new_jobs) ==> new_jobs == jobs
            && new_workers == workers,
{
}

/// A job is seen with every one of its fields.
pub proof fn jobs_are_seen_whole(job: Job)
    ensures
        job@.id == job.id,
        job@.command == job.command@,
        job@.status == job.status,
        job@.assigned_worker == job.assigned_worker,
        job@.executed_by == job.executed_by,
        job@.exit_code == job.exit_code,
        job@.created_at == job.created_at,
        job@.completed_at == job.completed_at,
        job@.image is Some <==> job.image is Some,
        job.image matches Some(image) ==> job@.image == Some(image@),
        job@.output is Some <==> job.output is Some,
        job.output matches Some(output) ==> job@.output == Some(output@),
        job@.error is Some <==> job.error is Some,
        job.error matches Some(error) ==> job@.error == Some(error@),
{
}

/// A list of jobs of a kind holds each of them once and no others.
pub proof fn lists_of_jobs_are_complete(
    listed: Seq<&Job>,
    jobs: Map<JobId, JobView>,
    which: spec_fn(JobView) -> bool,
    id: JobId,
)
    requires
        queue::lists_jobs(listed, jobs, which),
    ensures
        jobs.contains_key(id) && which(jobs[id]) <==> exists|i: int|
            0 <= i < listed.len() && (#[trigger] listed[i]).id == id,
        forall|i: int| 0 <= i < listed.len() ==> (#[trigger] listed[i])@ == jobs[listed[i].id],
        forall|i: int, j: int|
            0 <= i < listed.len() && 0 <= j < listed.len() && i != j ==> (#[trigger] listed[i]).id
                != (#[trigger] listed[j]).id,
{
    if exists|i: int| 0 <= i < listed.len() && (#[trigger] listed[i]).id == id {
        let i = choose|i: int| 0 <= i < listed.len() && (#[trigger] listed[i]).id == id;
        assert(jobs.contains_key(listed[i].id));
    }
}

/// A node takes ten thousand jobs and no command longer than 4096 bytes from the dashboard.
pub proof fn usual_limits()
    ensures
        queue::DEFAULT_MAX_JOBS == 10_000,
        job::MAX_COMMAND_LEN == 4096,
{
}

} // verus!
