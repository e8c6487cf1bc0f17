//! What holds of the jobs, on every node and in every order of restarts and snapshots.

use crate::clock::{Moment, Timestamp};
use crate::ids::JobId;
use crate::lemmas;
use crate::node;
use crate::node::{JobToRun, Machine};
use crate::raft::state::{
    CommandView, EntryView, JobStatusUpdate, Snapshot, SnapshotJobView, SnapshotView, StateView,
};
use crate::scheduler::assigner;
use crate::scheduler::job::{JobStatus, JobView};
use crate::scheduler::queue;
use crate::worker::executor;
use crate::worker::executor::ResultView;
use vstd::prelude::*;

verus! {

/// All nodes come to the same jobs: what the jobs are after log entries depends on the jobs
/// before and on the entries alone, not on the workers or on when a node applies the entries.
pub proof fn jobs_are_replicated(
    a: Machine,
    b: Machine,
    capacity: usize,
    entries: Seq<EntryView>,
    now_a: Moment,
    now_b: Moment,
)
    requires
        a.jobs == b.jobs,
    ensures
        node::apply_all(a, capacity, entries, now_a).jobs == node::apply_all(
            b,
            capacity,
            entries,
            now_b,
        ).jobs,
    decreases entries.len(),
{
    if entries.len() > 0 {
        jobs_are_replicated(a, b, capacity, entries.drop_last(), now_a, now_b);
    }
}

/// Entries may be applied in several turns: the end is the same.
pub proof fn entries_apply_in_turns(
    m: Machine,
    capacity: usize,
    first: Seq<EntryView>,
    second: Seq<EntryView>,
    now: Moment,
)
    ensures
        node::apply_all(m, capacity, first + second, now) == node::apply_all(
            node::apply_all(m, capacity, first, now),
            capacity,
            second,
            now,
        ),
    decreases second.len(),
{
    if second.len() == 0 {
        assert(first + second =~= first);
    } else {
        let all = first + second;
        assert(all.drop_last() =~= first + second.drop_last());
        assert(all.last() == second.last());
        entries_apply_in_turns(m, capacity, first, second.drop_last(), now);
    }
}

/// A submission that is applied again changes nothing.
pub proof fn submission_is_idempotent(
    jobs: Map<JobId, JobView>,
    capacity: usize,
    id: JobId,
    command: Seq<char>,
    image: Option<Seq<char>>,
    created_at: Timestamp,
)
    ensures
        node::submit(
            node::submit(jobs, capacity, id, command, image, created_at),
            capacity,
            id,
            command,
            image,
            created_at,
        ) == node::submit(jobs, capacity, id, command, image, created_at),
{
}

/// A submission never touches a job that is there.
pub proof fn submission_keeps_jobs(
    jobs: Map<JobId, JobView>,
    capacity: usize,
    id: JobId,
    command: Seq<char>,
    image: Option<Seq<char>>,
    created_at: Timestamp,
    other: JobId,
)
    requires
        jobs.contains_key(other),
    ensures
        node::submit(jobs, capacity, id, command, image, created_at).contains_key(other),
        node::submit(jobs, capacity, id, command, image, created_at)[other] == jobs[other],
{
}

/// No command removes a job.
pub proof fn commands_keep_jobs(
    m: Machine,
    capacity: usize,
    command: CommandView,
    now: Moment,
    id: JobId,
)
    requires
        m.jobs.contains_key(id),
    ensures
        node::apply(m, capacity, command, now).jobs.contains_key(id),
{
    match command {
        CommandView::BatchUpdateJobStatus { updates } => {
            updates_keep_output(m.jobs, updates, id);
        },
        _ => {},
    }
}

/// Output is never replicated: no command changes what a job printed, and a new job has printed
/// nothing.
pub proof fn commands_leave_output_alone(
    m: Machine,
    capacity: usize,
    command: CommandView,
    now: Moment,
    id: JobId,
)
    requires
        node::apply(m, capacity, command, now).jobs.contains_key(id),
    ensures
        ({
            let job = node::apply(m, capacity, command, now).jobs[id];
            if m.jobs.contains_key(id) {
                job.output == m.jobs[id].output && job.error == m.jobs[id].error
            } else {
                job.output is None && job.error is None
            }
        }),
{
    match command {
        CommandView::BatchUpdateJobStatus { updates } => {
            updates_keep_output(m.jobs, updates, id);
        },
        _ => {},
    }
}

proof fn updates_keep_output(jobs: Map<JobId, JobView>, updates: Seq<JobStatusUpdate>, id: JobId)
    ensures
        node::update_all_jobs(jobs, updates).contains_key(id) <==> jobs.contains_key(id),
        jobs.contains_key(id) ==> node::update_all_jobs(jobs, updates)[id].output
            == jobs[id].output && node::update_all_jobs(jobs, updates)[id].error == jobs[id].error,
    decreases updates.len(),
{
    if updates.len() > 0 {
        updates_keep_output(jobs, updates.drop_last(), id);
    }
}

/// Cancelling twice is cancelling once.
pub proof fn cancel_is_idempotent(jobs: Map<JobId, JobView>, id: JobId)
    ensures
        queue::after_cancel(queue::after_cancel(jobs, id), id) == queue::after_cancel(jobs, id),
{
}

/// A job that has ended cannot be cancelled, and an unknown one is not made up.
pub proof fn cancel_leaves_ended_jobs_alone(jobs: Map<JobId, JobView>, id: JobId)
    requires
        !jobs.contains_key(id) || jobs[id].status is Completed || jobs[id].status is Failed
            || jobs[id].status is Cancelled,
    ensures
        queue::after_cancel(jobs, id) == jobs,
{
}

/// A job that waits or runs is cancelled, and nothing else changes.
pub proof fn cancel_stops_active_jobs(jobs: Map<JobId, JobView>, id: JobId)
    requires
        jobs.contains_key(id),
        jobs[id].status is Pending || jobs[id].status is Running,
    ensures
        queue::after_cancel(jobs, id) == jobs.insert(
            id,
            JobView { status: JobStatus::Cancelled, ..jobs[id] },
        ),
{
}

/// A batch of updates is the same as its updates one by one.
pub proof fn batch_is_updates_one_by_one(
    m: Machine,
    capacity: usize,
    updates: Seq<JobStatusUpdate>,
    last: JobStatusUpdate,
    now: Moment,
)
    ensures
        node::apply(
            m,
            capacity,
            CommandView::BatchUpdateJobStatus { updates: updates.push(last) },
            now,
        ) == node::apply(
            node::apply(m, capacity, CommandView::BatchUpdateJobStatus { updates }, now),
            capacity,
            CommandView::UpdateJobStatus { update: last },
            now,
        ),
{
    assert(updates.push(last).drop_last() =~= updates);
}

// ---------------------------------------------------------------------------
// Snapshots
// ---------------------------------------------------------------------------

/// All jobs without what they printed.
pub open spec fn stripped(jobs: Map<JobId, JobView>) -> Map<JobId, JobView> {
    jobs.map_values(|job: JobView| node::without_output(job))
}

/// Restoring a snapshot of a queue gives the queue's jobs back, without what they printed.
pub proof fn snapshot_restores_jobs(
    jobs: Map<JobId, JobView>,
    listed: Seq<SnapshotJobView>,
    capacity: usize,
)
    requires
        queue::jobs_wf(jobs),
        node::snapshot_of_jobs(listed, jobs),
        jobs.len() <= capacity,
    ensures
        node::restored_jobs(listed, capacity) == stripped(jobs),
{
    let ids = Seq::new(listed.len(), |i: int| listed[i].id);
    assert(ids.no_duplicates());
    ids.unique_seq_to_set();
    assert(ids.to_set() =~= jobs.dom()) by {
        assert forall|id: JobId| ids.to_set().contains(id) <==> jobs.dom().contains(id) by {
            if jobs.contains_key(id) {
                let i = choose|i: int| 0 <= i < listed.len() && (#[trigger] listed[i]).id == id;
                assert(ids[i] == id);
            }
            if ids.contains(id) {
                let i = choose|i: int| 0 <= i < ids.len() && ids[i] == id;
                assert(jobs.contains_key(listed[i].id));
            }
        }
    }
    restored_prefix(jobs, listed, capacity, listed.len() as int);
    assert(listed.take(listed.len() as int) =~= listed);
    let back = node::restored_jobs(listed, capacity);
    assert forall|id: JobId| back.contains_key(id) <==> jobs.contains_key(id) by {
        if jobs.contains_key(id) {
            let i = choose|i: int| 0 <= i < listed.len() && (#[trigger] listed[i]).id == id;
            assert(back.contains_key(listed[i].id));
        }
    }
    assert(back =~= stripped(jobs));
}

/// What the first `n` jobs of a snapshot restore.
proof fn restored_prefix(
    jobs: Map<JobId, JobView>,
    listed: Seq<SnapshotJobView>,
    capacity: usize,
    n: int,
)
    requires
        node::snapshot_of_jobs(listed, jobs),
        queue::jobs_wf(jobs),
        0 <= n <= listed.len(),
        listed.len() <= capacity,
    ensures
        ({
            let back = node::restored_jobs(listed.take(n), capacity);
            &&& back.dom().finite()
            &&& back.len() == n
            &&& forall|i: int| 0 <= i < n ==> back.contains_key((#[trigger] listed[i]).id)
            &&& forall|id: JobId| #[trigger]
                back.contains_key(id) ==> jobs.contains_key(id) && back[id]
                    == node::without_output(jobs[id]) && exists|i: int|
                    0 <= i < n && (#[trigger] listed[i]).id == id
        }),
    decreases n,
{
    let back = node::restored_jobs(listed.take(n), capacity);
    if n > 0 {
        restored_prefix(jobs, listed, capacity, n - 1);
        let front = node::restored_jobs(listed.take(n - 1), capacity);
        assert(listed.take(n).drop_last() =~= listed.take(n - 1));
        assert(listed.take(n).last() == listed[n - 1]);
        let job = listed[n - 1];
        assert(!front.contains_key(job.id)) by {
            if front.contains_key(job.id) {
                let i = choose|i: int| 0 <= i < n - 1 && (#[trigger] listed[i]).id == job.id;
                assert(listed[i].id != listed[n - 1].id);
            }
        }
        assert(back == front.insert(job.id, node::job_of_snapshot(job)));
        assert(job == node::job_in_snapshot(jobs[job.id]));
        assert forall|id: JobId| #[trigger] back.contains_key(id) implies jobs.contains_key(id)
            && back[id] == node::without_output(jobs[id]) && exists|i: int|
            0 <= i < n && (#[trigger] listed[i]).id == id by {
            if id == job.id {
                assert(listed[n - 1].id == id);
            } else {
                assert(front.contains_key(id));
                let i = choose|i: int| 0 <= i < n - 1 && (#[trigger] listed[i]).id == id;
                assert(listed[i].id == id);
            }
        }
    }
}

/// A node that was rebuilt from a snapshot and then applies the entries behind it comes to the
/// same jobs as one that applied all entries, but for what jobs printed.
pub proof fn snapshot_and_entries_meet(
    m: Machine,
    rebuilt: Machine,
    capacity: usize,
    entries: Seq<EntryView>,
    now_m: Moment,
    now_rebuilt: Moment,
)
    requires
        m.jobs.dom().finite(),
        rebuilt.jobs == stripped(m.jobs),
    ensures
        node::apply_all(rebuilt, capacity, entries, now_rebuilt).jobs == stripped(
            node::apply_all(m, capacity, entries, now_m).jobs,
        ),
        node::apply_all(m, capacity, entries, now_m).jobs.dom().finite(),
    decreases entries.len(),
{
    if entries.len() > 0 {
        snapshot_and_entries_meet(
            m,
            rebuilt,
            capacity,
            entries.drop_last(),
            now_m,
            now_rebuilt,
        );
        let a = node::apply_all(m, capacity, entries.drop_last(), now_m);
        let b = node::apply_all(rebuilt, capacity, entries.drop_last(), now_rebuilt);
        apply_strips(a, b, capacity, entries.last().command, now_m, now_rebuilt);
    }
}

proof fn apply_strips(
    a: Machine,
    b: Machine,
    capacity: usize,
    command: CommandView,
    now_a: Moment,
    now_b: Moment,
)
    requires
        a.jobs.dom().finite(),
        b.jobs == stripped(a.jobs),
    ensures
        node::apply(b, capacity, command, now_b).jobs == stripped(
            node::apply(a, capacity, command, now_a).jobs,
        ),
        node::apply(a, capacity, command, now_a).jobs.dom().finite(),
{
    assert(b.jobs.dom() =~= a.jobs.dom());
    let x = node::apply(a, capacity, command, now_a).jobs;
    let y = node::apply(b, capacity, command, now_b).jobs;
    match command {
        CommandView::BatchUpdateJobStatus { updates } => {
            updates_strip(a.jobs, b.jobs, updates);
        },
        _ => {
            assert(y =~= stripped(x));
        },
    }
}

proof fn updates_strip(
    a: Map<JobId, JobView>,
    b: Map<JobId, JobView>,
    updates: Seq<JobStatusUpdate>,
)
    requires
        a.dom().finite(),
        b == stripped(a),
    ensures
        node::update_all_jobs(b, updates) == stripped(node::update_all_jobs(a, updates)),
        node::update_all_jobs(a, updates).dom().finite(),
    decreases updates.len(),
{
    if updates.len() > 0 {
        updates_strip(a, b, updates.drop_last());
        let x = node::update_all_jobs(a, updates.drop_last());
        let y = node::update_all_jobs(b, updates.drop_last());
        assert(node::update_jobs(y, updates.last()) =~= stripped(
            node::update_jobs(x, updates.last()),
        ));
    }
}

// ---------------------------------------------------------------------------
// Results of jobs
// ---------------------------------------------------------------------------

/// Every node comes to what the node that ran a job recorded: the same status, exit code,
/// executing node and time of completion, which are those of the result. What the job printed
/// stays on the node that ran it, and no other job changes on either side.
pub proof fn results_are_replicated_as_recorded(
    m: Machine,
    capacity: usize,
    result: ResultView,
    node_id: u64,
    completed_at: Timestamp,
    now: Moment,
)
    requires
        m.jobs.contains_key(result.job_id),
    ensures
        ({
            let id = result.job_id;
            let here = node::after_result(m, result, node_id, completed_at);
            let update = node::update_of_result(result, node_id, completed_at);
            let there = node::apply(m, capacity, node::update_command_view(seq![update]), now);
            &&& here.jobs.dom() == m.jobs.dom()
            &&& there.jobs.dom() == m.jobs.dom()
            &&& there.jobs[id].status == here.jobs[id].status
            &&& here.jobs[id].status == result.status
            &&& there.jobs[id].exit_code == here.jobs[id].exit_code
            &&& here.jobs[id].exit_code == result.exit_code
            &&& there.jobs[id].executed_by == here.jobs[id].executed_by
            &&& here.jobs[id].executed_by == Some(node_id)
            &&& there.jobs[id].completed_at == here.jobs[id].completed_at
            &&& here.jobs[id].completed_at == Some(completed_at)
            &&& here.jobs[id].output == result.output && here.jobs[id].error == result.error
            &&& there.jobs[id].output == m.jobs[id].output && there.jobs[id].error
                == m.jobs[id].error
            &&& as_submitted(here.jobs[id], m.jobs[id])
            &&& as_submitted(there.jobs[id], m.jobs[id])
            &&& forall|other: JobId|
                other != id && m.jobs.contains_key(other) ==> #[trigger] there.jobs[other]
                    == m.jobs[other] && here.jobs[other] == m.jobs[other]
            &&& there.workers == m.workers
        }),
{
}

/// Both are the same job, assigned to the same worker.
pub open spec fn as_submitted(a: JobView, b: JobView) -> bool {
    &&& a.id == b.id
    &&& a.command == b.command
    &&& a.image == b.image
    &&& a.created_at == b.created_at
    &&& a.assigned_worker == b.assigned_worker
}

/// Every node learns that a job failed exactly when its process failed, and otherwise that it
/// completed, with the exit code of the process.
pub proof fn failures_are_replicated_as_failures(
    m: Machine,
    capacity: usize,
    job_id: JobId,
    success: bool,
    code: Option<i32>,
    stdout: Seq<char>,
    stderr: Seq<char>,
    node_id: u64,
    completed_at: Timestamp,
    now: Moment,
)
    requires
        m.jobs.contains_key(job_id),
    ensures
        ({
            let result = executor::process_result(job_id, success, code, stdout, stderr);
            let update = node::update_of_result(result, node_id, completed_at);
            let job = node::apply(
                m,
                capacity,
                node::update_command_view(seq![update]),
                now,
            ).jobs[job_id];
            &&& job.status is Failed <==> !success
            &&& job.status is Completed <==> success
            &&& job.exit_code == code
            &&& job.executed_by == Some(node_id)
            &&& job.completed_at == Some(completed_at)
        }),
{
}

/// Every node learns that a job failed that could not be run at all.
pub proof fn jobs_not_run_are_replicated_as_failed(
    m: Machine,
    capacity: usize,
    job_id: JobId,
    error: Seq<char>,
    node_id: u64,
    completed_at: Timestamp,
    now: Moment,
)
    requires
        m.jobs.contains_key(job_id),
    ensures
        ({
            let result = executor::not_run(job_id, error);
            let here = node::after_result(m, result, node_id, completed_at).jobs[job_id];
            let update = node::update_of_result(result, node_id, completed_at);
            let there = node::apply(
                m,
                capacity,
                node::update_command_view(seq![update]),
                now,
            ).jobs[job_id];
            &&& there.status is Failed && here.status is Failed
            &&& there.exit_code is None && here.exit_code is None
            &&& there.executed_by == Some(node_id)
            &&& here.error == Some(error)
            &&& here.output is None
        }),
{
}

/// A worker that finished a job no longer runs it; its other jobs, and other workers, stay.
pub proof fn finished_jobs_leave_their_worker(
    m: Machine,
    result: ResultView,
    node_id: u64,
    completed_at: Timestamp,
)
    requires
        m.workers.contains_key(node_id),
    ensures
        ({
            let after = node::after_result(m, result, node_id, completed_at).workers;
            &&& after.dom() == m.workers.dom()
            &&& !after[node_id].running_jobs.contains(result.job_id)
            &&& forall|job_id: JobId|
                job_id != result.job_id ==> (#[trigger] after[node_id].running_jobs.contains(
                    job_id,
                ) <==> m.workers[node_id].running_jobs.contains(job_id))
            &&& after[node_id].last_heartbeat == m.workers[node_id].last_heartbeat
            &&& forall|other: u64|
                other != node_id && m.workers.contains_key(other) ==> #[trigger] after[other]
                    == m.workers[other]
        }),
{
}

/// Updates reach the jobs they name: where no later update names the same job, the job is as its
/// update says.
pub proof fn updates_reach_their_jobs(
    m: Machine,
    capacity: usize,
    updates: Seq<JobStatusUpdate>,
    i: int,
    now: Moment,
)
    requires
        0 <= i < updates.len(),
        m.jobs.contains_key(updates[i].job_id),
        forall|k: int| i < k < updates.len() ==> (#[trigger] updates[k]).job_id != updates[i].job_id,
    ensures
        ({
            let after = node::apply(m, capacity, node::update_command_view(updates), now);
            let job = after.jobs[updates[i].job_id];
            &&& after.jobs.dom() == m.jobs.dom()
            &&& after.workers == m.workers
            &&& job.status == updates[i].status
            &&& job.executed_by == Some(updates[i].executed_by)
            &&& job.exit_code == updates[i].exit_code
            &&& job.completed_at == updates[i].completed_at
        }),
{
    let id = updates[i].job_id;
    updates_keep_jobs(m.jobs, updates);
    let first = updates.take(i + 1);
    updates_keep_jobs(m.jobs, first);
    updates_keep_jobs(m.jobs, updates.take(i));
    assert(first.drop_last() =~= updates.take(i));
    assert(first.last() == updates[i]);
    updates_elsewhere(m.jobs, updates, i + 1, id);
    if updates.len() == 1 {
        assert(updates.take(i) =~= Seq::<JobStatusUpdate>::empty());
        assert(node::update_all_jobs(m.jobs, updates.take(i)) == m.jobs);
        assert(first =~= updates);
    }
}

/// Updates change no job that none of them names.
pub proof fn updates_leave_other_jobs_alone(
    m: Machine,
    capacity: usize,
    updates: Seq<JobStatusUpdate>,
    id: JobId,
    now: Moment,
)
    requires
        forall|k: int| 0 <= k < updates.len() ==> (#[trigger] updates[k]).job_id != id,
    ensures
        ({
            let after = node::apply(m, capacity, node::update_command_view(updates), now);
            &&& after.jobs.contains_key(id) <==> m.jobs.contains_key(id)
            &&& m.jobs.contains_key(id) ==> after.jobs[id] == m.jobs[id]
        }),
{
    updates_keep_jobs(m.jobs, updates);
    updates_elsewhere(m.jobs, updates, 0, id);
    assert(updates.take(0) =~= Seq::<JobStatusUpdate>::empty());
    assert(node::update_all_jobs(m.jobs, updates.take(0)) == m.jobs);
    if updates.len() == 1 {
        assert(updates[0].job_id != id);
    }
}

/// Updates add and remove no jobs.
proof fn updates_keep_jobs(jobs: Map<JobId, JobView>, updates: Seq<JobStatusUpdate>)
    ensures
        node::update_all_jobs(jobs, updates).dom() == jobs.dom(),
    decreases updates.len(),
{
    if updates.len() > 0 {
        updates_keep_jobs(jobs, updates.drop_last());
        assert(node::update_all_jobs(jobs, updates).dom() =~= jobs.dom());
    }
}

/// Updates from `n` on that do not name a job leave it as the first `n` left it.
proof fn updates_elsewhere(
    jobs: Map<JobId, JobView>,
    updates: Seq<JobStatusUpdate>,
    n: int,
    id: JobId,
)
    requires
        0 <= n <= updates.len(),
        forall|k: int| n <= k < updates.len() ==> (#[trigger] updates[k]).job_id != id,
    ensures
        node::update_all_jobs(jobs, updates)[id] == node::update_all_jobs(
            jobs,
            updates.take(n),
        )[id],
    decreases updates.len(),
{
    if n == updates.len() {
        assert(updates.take(n) =~= updates);
    } else {
        let front = updates.drop_last();
        assert forall|k: int| n <= k < front.len() implies (#[trigger] front[k]).job_id != id by {
            assert(updates[k].job_id != id);
        }
        updates_elsewhere(jobs, front, n, id);
        assert(front.take(n) =~= updates.take(n));
        assert(updates[updates.len() - 1].job_id != id);
    }
}

// ---------------------------------------------------------------------------
// Commands
// ---------------------------------------------------------------------------

/// A submitted job that is new, and for which there is room, waits on every node with the command,
/// image and time of its submission, and nothing has happened to it. A full queue takes none.
pub proof fn submitted_jobs_wait(
    m: Machine,
    capacity: usize,
    id: JobId,
    command: Seq<char>,
    image: Option<Seq<char>>,
    created_at: Timestamp,
    now: Moment,
)
    ensures
        ({
            let after = node::apply(
                m,
                capacity,
                CommandView::SubmitJob { job_id: id, command, image, created_at },
                now,
            );
            let job = after.jobs[id];
            &&& after.workers == m.workers
            &&& forall|other: JobId|
                other != id ==> (#[trigger] after.jobs.contains_key(other)
                    <==> m.jobs.contains_key(other)) && after.jobs[other] == m.jobs[other]
            &&& m.jobs.contains_key(id) ==> after.jobs == m.jobs
            &&& m.jobs.len() >= capacity ==> after.jobs == m.jobs
            &&& !m.jobs.contains_key(id) && m.jobs.len() < capacity ==> {
                &&& after.jobs.contains_key(id)
                &&& job.id == id
                &&& job.command == command
                &&& job.image == image
                &&& job.created_at == created_at
                &&& job.status is Pending
                &&& job.assigned_worker is None
                &&& job.executed_by is None
                &&& job.exit_code is None
                &&& job.output is None
                &&& job.error is None
                &&& job.completed_at is None
            }
        }),
{
}

/// An assigned job runs on its worker, and the worker counts it among its jobs. Nothing else
/// changes: no other job, no other worker, and nothing else about this job.
pub proof fn assigned_jobs_run_on_their_worker(
    m: Machine,
    capacity: usize,
    id: JobId,
    worker: u64,
    now: Moment,
)
    ensures
        ({
            let after = node::apply(
                m,
                capacity,
                CommandView::AssignJob { job_id: id, worker_id: worker },
                now,
            );
            &&& after.jobs.dom() == m.jobs.dom()
            &&& after.workers.dom() == m.workers.dom()
            &&& m.jobs.contains_key(id) ==> {
                &&& after.jobs[id].status is Running
                &&& after.jobs[id].assigned_worker == Some(worker)
                &&& after.jobs[id] == (JobView {
                    status: after.jobs[id].status,
                    assigned_worker: after.jobs[id].assigned_worker,
                    ..m.jobs[id]
                })
            }
            &&& forall|other: JobId|
                other != id && m.jobs.contains_key(other) ==> #[trigger] after.jobs[other]
                    == m.jobs[other]
            &&& m.workers.contains_key(worker) ==> {
                &&& after.workers[worker].last_heartbeat == m.workers[worker].last_heartbeat
                &&& forall|job_id: JobId| #[trigger]
                    after.workers[worker].running_jobs.contains(job_id) <==> job_id == id
                        || m.workers[worker].running_jobs.contains(job_id)
            }
            &&& forall|other: u64|
                other != worker && m.workers.contains_key(other) ==> #[trigger] after.workers[other]
                    == m.workers[other]
            &&& m.jobs.contains_key(id) && m.workers.contains_key(worker) ==> node::runs_on(
                after,
                worker,
                id,
            )
        }),
{
}

/// A job is run by a worker until it ends: neither a cancelled job nor one with a result is run.
pub proof fn ended_jobs_are_not_run(m: Machine, node_id: u64, id: JobId)
    ensures
        node::runs_on(m, node_id, id) ==> m.jobs.contains_key(id) && m.jobs[id].status is Running,
        m.jobs.contains_key(id) && !(m.jobs[id].status is Running) ==> !node::runs_on(
            m,
            node_id,
            id,
        ),
        m.workers.contains_key(node_id) && m.workers[node_id].running_jobs.contains(id)
            && m.jobs.contains_key(id) && m.jobs[id].status is Running ==> node::runs_on(
            m,
            node_id,
            id,
        ),
        !m.workers.contains_key(node_id) || !m.workers[node_id].running_jobs.contains(id)
            ==> !node::runs_on(m, node_id, id),
{
}

/// A registered worker is known from then on: it was last heard of now and runs nothing. No job
/// and no other worker changes.
pub proof fn registered_workers_are_known(m: Machine, capacity: usize, worker: u64, now: Moment)
    ensures
        ({
            let after = node::apply(
                m,
                capacity,
                CommandView::RegisterWorker { worker_id: worker },
                now,
            );
            &&& after.jobs == m.jobs
            &&& after.workers.contains_key(worker)
            &&& after.workers[worker].last_heartbeat == now
            &&& forall|id: JobId| !#[trigger] after.workers[worker].running_jobs.contains(id)
            &&& forall|other: u64|
                other != worker ==> (#[trigger] after.workers.contains_key(other)
                    <==> m.workers.contains_key(other)) && after.workers[other] == m.workers[other]
        }),
{
}

/// Cancelling and the empty command leave the workers alone, and the empty command the jobs too.
pub proof fn cancelling_leaves_workers_alone(m: Machine, capacity: usize, id: JobId, now: Moment)
    ensures
        node::apply(m, capacity, CommandView::CancelJob { job_id: id }, now).workers == m.workers,
        node::apply(m, capacity, CommandView::CancelJob { job_id: id }, now).jobs
            == queue::after_cancel(m.jobs, id),
        node::apply(m, capacity, CommandView::Noop, now) == m,
{
}

/// The assigner is woken for whatever brings a job or a worker that was not there before, or a
/// sign of life, and for submissions and registrations only.
pub proof fn new_jobs_and_workers_wake_the_assigner(
    m: Machine,
    capacity: usize,
    command: CommandView,
    now: Moment,
)
    ensures
        ({
            let after = node::apply(m, capacity, command, now);
            &&& after.jobs.dom() != m.jobs.dom() ==> node::wakes_assigner(command)
            &&& after.workers.dom() != m.workers.dom() ==> node::wakes_assigner(command)
            &&& forall|id: u64|
                m.workers.contains_key(id) && #[trigger] after.workers[id].last_heartbeat
                    != m.workers[id].last_heartbeat ==> node::wakes_assigner(command)
        }),
        node::wakes_assigner(command) ==> match command {
            CommandView::SubmitJob { .. } => true,
            CommandView::RegisterWorker { .. } => true,
            _ => false,
        },
        command is SubmitJob ==> node::wakes_assigner(command),
        command is RegisterWorker ==> node::wakes_assigner(command),
{
    let after = node::apply(m, capacity, command, now);
    match command {
        CommandView::BatchUpdateJobStatus { updates } => {
            updates_keep_jobs(m.jobs, updates);
        },
        CommandView::UpdateJobStatus { update } => {
            assert(after.jobs.dom() =~= m.jobs.dom());
        },
        CommandView::AssignJob { job_id, worker_id } => {
            assert(after.jobs.dom() =~= m.jobs.dom());
            assert(after.workers.dom() =~= m.workers.dom());
        },
        CommandView::CancelJob { job_id } => {
            assert(after.jobs.dom() =~= m.jobs.dom());
        },
        _ => {},
    }
}

// ---------------------------------------------------------------------------
// Assignments
// ---------------------------------------------------------------------------

/// Every assignment made in a turn is of a job that waited, to a worker heard of within the
/// timeout; after the turn the job runs there. No job is assigned twice.
pub proof fn turns_assign_waiting_jobs(
    m: Machine,
    choices: Seq<(JobId, u64)>,
    now: Moment,
    timeout_ms: u64,
    i: int,
)
    requires
        node::right_assignments(m, choices, now, timeout_ms),
        0 <= i < choices.len(),
        forall|id: u64| #[trigger] m.workers.contains_key(id) ==> m.workers[id].last_heartbeat
            <= now,
    ensures
        ({
            let (job_id, worker) = choices[i];
            let after = node::assigned(m, choices);
            &&& m.jobs.contains_key(job_id) && m.jobs[job_id].status is Pending
            &&& m.workers.contains_key(worker)
            &&& now - m.workers[worker].last_heartbeat < timeout_ms * 1_000_000
            &&& after.jobs[job_id].status is Running
            &&& after.jobs[job_id].assigned_worker == Some(worker)
            &&& after.workers[worker].running_jobs.contains(job_id)
            &&& forall|k: int| 0 <= k < choices.len() && k != i ==> (#[trigger] choices[k]).0
                != job_id
        }),
{
    let (job_id, worker) = choices[i];
    let before = node::assigned(m, choices.take(i));
    assigned_prefix(m, choices, now, timeout_ms, i);
    assigned_prefix(m, choices, now, timeout_ms, choices.len() as int);
    assert(choices.take(choices.len() as int) =~= choices);
    assert(in_effect(node::assigned(m, choices), choices[i]));
    assert(assigner::right_assignment(choices[i], before.workers, now, timeout_ms, before.jobs));
    assert(before.workers.dom().contains(worker));
    assert(m.workers.contains_key(worker));
    assert(same_or_started(m, before, job_id));
    assert forall|k: int| 0 <= k < choices.len() && k != i implies (#[trigger] choices[k]).0
        != job_id by {
        let (earlier, later) = if k < i {
            (k, i)
        } else {
            (i, k)
        };
        assigned_prefix(m, choices, now, timeout_ms, later);
        let then = node::assigned(m, choices.take(later));
        assert(assigner::right_assignment(
            choices[later],
            then.workers,
            now,
            timeout_ms,
            then.jobs,
        ));
        assert(in_effect(then, choices[earlier]));
    }
}

/// The job of an assignment runs on its worker, which counts it among its jobs.
spec fn in_effect(after: Machine, choice: (JobId, u64)) -> bool {
    &&& after.jobs.contains_key(choice.0)
    &&& after.jobs[choice.0].status is Running
    &&& after.jobs[choice.0].assigned_worker == Some(choice.1)
    &&& after.workers.contains_key(choice.1)
    &&& after.workers[choice.1].running_jobs.contains(choice.0)
}

/// The job is as it was, or it waited and runs now.
spec fn same_or_started(before: Machine, after: Machine, id: JobId) -> bool {
    after.jobs[id] == before.jobs[id] || before.jobs[id].status is Pending && after.jobs[id].status
        is Running
}

/// Jobs and workers are those that there were, the workers heard of when they were, and each job
/// is as it was or was started.
spec fn only_started(before: Machine, after: Machine) -> bool {
    &&& after.jobs.dom() == before.jobs.dom()
    &&& after.workers.dom() == before.workers.dom()
    &&& forall|id: u64| #[trigger]
        before.workers.contains_key(id) ==> after.workers[id].last_heartbeat
            == before.workers[id].last_heartbeat
    &&& forall|id: JobId|
        before.jobs.contains_key(id) ==> #[trigger] same_or_started(before, after, id)
}

/// One assignment takes effect, and leaves those before it in effect.
proof fn assigned_once(m: Machine, front: Machine, after: Machine, choice: (JobId, u64))
    requires
        only_started(m, front),
        front.jobs.contains_key(choice.0),
        front.jobs[choice.0].status is Pending,
        front.workers.contains_key(choice.1),
        after == (Machine {
            jobs: front.jobs.insert(choice.0, queue::assigned_to(front.jobs[choice.0], choice.1)),
            workers: assigner::after_assignment(front.workers, choice.1, choice.0),
        }),
    ensures
        only_started(m, after),
        in_effect(after, choice),
        forall|earlier: (JobId, u64)| #[trigger]
            in_effect(front, earlier) ==> in_effect(after, earlier),
{
    assert(after.jobs.dom() =~= front.jobs.dom());
    assert(after.workers.dom() =~= front.workers.dom());
    assert(same_or_started(m, front, choice.0));
    assert forall|id: JobId| m.jobs.contains_key(id) implies #[trigger] same_or_started(
        m,
        after,
        id,
    ) by {
        assert(same_or_started(m, front, id));
    }
}

/// What the first `n` assignments of a turn come to: each is in effect, and all else is as it was.
#[verifier::spinoff_prover]
proof fn assigned_prefix(
    m: Machine,
    choices: Seq<(JobId, u64)>,
    now: Moment,
    timeout_ms: u64,
    n: int,
)
    requires
        node::right_assignments(m, choices, now, timeout_ms),
        0 <= n <= choices.len(),
    ensures
        only_started(m, node::assigned(m, choices.take(n))),
        forall|k: int|
            0 <= k < n ==> in_effect(node::assigned(m, choices.take(n)), #[trigger] choices[k]),
    decreases n,
{
    let after = node::assigned(m, choices.take(n));
    if n > 0 {
        assigned_prefix(m, choices, now, timeout_ms, n - 1);
        let front = node::assigned(m, choices.take(n - 1));
        assert(choices.take(n).drop_last() =~= choices.take(n - 1));
        assert(choices.take(n).last() == choices[n - 1]);
        assert(assigner::right_assignment(
            choices[n - 1],
            front.workers,
            now,
            timeout_ms,
            front.jobs,
        ));
        assert(front.workers.dom().contains(choices[n - 1].1));
        assigned_once(m, front, after, choices[n - 1]);
        assert forall|k: int| 0 <= k < n implies in_effect(after, #[trigger] choices[k]) by {
            if k < n - 1 {
                assert(in_effect(front, choices[k]));
            }
        }
    } else {
        assert(choices.take(0) =~= Seq::<(JobId, u64)>::empty());
        assert(after == m);
        assert forall|id: JobId| m.jobs.contains_key(id) implies #[trigger] same_or_started(
            m,
            after,
            id,
        ) by {}
    }
}

/// A turn goes on until no job waits or no worker has been heard of within the timeout.
pub proof fn turns_leave_nothing_to_assign(
    m: Machine,
    now: Moment,
    timeout_ms: u64,
    id: JobId,
    worker: u64,
)
    requires
        !assigner::assignable(m.workers, now, timeout_ms, m.jobs),
        m.jobs.contains_key(id),
        m.workers.contains_key(worker),
        m.workers[worker].last_heartbeat <= now,
    ensures
        !(m.jobs[id].status is Pending) || now - m.workers[worker].last_heartbeat >= timeout_ms
            * 1_000_000,
{
    if m.jobs[id].status is Pending && now - m.workers[worker].last_heartbeat < timeout_ms
        * 1_000_000 {
        assert(assigner::alive_workers(m.workers, now, timeout_ms).contains(worker));
        assert(m.jobs.contains_key(id) && m.jobs[id].status is Pending);
    }
}

// ---------------------------------------------------------------------------
// What snapshots keep
// ---------------------------------------------------------------------------

/// A job comes back from a snapshot as it was, but for what it printed.
pub proof fn snapshots_keep_jobs_as_they_are(job: JobView)
    ensures
        ({
            let back = node::job_of_snapshot(node::job_in_snapshot(job));
            &&& as_submitted(back, job)
            &&& back.status == job.status
            &&& back.executed_by == job.executed_by
            &&& back.exit_code == job.exit_code
            &&& back.completed_at == job.completed_at
            &&& back.output is None
            &&& back.error is None
            &&& back == node::without_output(job)
        }),
        node::job_in_snapshot(job).id == job.id,
{
}

/// A worker that a snapshot lists is known after the restore, heard of when it was restored, and
/// runs exactly the jobs of the snapshot that run on it. No other worker is known.
pub proof fn snapshots_keep_workers(
    snapshot: SnapshotView,
    capacity: usize,
    now: Moment,
    worker: u64,
)
    ensures
        ({
            let back = node::restored(snapshot, capacity, now).workers;
            &&& back.contains_key(worker) <==> snapshot.workers.contains(worker)
            &&& back.contains_key(worker) ==> {
                &&& back[worker].last_heartbeat == now
                &&& forall|id: JobId| #[trigger]
                    back[worker].running_jobs.contains(id) <==> exists|i: int|
                        {
                            &&& 0 <= i < snapshot.jobs.len()
                            &&& (#[trigger] snapshot.jobs[i]).id == id
                            &&& snapshot.jobs[i].status is Running
                            &&& snapshot.jobs[i].assigned_worker == Some(worker)
                        }
            }
        }),
{
    listed_workers(snapshot.workers, now, worker);
    counted_jobs(node::restored_workers(snapshot.workers, now), snapshot.jobs, worker);
}

proof fn listed_workers(workers: Seq<u64>, now: Moment, worker: u64)
    ensures
        ({
            let back = node::restored_workers(workers, now);
            &&& back.contains_key(worker) <==> workers.contains(worker)
            &&& back.contains_key(worker) ==> back[worker].last_heartbeat == now
                && back[worker].running_jobs == Set::<JobId>::empty()
        }),
    decreases workers.len(),
{
    if workers.len() > 0 {
        listed_workers(workers.drop_last(), now, worker);
        assert(workers =~= workers.drop_last().push(workers.last()));
        lemmas::push_contains(workers.drop_last(), workers.last());
    }
}

proof fn counted_jobs(
    workers: Map<u64, assigner::WorkerView>,
    jobs: Seq<SnapshotJobView>,
    worker: u64,
)
    ensures
        ({
            let back = node::with_running_jobs(workers, jobs);
            &&& back.contains_key(worker) <==> workers.contains_key(worker)
            &&& back.contains_key(worker) ==> {
                &&& back[worker].last_heartbeat == workers[worker].last_heartbeat
                &&& forall|id: JobId| #[trigger]
                    back[worker].running_jobs.contains(id)
                        <==> workers[worker].running_jobs.contains(id) || exists|i: int|
                        {
                            &&& 0 <= i < jobs.len()
                            &&& (#[trigger] jobs[i]).id == id
                            &&& jobs[i].status is Running
                            &&& jobs[i].assigned_worker == Some(worker)
                        }
            }
        }),
    decreases jobs.len(),
{
    if jobs.len() > 0 {
        let front = jobs.drop_last();
        counted_jobs(workers, front, worker);
        let last = jobs.last();
        let before = node::with_running_jobs(workers, front);
        let back = node::with_running_jobs(workers, jobs);
        if back.contains_key(worker) {
            assert forall|id: JobId| #[trigger] back[worker].running_jobs.contains(id)
                <==> workers[worker].running_jobs.contains(id) || exists|i: int|
                {
                    &&& 0 <= i < jobs.len()
                    &&& (#[trigger] jobs[i]).id == id
                    &&& jobs[i].status is Running
                    &&& jobs[i].assigned_worker == Some(worker)
                } by {
                let in_front = exists|i: int|
                    {
                        &&& 0 <= i < front.len()
                        &&& (#[trigger] front[i]).id == id
                        &&& front[i].status is Running
                        &&& front[i].assigned_worker == Some(worker)
                    };
                assert(before[worker].running_jobs.contains(id)
                    <==> workers[worker].running_jobs.contains(id) || in_front);
                if in_front {
                    let i = choose|i: int|
                        {
                            &&& 0 <= i < front.len()
                            &&& (#[trigger] front[i]).id == id
                            &&& front[i].status is Running
                            &&& front[i].assigned_worker == Some(worker)
                        };
                    assert(jobs[i] == front[i]);
                }
                if exists|i: int|
                    {
                        &&& 0 <= i < jobs.len()
                        &&& (#[trigger] jobs[i]).id == id
                        &&& jobs[i].status is Running
                        &&& jobs[i].assigned_worker == Some(worker)
                    } {
                    let i = choose|i: int|
                        {
                            &&& 0 <= i < jobs.len()
                            &&& (#[trigger] jobs[i]).id == id
                            &&& jobs[i].status is Running
                            &&& jobs[i].assigned_worker == Some(worker)
                        };
                    if i < front.len() {
                        assert(front[i] == jobs[i]);
                    }
                }
                assert(jobs[jobs.len() - 1] == last);
            }
        }
    }
}

/// After a restore, entries are applied from behind the snapshot on, and only then.
pub proof fn restores_apply_what_follows(s: StateView, snapshot: Snapshot)
    ensures
        node::rewound(s, Some(snapshot)).last_applied == snapshot.last_included_index,
        node::rewound(s, Some(snapshot)).log == s.log,
        node::rewound(s, Some(snapshot)).commit_index == s.commit_index,
        node::rewound(s, None) == s,
{
}

/// The assigner is woken by a turn exactly when one of the entries submits a job or registers a
/// worker.
pub proof fn turns_wake_the_assigner_for_news(entries: Seq<EntryView>)
    ensures
        node::some_wakes_assigner(entries) <==> exists|i: int|
            0 <= i < entries.len() && ((#[trigger] entries[i]).command is SubmitJob
                || entries[i].command is RegisterWorker),
{
    if exists|i: int|
        0 <= i < entries.len() && ((#[trigger] entries[i]).command is SubmitJob
            || entries[i].command is RegisterWorker) {
        let i = choose|i: int|
            0 <= i < entries.len() && ((#[trigger] entries[i]).command is SubmitJob
                || entries[i].command is RegisterWorker);
        assert(node::wakes_assigner(entries[i].command));
    }
}

/// A worker is given each of its jobs that run, once, with the command and image of the job, and
/// no other.
pub proof fn workers_are_given_their_running_jobs(
    listed: Seq<JobToRun>,
    m: Machine,
    node_id: u64,
    id: JobId,
)
    requires
        node::lists_jobs_to_run(listed, m, node_id),
        m.workers.contains_key(node_id),
    ensures
        m.workers[node_id].running_jobs.contains(id) && m.jobs.contains_key(id) && m.jobs[id].status
            is Running <==> exists|i: int|
            0 <= i < listed.len() && (#[trigger] listed[i]).job_id == id,
        forall|i: int|
            0 <= i < listed.len() ==> (#[trigger] listed[i]).command@
                == m.jobs[listed[i].job_id].command,
        forall|i: int|
            0 <= i < listed.len() ==> match (#[trigger] listed[i]).image {
                Some(image) => m.jobs[listed[i].job_id].image == Some(image@),
                None => m.jobs[listed[i].job_id].image is None,
            },
        forall|i: int, j: int|
            0 <= i < listed.len() && 0 <= j < listed.len() && i != j ==> (
            #[trigger] listed[i]).job_id != (#[trigger] listed[j]).job_id,
{
    if m.workers[node_id].running_jobs.contains(id) && m.jobs.contains_key(id) && m.jobs[id].status
        is Running {
        assert(node::runs_on(m, node_id, id));
    }
}

/// Updates of one job travel as one update, and those of several together.
pub proof fn updates_travel_together(updates: Seq<JobStatusUpdate>)
    ensures
        updates.len() == 1 ==> (node::update_command_view(updates)
            matches CommandView::UpdateJobStatus { update } && update == updates[0]),
        updates.len() != 1 ==> (node::update_command_view(updates)
            matches CommandView::BatchUpdateJobStatus { updates: all } && all == updates),
{
}

} // verus!
