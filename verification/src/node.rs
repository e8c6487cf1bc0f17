use crate::clock::{Moment, Timestamp};
use crate::config::NodeConfig;
use crate::ids::JobId;
use crate::raft::node;
use crate::raft::rpc;
use crate::raft::state;
use crate::raft::state::{
    Command, CommandView, EntryView, JobStatusUpdate, LogEntry, Snapshot, SnapshotJob,
    SnapshotJobView, SnapshotView,
};
use crate::raft::RaftNode;
use crate::scheduler::assigner;
use crate::scheduler::assigner::{JobAssigner, WorkerView};
use crate::scheduler::job;
use crate::scheduler::job::{Job, JobStatus, JobView};
use crate::scheduler::listing;
use crate::scheduler::queue;
use crate::scheduler::queue::JobQueue;
use crate::text;
use crate::worker::executor::{ExecutionResult, JobExecutor, ResultView};
use vstd::prelude::*;

verus! {

/// Milliseconds without a sign of life after which a worker counts as dead.
pub const WORKER_TIMEOUT_MS: u64 = 5000;

// ---------------------------------------------------------------------------
// Applying commands
// ---------------------------------------------------------------------------

/// What the commands act on: the jobs and the workers.
#[verifier::ext_equal]
pub struct Machine {
    pub jobs: Map<JobId, JobView>,
    pub workers: Map<u64, WorkerView>,
}

/// The jobs after an update of one job's metadata.
pub open spec fn update_jobs(jobs: Map<JobId, JobView>, u: JobStatusUpdate) -> Map<JobId, JobView> {
    queue::updated(
        jobs,
        u.job_id,
        queue::with_metadata(
            jobs[u.job_id],
            u.status,
            u.executed_by,
            u.exit_code,
            u.completed_at,
        ),
    )
}

/// The jobs after updates, one after the other.
pub open spec fn update_all_jobs(jobs: Map<JobId, JobView>, updates: Seq<JobStatusUpdate>) -> Map<
    JobId,
    JobView,
>
    decreases updates.len(),
{
    if updates.len() == 0 {
        jobs
    } else {
        update_jobs(update_all_jobs(jobs, updates.drop_last()), updates.last())
    }
}

/// The jobs after a submission: a job that is known already, and one that finds the queue full,
/// changes nothing.
pub open spec fn submit(
    jobs: Map<JobId, JobView>,
    capacity: usize,
    id: JobId,
    command: Seq<char>,
    image: Option<Seq<char>>,
    created_at: Timestamp,
) -> Map<JobId, JobView> {
    if jobs.contains_key(id) || jobs.len() >= capacity {
        jobs
    } else {
        jobs.insert(id, job::fresh_job(id, command, image, created_at))
    }
}

/// Jobs and workers after a command, in a queue of this capacity. Only the moment at which a
/// worker is registered, `now`, does not come from the command.
pub open spec fn apply(m: Machine, capacity: usize, command: CommandView, now: Moment) -> Machine {
    match command {
        CommandView::SubmitJob { job_id, command, image, created_at } => Machine {
            jobs: submit(m.jobs, capacity, job_id, command, image, created_at),
            ..m
        },
        CommandView::UpdateJobStatus { update } => Machine {
            jobs: update_jobs(m.jobs, update),
            ..m
        },
        CommandView::BatchUpdateJobStatus { updates } => Machine {
            jobs: update_all_jobs(m.jobs, updates),
            ..m
        },
        CommandView::AssignJob { job_id, worker_id } => Machine {
            jobs: queue::updated(
                m.jobs,
                job_id,
                queue::assigned_to(m.jobs[job_id], worker_id),
            ),
            workers: assigner::after_assignment(m.workers, worker_id, job_id),
        },
        CommandView::CancelJob { job_id } => Machine {
            jobs: queue::after_cancel(m.jobs, job_id),
            ..m
        },
        CommandView::RegisterWorker { worker_id } => Machine {
            workers: m.workers.insert(worker_id, assigner::fresh_worker(now)),
            ..m
        },
        CommandView::Noop => m,
    }
}

/// Jobs and workers after log entries, one after the other.
pub open spec fn apply_all(
    m: Machine,
    capacity: usize,
    entries: Seq<EntryView>,
    now: Moment,
) -> Machine
    decreases entries.len(),
{
    if entries.len() == 0 {
        m
    } else {
        apply(
            apply_all(m, capacity, entries.drop_last(), now),
            capacity,
            entries.last().command,
            now,
        )
    }
}

/// The command brings a new job or a new worker, so that there may be something to assign.
pub open spec fn wakes_assigner(command: CommandView) -> bool {
    command is SubmitJob || command is RegisterWorker
}

/// One of the entries brings a new job or a new worker.
pub open spec fn some_wakes_assigner(entries: Seq<EntryView>) -> bool {
    exists|i: int| 0 <= i < entries.len() && wakes_assigner((#[trigger] entries[i]).command)
}

/// Applies an update of one job's metadata.
fn apply_update(queue: &mut JobQueue, u: &JobStatusUpdate)
    requires
        old(queue).wf(),
        rpc::update_wf(*u),
    ensures
        final(queue).wf(),
        final(queue).capacity() == old(queue).capacity(),
        final(queue)@ == update_jobs(old(queue)@, *u),
{
    queue.update_status_metadata(&u.job_id, u.status, u.executed_by, u.exit_code, u.completed_at);
}

/// Applies a command to jobs and workers. Tells whether there may be something to assign.
pub fn apply_command(
    queue: &mut JobQueue,
    assigner: &mut JobAssigner,
    command: &Command,
    now: Moment,
) -> (r: bool)
    requires
        old(queue).wf(),
        old(assigner).wf(),
        rpc::command_wf(command@),
    ensures
        final(queue).wf(),
        final(assigner).wf(),
        final(queue).capacity() == old(queue).capacity(),
        final(assigner).timeout_ms() == old(assigner).timeout_ms(),
        (Machine { jobs: final(queue)@, workers: final(assigner)@ }) == apply(
            Machine { jobs: old(queue)@, workers: old(assigner)@ },
            old(queue).capacity(),
            command@,
            now,
        ),
        r == wakes_assigner(command@),
{
    match command {
        Command::SubmitJob { job_id, command, image, created_at } => {
            if queue.get_job(job_id).is_none() {
                queue.add_job(
                    Job::with_id(*job_id, command.clone(), *created_at).with_image(image.clone()),
                );
            }
            true
        },
        Command::UpdateJobStatus { job_id, status, executed_by, exit_code, completed_at } => {
            apply_update(
                queue,
                &JobStatusUpdate {
                    job_id: *job_id,
                    status: *status,
                    executed_by: *executed_by,
                    exit_code: *exit_code,
                    completed_at: *completed_at,
                },
            );
            false
        },
        Command::BatchUpdateJobStatus { updates } => {
            for i in 0..updates.len()
                invariant
                    queue.wf(),
                    queue.capacity() == old(queue).capacity(),
                    queue@ == update_all_jobs(old(queue)@, updates@.take(i as int)),
                    rpc::updates_wf(updates@),
            {
                assert(updates@.take(i + 1).drop_last() =~= updates@.take(i as int));
                apply_update(queue, &updates[i]);
            }
            assert(updates@.take(updates@.len() as int) =~= updates@);
            false
        },
        Command::AssignJob { job_id, worker_id } => {
            queue.assign_job(job_id, *worker_id);
            assigner.job_assigned(*worker_id, job_id);
            false
        },
        Command::CancelJob { job_id } => {
            queue.cancel_job(job_id);
            false
        },
        Command::RegisterWorker { worker_id } => {
            assigner.register_worker_at(*worker_id, now);
            true
        },
        Command::Noop => false,
    }
}

/// Applies committed entries to jobs and workers, in order. Tells whether there may be something
/// to assign.
pub fn apply_entries(
    queue: &mut JobQueue,
    assigner: &mut JobAssigner,
    entries: &Vec<LogEntry>,
    now: Moment,
) -> (r: bool)
    requires
        old(queue).wf(),
        old(assigner).wf(),
        rpc::entries_wf(state::entries_view(entries@)),
    ensures
        final(queue).wf(),
        final(assigner).wf(),
        final(queue).capacity() == old(queue).capacity(),
        final(assigner).timeout_ms() == old(assigner).timeout_ms(),
        (Machine { jobs: final(queue)@, workers: final(assigner)@ }) == apply_all(
            Machine { jobs: old(queue)@, workers: old(assigner)@ },
            old(queue).capacity(),
            state::entries_view(entries@),
            now,
        ),
        r == some_wakes_assigner(state::entries_view(entries@)),
{
    let ghost all = state::entries_view(entries@);
    let ghost m = Machine { jobs: queue@, workers: assigner@ };
    let mut wake = false;
    for i in 0..entries.len()
        invariant
            all == state::entries_view(entries@),
            m == (Machine { jobs: old(queue)@, workers: old(assigner)@ }),
            rpc::entries_wf(all),
            queue.wf(),
            assigner.wf(),
            queue.capacity() == old(queue).capacity(),
            assigner.timeout_ms() == old(assigner).timeout_ms(),
            (Machine { jobs: queue@, workers: assigner@ }) == apply_all(
                m,
                old(queue).capacity(),
                all.take(i as int),
                now,
            ),
            wake == (exists|k: int| 0 <= k < i && wakes_assigner((#[trigger] all[k]).command)),
    {
        assert(all[i as int] == entries@[i as int]@);
        assert(all.take(i + 1).drop_last() =~= all.take(i as int));
        assert(all.take(i + 1).last() == entries@[i as int]@);
        let wakes = apply_command(queue, assigner, &entries[i].command, now);
        if wakes {
            wake = true;
        }
    }
    assert(all.take(all.len() as int) =~= all);
    wake
}

// ---------------------------------------------------------------------------
// Assigning jobs
// ---------------------------------------------------------------------------

/// Jobs and workers after assignments, one after the other.
pub open spec fn assigned(m: Machine, choices: Seq<(JobId, u64)>) -> Machine
    decreases choices.len(),
{
    if choices.len() == 0 {
        m
    } else {
        let front = assigned(m, choices.drop_last());
        let (job_id, worker_id) = choices.last();
        Machine {
            jobs: front.jobs.insert(job_id, queue::assigned_to(front.jobs[job_id], worker_id)),
            workers: assigner::after_assignment(front.workers, worker_id, job_id),
        }
    }
}

/// Each assignment was right at its turn.
pub open spec fn right_assignments(
    m: Machine,
    choices: Seq<(JobId, u64)>,
    now: Moment,
    timeout_ms: u64,
) -> bool {
    forall|i: int|
        0 <= i < choices.len() ==> assigner::right_assignment(
            #[trigger] choices[i],
            assigned(m, choices.take(i)).workers,
            now,
            timeout_ms,
            assigned(m, choices.take(i)).jobs,
        )
}

/// Assigning a job that waits leaves fewer jobs that wait.
proof fn fewer_pending(jobs: Map<JobId, JobView>, id: JobId, worker_id: u64)
    requires
        jobs.dom().finite(),
        jobs.contains_key(id),
        jobs[id].status is Pending,
    ensures
        queue::count_jobs(
            jobs.insert(id, queue::assigned_to(jobs[id], worker_id)),
            queue::pending(),
        ) < queue::count_jobs(jobs, queue::pending()),
{
    let after = jobs.insert(id, queue::assigned_to(jobs[id], worker_id));
    let waiting = jobs.dom().filter(|i: JobId| queue::pending()(jobs[i]));
    let still = after.dom().filter(|i: JobId| queue::pending()(after[i]));
    assert(after.dom() =~= jobs.dom());
    assert(still =~= waiting.remove(id));
    assert(waiting.contains(id));
}

/// Assigns jobs that wait to workers alive at `now`, each to the least loaded one, until no job
/// waits or no worker is alive. Returns the assignments in their order.
pub fn assign_pending(queue: &mut JobQueue, assigner: &mut JobAssigner, now: Moment) -> (r: Vec<
    (JobId, u64),
>)
    requires
        old(queue).wf(),
        old(assigner).wf(),
    ensures
        final(queue).wf(),
        final(assigner).wf(),
        final(queue).capacity() == old(queue).capacity(),
        final(assigner).timeout_ms() == old(assigner).timeout_ms(),
        (Machine { jobs: final(queue)@, workers: final(assigner)@ }) == assigned(
            Machine { jobs: old(queue)@, workers: old(assigner)@ },
            r@,
        ),
        right_assignments(
            Machine { jobs: old(queue)@, workers: old(assigner)@ },
            r@,
            now,
            old(assigner).timeout_ms(),
        ),
        !assigner::assignable(
            final(assigner)@,
            now,
            old(assigner).timeout_ms(),
            final(queue)@,
        ),
{
    let ghost m = Machine { jobs: queue@, workers: assigner@ };
    let mut made: Vec<(JobId, u64)> = Vec::new();
    let mut going = true;
    while going
        invariant
            m == (Machine { jobs: old(queue)@, workers: old(assigner)@ }),
            queue.wf(),
            assigner.wf(),
            queue.capacity() == old(queue).capacity(),
            assigner.timeout_ms() == old(assigner).timeout_ms(),
            (Machine { jobs: queue@, workers: assigner@ }) == assigned(m, made@),
            right_assignments(m, made@, now, assigner.timeout_ms()),
            !going ==> !assigner::assignable(assigner@, now, assigner.timeout_ms(), queue@),
        decreases
            queue::count_jobs(queue@, queue::pending()),
            if going {
                1nat
            } else {
                0nat
            },
    {
        let ghost before = made@;
        let ghost jobs = queue@;
        match assigner.assign_next_job_at(queue, now) {
            Some((job_id, worker_id)) => {
                proof {
                    fewer_pending(jobs, job_id, worker_id);
                }
                made.push((job_id, worker_id));
                assert(made@.drop_last() =~= before);
                assert forall|i: int| 0 <= i < made@.len() implies assigner::right_assignment(
                    #[trigger] made@[i],
                    assigned(m, made@.take(i)).workers,
                    now,
                    assigner.timeout_ms(),
                    assigned(m, made@.take(i)).jobs,
                ) by {
                    assert(made@.take(i) =~= before.take(i));
                    if i == before.len() {
                        assert(before.take(i) =~= before);
                    } else {
                        assert(made@[i] == before[i]);
                    }
                }
            },
            None => {
                going = false;
            },
        }
    }
    made
}

// ---------------------------------------------------------------------------
// Running jobs
// ---------------------------------------------------------------------------

/// A job to run: its command, and its image if it has its own.
#[derive(Debug)]
pub struct JobToRun {
    pub job_id: JobId,
    pub command: String,
    pub image: Option<String>,
}

/// The job is to be run by the worker: it is among the worker's jobs and has not ended.
pub open spec fn runs_on(m: Machine, node_id: u64, id: JobId) -> bool {
    &&& m.workers.contains_key(node_id)
    &&& m.workers[node_id].running_jobs.contains(id)
    &&& m.jobs.contains_key(id)
    &&& m.jobs[id].status is Running
}

/// `listed` holds exactly the jobs that the worker is to run, each once.
pub open spec fn lists_jobs_to_run(listed: Seq<JobToRun>, m: Machine, node_id: u64) -> bool {
    &&& forall|i: int|
        0 <= i < listed.len() ==> runs_on(m, node_id, (#[trigger] listed[i]).job_id)
            && listed[i].command@ == m.jobs[listed[i].job_id].command && text::opt_text(
            listed[i].image,
        ) == m.jobs[listed[i].job_id].image
    &&& forall|i: int, j: int|
        0 <= i < j < listed.len() ==> (#[trigger] listed[i]).job_id != (
        #[trigger] listed[j]).job_id
    &&& forall|id: JobId| #[trigger]
        runs_on(m, node_id, id) ==> exists|i: int|
            0 <= i < listed.len() && (#[trigger] listed[i]).job_id == id
}

/// The jobs that a worker is to run, in no particular order.
pub fn jobs_to_run(queue: &JobQueue, assigner: &JobAssigner, node_id: u64) -> (r: Vec<JobToRun>)
    requires
        queue.wf(),
        assigner.wf(),
    ensures
        lists_jobs_to_run(r@, Machine { jobs: queue@, workers: assigner@ }, node_id),
{
    let ids = assigner.running_jobs_of(node_id);
    let ghost m = Machine { jobs: queue@, workers: assigner@ };
    let mut jobs: Vec<JobToRun> = Vec::new();
    let ghost mut places: Seq<int> = Seq::empty();
    for i in 0..ids.len()
        invariant
            queue.wf(),
            m == (Machine { jobs: queue@, workers: assigner@ }),
            ids@.no_duplicates(),
            ids@.to_set() == (if m.workers.contains_key(node_id) {
                m.workers[node_id].running_jobs
            } else {
                Set::empty()
            }),
            places.len() == jobs@.len(),
            forall|k: int| 0 <= k < places.len() ==> 0 <= #[trigger] places[k] < i,
            forall|k: int, l: int|
                0 <= k < l < places.len() ==> #[trigger] places[k] < #[trigger] places[l],
            forall|k: int|
                0 <= k < jobs@.len() ==> (#[trigger] jobs@[k]).job_id == ids@[places[k]] && runs_on(
                    m,
                    node_id,
                    jobs@[k].job_id,
                ) && jobs@[k].command@ == m.jobs[jobs@[k].job_id].command && text::opt_text(
                    jobs@[k].image,
                ) == m.jobs[jobs@[k].job_id].image,
            forall|l: int|
                0 <= l < i && runs_on(m, node_id, #[trigger] ids@[l]) ==> exists|k: int|
                    0 <= k < jobs@.len() && (#[trigger] jobs@[k]).job_id == ids@[l],
    {
        let ghost before = jobs@;
        assert(ids@.to_set().contains(ids@[i as int]));
        if let Some(job) = queue.get_job(&ids[i]) {
            if job.status == JobStatus::Running {
                assert(runs_on(m, node_id, ids@[i as int]));
                jobs.push(
                    JobToRun {
                        job_id: ids[i],
                        command: job.command.clone(),
                        image: job.image.clone(),
                    },
                );
                proof {
                    places = places.push(i as int);
                    assert(jobs@[before.len() as int].job_id == ids@[i as int]);
                    assert forall|l: int|
                        0 <= l < i + 1 && runs_on(m, node_id, #[trigger] ids@[l]) implies exists|
                        k: int,
                    |
                        0 <= k < jobs@.len() && (#[trigger] jobs@[k]).job_id == ids@[l] by {
                        if l < i {
                            let k = choose|k: int|
                                0 <= k < before.len() && (#[trigger] before[k]).job_id == ids@[l];
                            assert(jobs@[k].job_id == ids@[l]);
                        }
                    }
                }
            }
        }
    }
    proof {
        assert forall|id: JobId| #[trigger] runs_on(m, node_id, id) implies exists|i: int|
            0 <= i < jobs@.len() && (#[trigger] jobs@[i]).job_id == id by {
            assert(ids@.to_set().contains(id));
            let l = choose|l: int| 0 <= l < ids@.len() && ids@[l] == id;
            assert(runs_on(m, node_id, ids@[l]));
        }
    }
    jobs
}

/// The metadata of a finished execution.
pub open spec fn update_of_result(
    result: ResultView,
    node_id: u64,
    completed_at: Timestamp,
) -> JobStatusUpdate {
    JobStatusUpdate {
        job_id: result.job_id,
        status: result.status,
        executed_by: node_id,
        exit_code: result.exit_code,
        completed_at: Some(completed_at),
    }
}

/// Jobs and workers of a node after it finished a job: the full result is kept here, and the
/// worker no longer runs the job.
pub open spec fn after_result(
    m: Machine,
    result: ResultView,
    node_id: u64,
    completed_at: Timestamp,
) -> Machine {
    Machine {
        jobs: queue::updated(
            m.jobs,
            result.job_id,
            queue::with_result(
                m.jobs[result.job_id],
                result.status,
                node_id,
                result.exit_code,
                result.output,
                result.error,
                completed_at,
            ),
        ),
        workers: assigner::after_completion(m.workers, node_id, result.job_id),
    }
}

/// Records the result of a job on the node that ran it. Returns the metadata that is to be
/// replicated; the output stays here.
pub fn finish_job(
    queue: &mut JobQueue,
    assigner: &mut JobAssigner,
    node_id: u64,
    result: ExecutionResult,
    completed_at: Timestamp,
) -> (r: JobStatusUpdate)
    requires
        old(queue).wf(),
        old(assigner).wf(),
        completed_at.wf(),
    ensures
        final(queue).wf(),
        final(assigner).wf(),
        final(queue).capacity() == old(queue).capacity(),
        final(assigner).timeout_ms() == old(assigner).timeout_ms(),
        (Machine { jobs: final(queue)@, workers: final(assigner)@ }) == after_result(
            Machine { jobs: old(queue)@, workers: old(assigner)@ },
            result@,
            node_id,
            completed_at,
        ),
        r == update_of_result(result@, node_id, completed_at),
{
    let update = JobStatusUpdate {
        job_id: result.job_id,
        status: result.status,
        executed_by: node_id,
        exit_code: result.exit_code,
        completed_at: Some(completed_at),
    };
    queue.update_job_result(
        &result.job_id,
        result.status,
        node_id,
        result.exit_code,
        result.output,
        result.error,
        completed_at,
    );
    assigner.job_completed(node_id, &update.job_id);
    update
}

/// The command that replicates updates: one update travels alone, any other number together.
pub fn update_command(updates: Vec<JobStatusUpdate>) -> (r: Command)
    ensures
        r@ == update_command_view(updates@),
{
    if updates.len() == 1 {
        let u = updates[0];
        Command::UpdateJobStatus {
            job_id: u.job_id,
            status: u.status,
            executed_by: u.executed_by,
            exit_code: u.exit_code,
            completed_at: u.completed_at,
        }
    } else {
        Command::BatchUpdateJobStatus { updates }
    }
}

/// The command that replicates updates: one update travels alone, any other number together.
pub open spec fn update_command_view(updates: Seq<JobStatusUpdate>) -> CommandView {
    if updates.len() == 1 {
        CommandView::UpdateJobStatus { update: updates[0] }
    } else {
        CommandView::BatchUpdateJobStatus { updates }
    }
}

// ---------------------------------------------------------------------------
// Snapshots of jobs and workers
// ---------------------------------------------------------------------------

/// What a snapshot keeps of a job: all but what it printed.
pub open spec fn job_in_snapshot(job: JobView) -> SnapshotJobView {
    SnapshotJobView {
        id: job.id,
        command: job.command,
        image: job.image,
        status: job.status,
        assigned_worker: job.assigned_worker,
        executed_by: job.executed_by,
        exit_code: job.exit_code,
        created_at: job.created_at,
        completed_at: job.completed_at,
    }
}

/// The job that a snapshot holds: it has printed nothing here.
pub open spec fn job_of_snapshot(job: SnapshotJobView) -> JobView {
    JobView {
        id: job.id,
        command: job.command,
        image: job.image,
        status: job.status,
        assigned_worker: job.assigned_worker,
        executed_by: job.executed_by,
        exit_code: job.exit_code,
        output: None,
        error: None,
        created_at: job.created_at,
        completed_at: job.completed_at,
    }
}

/// The job without what it printed.
pub open spec fn without_output(job: JobView) -> JobView {
    JobView { output: None, error: None, ..job }
}

/// `listed` holds every job once, as a snapshot keeps it.
pub open spec fn snapshot_of_jobs(listed: Seq<SnapshotJobView>, jobs: Map<JobId, JobView>) -> bool {
    &&& forall|i: int|
        0 <= i < listed.len() ==> jobs.contains_key((#[trigger] listed[i]).id) && listed[i]
            == job_in_snapshot(jobs[listed[i].id])
    &&& forall|i: int, j: int|
        0 <= i < j < listed.len() ==> (#[trigger] listed[i]).id != (#[trigger] listed[j]).id
    &&& forall|id: JobId| #[trigger]
        jobs.contains_key(id) ==> exists|i: int|
            0 <= i < listed.len() && (#[trigger] listed[i]).id == id
}

/// The jobs that a snapshot restores into a queue of this capacity.
pub open spec fn restored_jobs(listed: Seq<SnapshotJobView>, capacity: usize) -> Map<JobId, JobView>
    decreases listed.len(),
{
    if listed.len() == 0 {
        Map::empty()
    } else {
        let front = restored_jobs(listed.drop_last(), capacity);
        if front.len() >= capacity {
            front
        } else {
            front.insert(listed.last().id, job_of_snapshot(listed.last()))
        }
    }
}

/// The workers that a snapshot restores, before their jobs are counted.
pub open spec fn restored_workers(workers: Seq<u64>, now: Moment) -> Map<u64, WorkerView>
    decreases workers.len(),
{
    if workers.len() == 0 {
        Map::empty()
    } else {
        restored_workers(workers.drop_last(), now).insert(
            workers.last(),
            assigner::fresh_worker(now),
        )
    }
}

/// The workers with the jobs that run on them counted.
pub open spec fn with_running_jobs(
    workers: Map<u64, WorkerView>,
    jobs: Seq<SnapshotJobView>,
) -> Map<u64, WorkerView>
    decreases jobs.len(),
{
    if jobs.len() == 0 {
        workers
    } else {
        let front = with_running_jobs(workers, jobs.drop_last());
        let job = jobs.last();
        if job.status is Running && job.assigned_worker is Some {
            assigner::after_assignment(front, job.assigned_worker->0, job.id)
        } else {
            front
        }
    }
}

/// Jobs and workers that a snapshot restores.
pub open spec fn restored(snapshot: SnapshotView, capacity: usize, now: Moment) -> Machine {
    Machine {
        jobs: restored_jobs(snapshot.jobs, capacity),
        workers: with_running_jobs(restored_workers(snapshot.workers, now), snapshot.jobs),
    }
}

/// What a snapshot keeps of a job.
fn snapshot_job(job: &Job) -> (r: SnapshotJob)
    ensures
        r@ == job_in_snapshot(job@),
{
    SnapshotJob {
        id: job.id,
        command: job.command.clone(),
        image: job.image.clone(),
        status: job.status,
        assigned_worker: job.assigned_worker,
        executed_by: job.executed_by,
        exit_code: job.exit_code,
        created_at: job.created_at,
        completed_at: job.completed_at,
    }
}

/// The jobs of a queue for a snapshot, in order of creation.
pub fn snapshot_jobs(queue: &JobQueue) -> (r: Vec<SnapshotJob>)
    requires
        queue.wf(),
    ensures
        snapshot_of_jobs(state::snapshot_jobs_view(r@), queue@),
        state::snapshot_jobs_view(r@) == listing::listing(queue@).map_values(
            |job: JobView| job_in_snapshot(job),
        ),
        forall|i: int| 0 <= i < r@.len() ==> rpc::snapshot_job_wf((#[trigger] r@[i])@),
{
    let all = queue.all_jobs();
    let mut jobs: Vec<SnapshotJob> = Vec::new();
    for i in 0..all.len()
        invariant
            queue.wf(),
            queue::lists_jobs(all@, queue@, queue::any_job()),
            jobs@.len() == i,
            forall|k: int|
                0 <= k < i ==> (#[trigger] jobs@[k])@ == job_in_snapshot(all@[k]@) && all@[k].id
                    == jobs@[k].id && rpc::snapshot_job_wf(jobs@[k]@),
    {
        assert(queue@.contains_key(all@[i as int].id));
        jobs.push(snapshot_job(all[i]));
    }
    proof {
        let listed = state::snapshot_jobs_view(jobs@);
        assert forall|i: int| 0 <= i < listed.len() implies queue@.contains_key(
            (#[trigger] listed[i]).id,
        ) && listed[i] == job_in_snapshot(queue@[listed[i].id]) by {
            assert(listed[i] == jobs@[i]@);
            assert(queue@.contains_key(all@[i].id));
        }
        assert forall|i: int, j: int| 0 <= i < j < listed.len() implies (#[trigger] listed[i]).id
            != (#[trigger] listed[j]).id by {
            assert(listed[i] == jobs@[i]@);
            assert(listed[j] == jobs@[j]@);
            assert(all@[i].id != all@[j].id);
        }
        assert forall|id: JobId| #[trigger] queue@.contains_key(id) implies exists|i: int|
            0 <= i < listed.len() && (#[trigger] listed[i]).id == id by {
            assert(queue::any_job()(queue@[id]));
            let k = choose|k: int| 0 <= k < all@.len() && #[trigger] all@[k].id == id;
            assert(listed[k] == jobs@[k]@);
            assert(listed[k].id == id);
        }
        let views = listing::job_views(all@);
        assert(listed =~= views.map_values(|job: JobView| job_in_snapshot(job)));
    }
    jobs
}

/// The workers of an assigner for a snapshot, in no particular order.
pub fn snapshot_workers(assigner: &JobAssigner) -> (r: Vec<u64>)
    requires
        assigner.wf(),
    ensures
        r@.no_duplicates(),
        r@.to_set() == assigner@.dom(),
{
    let all = assigner.all_workers();
    let mut ids: Vec<u64> = Vec::new();
    for i in 0..all.len()
        invariant
            ids@.len() == i,
            forall|k: int| 0 <= k < i ==> #[trigger] ids@[k] == all@[k].id,
    {
        ids.push(all[i].id);
    }
    proof {
        assert forall|id: u64| ids@.to_set().contains(id) <==> assigner@.dom().contains(id) by {
            if assigner@.contains_key(id) {
                let k = choose|k: int| 0 <= k < all@.len() && (#[trigger] all@[k]).id == id;
                assert(ids@[k] == id);
            }
            if ids@.contains(id) {
                let k = choose|k: int| 0 <= k < ids@.len() && ids@[k] == id;
                assert(assigner@.contains_key(all@[k].id));
            }
        }
        assert(ids@.to_set() =~= assigner@.dom());
    }
    ids
}

/// Rebuilds jobs and workers from a snapshot.
pub fn restore_snapshot(
    queue: &mut JobQueue,
    assigner: &mut JobAssigner,
    snapshot: &Snapshot,
    now: Moment,
)
    requires
        rpc::snapshot_wf(snapshot@),
    ensures
        final(queue).wf(),
        final(assigner).wf(),
        final(queue).capacity() == old(queue).capacity(),
        final(assigner).timeout_ms() == old(assigner).timeout_ms(),
        (Machine { jobs: final(queue)@, workers: final(assigner)@ }) == restored(
            snapshot@,
            old(queue).capacity(),
            now,
        ),
{
    queue.clear();
    assigner.clear();
    let ghost listed = snapshot@.jobs;
    for i in 0..snapshot.workers.len()
        invariant
            assigner.wf(),
            assigner.timeout_ms() == old(assigner).timeout_ms(),
            assigner@ == restored_workers(snapshot.workers@.take(i as int), now),
    {
        assert(snapshot.workers@.take(i + 1).drop_last() =~= snapshot.workers@.take(i as int));
        assigner.register_worker_at(snapshot.workers[i], now);
    }
    assert(snapshot.workers@.take(snapshot.workers@.len() as int) =~= snapshot.workers@);
    let ghost workers = assigner@;
    assert(listed.take(0) =~= Seq::empty());
    for i in 0..snapshot.jobs.len()
        invariant
            rpc::snapshot_wf(snapshot@),
            listed == snapshot@.jobs,
            queue.wf(),
            assigner.wf(),
            queue.capacity() == old(queue).capacity(),
            assigner.timeout_ms() == old(assigner).timeout_ms(),
            queue@ == restored_jobs(listed.take(i as int), old(queue).capacity()),
            assigner@ == with_running_jobs(workers, listed.take(i as int)),
    {
        assert(listed.take(i + 1).drop_last() =~= listed.take(i as int));
        assert(listed.take(i + 1).last() == snapshot.jobs@[i as int]@);
        assert(listed[i as int] == snapshot.jobs@[i as int]@);
        let job = &snapshot.jobs[i];
        queue.add_job(
            Job {
                id: job.id,
                command: job.command.clone(),
                image: job.image.clone(),
                status: job.status,
                assigned_worker: job.assigned_worker,
                executed_by: job.executed_by,
                exit_code: job.exit_code,
                output: None,
                error: None,
                created_at: job.created_at,
                completed_at: job.completed_at,
            },
        );
        if job.status == JobStatus::Running {
            if let Some(worker_id) = job.assigned_worker {
                assigner.job_assigned(worker_id, &job.id);
            }
        }
    }
    assert(listed.take(listed.len() as int) =~= listed);
}

// ---------------------------------------------------------------------------
// The node
// ---------------------------------------------------------------------------

/// A node of the cluster with all its parts.
#[derive(Debug)]
pub struct Node {
    pub config: NodeConfig,
    pub raft_node: RaftNode,
    pub job_queue: JobQueue,
    pub job_assigner: JobAssigner,
    pub executor: JobExecutor,
    /// The node takes no new jobs.
    pub draining: bool,
}

impl Node {
    /// Jobs and workers of this node.
    pub open spec fn machine(&self) -> Machine {
        Machine { jobs: self.job_queue@, workers: self.job_assigner@ }
    }

    /// Invariant of a node: queue and assigner are well-formed, and so are the moments in log and
    /// snapshots.
    pub open spec fn wf(&self) -> bool {
        &&& self.job_queue.wf()
        &&& self.job_assigner.wf()
        &&& node::moments_wf(self.raft_node.state@)
        &&& self.raft_node.pending_snapshot is Some ==> rpc::snapshot_wf(
            self.raft_node.pending_snapshot->0@,
        )
    }

    /// A node that has just started.
    pub fn new(config: NodeConfig) -> (r: Self)
        ensures
            r.wf(),
            r.config == (NodeConfig { peers: r.config.peers, ..config }),
            r.config.peers@ == config.peers@,
            r.raft_node.id == config.node_id,
            r.raft_node.config == config,
            r.raft_node.state@ == state::initial_state(),
            r.raft_node.peers@ == Set::<u64>::empty(),
            r.raft_node.disconnected_peers@ == Set::<u64>::empty(),
            r.raft_node.commit_notified == 0,
            r.raft_node.peer_last_seen@ == Map::<u64, Moment>::empty(),
            r.raft_node.pending_snapshot is None,
            r.raft_node.clock.reads(r.raft_node.last_heartbeat),
            r.machine() == (Machine { jobs: Map::empty(), workers: Map::empty() }),
            r.job_queue.capacity() == queue::DEFAULT_MAX_JOBS,
            r.job_assigner.timeout_ms() == WORKER_TIMEOUT_MS,
            r.executor.sandbox() == config.sandbox,
            !r.draining,
    {
        let own_config = config.clone();
        let sandbox = config.sandbox.clone();
        Node {
            config: own_config,
            raft_node: RaftNode::new(config),
            job_queue: JobQueue::new(),
            job_assigner: JobAssigner::new(WORKER_TIMEOUT_MS),
            executor: JobExecutor::new(sandbox),
            draining: false,
        }
    }

    /// One turn of the scheduler after commits were announced: jobs and workers are rebuilt from
    /// a pending snapshot, then the committed entries are applied. Tells whether there may be
    /// something to assign.
    pub fn apply_committed(&mut self, now: Moment) -> (r: bool)
        requires
            old(self).wf(),
        ensures
            final(self).wf(),
            r == some_wakes_assigner(
                node::unapplied(
                    rewound(old(self).raft_node.state@, old(self).raft_node.pending_snapshot),
                ),
            ),
            final(self).raft_node == (RaftNode {
                state: final(self).raft_node.state,
                pending_snapshot: None,
                ..old(self).raft_node
            }),
            final(self).raft_node.state@ == node::applied_all(
                rewound(old(self).raft_node.state@, old(self).raft_node.pending_snapshot),
            ),
            final(self).machine() == apply_all(
                match old(self).raft_node.pending_snapshot {
                    Some(snapshot) => restored(
                        snapshot@,
                        old(self).job_queue.capacity(),
                        now,
                    ),
                    None => old(self).machine(),
                },
                old(self).job_queue.capacity(),
                node::unapplied(
                    rewound(old(self).raft_node.state@, old(self).raft_node.pending_snapshot),
                ),
                now,
            ),
            final(self).job_queue.capacity() == old(self).job_queue.capacity(),
            final(self).job_assigner.timeout_ms() == old(self).job_assigner.timeout_ms(),
            *final(self) == (Node {
                raft_node: final(self).raft_node,
                job_queue: final(self).job_queue,
                job_assigner: final(self).job_assigner,
                ..*old(self)
            }),
    {
        let pending = self.raft_node.take_pending_snapshot();
        if let Some(snapshot) = pending {
            restore_snapshot(&mut self.job_queue, &mut self.job_assigner, &snapshot, now);
            self.raft_node.state.last_applied = snapshot.last_included_index;
        }
        proof {
            unapplied_wf(self.raft_node.state@);
        }
        let entries = self.raft_node.get_committed_entries();
        apply_entries(&mut self.job_queue, &mut self.job_assigner, &entries, now)
    }

    /// Assigns jobs that wait, on the leader only. Returns the assignments, which are to be
    /// replicated.
    pub fn assign_jobs(&mut self, now: Moment) -> (r: Vec<(JobId, u64)>)
        requires
            old(self).wf(),
        ensures
            final(self).wf(),
            !(old(self).raft_node.state@.role is Leader) ==> r@.len() == 0 && final(self).machine()
                == old(self).machine(),
            old(self).raft_node.state@.role is Leader ==> {
                &&& final(self).machine() == assigned(old(self).machine(), r@)
                &&& right_assignments(
                    old(self).machine(),
                    r@,
                    now,
                    old(self).job_assigner.timeout_ms(),
                )
                &&& !assigner::assignable(
                    final(self).machine().workers,
                    now,
                    old(self).job_assigner.timeout_ms(),
                    final(self).machine().jobs,
                )
            },
            *final(self) == (Node {
                job_queue: final(self).job_queue,
                job_assigner: final(self).job_assigner,
                ..*old(self)
            }),
    {
        if !self.raft_node.is_leader() {
            return Vec::new();
        }
        assign_pending(&mut self.job_queue, &mut self.job_assigner, now)
    }

    /// Compacts the log if it is long: its applied prefix gives way to a snapshot of the jobs and
    /// workers. Tells whether it did.
    pub fn compact_log(&mut self) -> (r: bool)
        requires
            old(self).wf(),
        ensures
            final(self).wf(),
            r == old(self).raft_node.state@.compactable(),
            !r ==> final(self).raft_node.state@ == old(self).raft_node.state@,
            r ==> final(self).raft_node.state@.snapshot is Some && final(self).raft_node.state@
                == old(self).raft_node.state@.compacted(
                final(self).raft_node.state@.snapshot->0.jobs,
                final(self).raft_node.state@.snapshot->0.workers,
            ) && snapshot_of_jobs(
                final(self).raft_node.state@.snapshot->0.jobs,
                old(self).machine().jobs,
            ) && final(self).raft_node.state@.snapshot->0.jobs == listing::listing(
                old(self).machine().jobs,
            ).map_values(|job: JobView| job_in_snapshot(job)) && final(self).raft_node.state@.snapshot->0.workers.to_set()
                == old(self).machine().workers.dom()
                && final(self).raft_node.state@.snapshot->0.workers.no_duplicates(),
            *final(self) == (Node {
                raft_node: RaftNode {
                    state: final(self).raft_node.state,
                    ..old(self).raft_node
                },
                ..*old(self)
            }),
    {
        if !self.raft_node.state.needs_compaction() {
            return false;
        }
        let jobs = snapshot_jobs(&self.job_queue);
        let workers = snapshot_workers(&self.job_assigner);
        let ghost before = self.raft_node.state@;
        self.raft_node.state.compact(jobs, workers);
        proof {
            let log = self.raft_node.state@.log;
            assert forall|i: int| 0 <= i < log.len() implies rpc::command_wf(
                (#[trigger] log[i]).command,
            ) by {
                assert(log[i] == before.log[i + before.last_applied - before.log_offset]);
            }
        }
        true
    }
}

/// The state from which entries are applied again after jobs and workers were rebuilt from a
/// snapshot: those behind the snapshot.
pub open spec fn rewound(s: state::StateView, pending: Option<Snapshot>) -> state::StateView {
    match pending {
        Some(snapshot) => state::StateView { last_applied: snapshot@.last_included_index, ..s },
        None => s,
    }
}

/// The moments in the entries to apply are moments of the calendar.
proof fn unapplied_wf(s: state::StateView)
    requires
        rpc::entries_wf(s.log),
    ensures
        rpc::entries_wf(node::unapplied(s)),
{
    between_wf(s, s.last_applied as int, s.commit_index as int);
}

proof fn between_wf(s: state::StateView, from: int, to: int)
    requires
        rpc::entries_wf(s.log),
    ensures
        rpc::entries_wf(node::entries_between(s, from, to)),
    decreases to - from,
{
    if from < to {
        between_wf(s, from, to - 1);
    }
}

} // verus!
