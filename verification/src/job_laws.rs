//! What holds of the calls by which jobs are submitted, assigned, run and cancelled, and of those
//! by which the dashboard answers and servers and clients are set up.

use crate::cli::jobs::{JobListOutput, ListJobsFilters};
use crate::cli::redirect;
use crate::cli::server;
use crate::cli::server::TlsPlan;
use crate::clock;
use crate::clock::{Moment, Timestamp};
use crate::config::TlsConfig;
use crate::dashboard;
use crate::dashboard::{
    CancelJobResponse, HttpStatus, RaftReply, ReadyResponse, SubmitJobRequest, SubmitJobResponse,
};
use crate::dashboard_laws;
use crate::ids;
use crate::ids::JobId;
use crate::node;
use crate::node::{JobToRun, Node};
use crate::node_laws;
use crate::proto::ListJobsRequest;
use crate::raft::laws as raft_laws;
use crate::raft::node as raft_node;
use crate::raft::node::RaftNode;
use crate::raft::progress_laws;
use crate::raft::state::{Command, CommandView, JobStatusUpdate};
use crate::scheduler::assigner::JobAssigner;
use crate::scheduler::job::{Job, JobStatus};
use crate::scheduler::laws as scheduler_laws;
use crate::scheduler::queue::JobQueue;
use crate::text;
use crate::worker::executor::{ExecutionResult, JobExecutor};
use crate::worker::laws as worker_laws;
use vstd::prelude::*;

verus! {

// ---------------------------------------------------------------------------
// Jobs
// ---------------------------------------------------------------------------

/// A new job waits with its command, under an identifier drawn in the call, and was created at the
/// moment that the wall clock showed in the call.
pub proof fn new_jobs_are_created_now(command: String, job: Job)
    requires
        call_ensures(Job::new, (command,), job),
    ensures
        clock::read_from_wall_clock(job.created_at),
        ids::drawn_at_random(job.id),
        job.command@ == command@,
        job.status is Pending,
        job.image is None,
        job.assigned_worker is None,
        job.executed_by is None,
        job.exit_code is None,
        job.output is None,
        job.error is None,
        job.completed_at is None,
{
    let view = job@;
    assert(view.status is Pending);
    assert(view.command == job.command@);
}

/// The result of a process is a failure exactly when the process failed, with its exit code.
pub proof fn failed_processes_make_failed_jobs(
    job_id: JobId,
    success: bool,
    code: Option<i32>,
    stdout: String,
    stderr: String,
    result: ExecutionResult,
)
    requires
        call_ensures(JobExecutor::process_text, (job_id, success, code, stdout, stderr), result),
    ensures
        result.job_id == job_id,
        result.status is Failed <==> !success,
        result.status is Completed <==> success,
        result.exit_code == code,
        result.error is Some <==> !success,
        result.output is Some <==> stdout@.len() > 0,
        result.output is Some ==> result.output->0@ == stdout@,
        !success && stderr@.len() > 0 ==> result.error->0@ == stderr@,
{
    let view = result@;
    assert(view.status == result.status);
    assert(view.output is Some <==> result.output is Some);
    assert(view.error is Some <==> result.error is Some);
}

/// The node that ran a job records the result, and replicates of it the status, the exit code,
/// itself as the executing node and the time of completion. A node that had the same jobs and
/// applies what was replicated then reads the same of the job; what the job printed it does not
/// have.
pub proof fn results_reach_every_node(
    queue: &mut JobQueue,
    assigner: &mut JobAssigner,
    node_id: u64,
    result: ExecutionResult,
    completed_at: Timestamp,
    update: JobStatusUpdate,
    updates: Vec<JobStatusUpdate>,
    command: Command,
    other_queue: &mut JobQueue,
    other_assigner: &mut JobAssigner,
    now: Moment,
    woken: bool,
)
    requires
        call_ensures(
            node::finish_job,
            (queue, assigner, node_id, result, completed_at),
            update,
        ),
        updates@ == seq![update],
        call_ensures(node::update_command, (updates,), command),
        call_ensures(
            node::apply_command,
            (other_queue, other_assigner, &command, now),
            woken,
        ),
        old(other_queue)@ == old(queue)@,
        old(queue)@.contains_key(result.job_id),
    ensures
        ({
            let id = result.job_id;
            let here = final(queue)@[id];
            let there = final(other_queue)@[id];
            &&& here.status == result.status && there.status == result.status
            &&& here.exit_code == result.exit_code && there.exit_code == result.exit_code
            &&& here.executed_by == Some(node_id) && there.executed_by == Some(node_id)
            &&& here.completed_at == Some(completed_at) && there.completed_at == Some(completed_at)
            &&& here.command == there.command && here.image == there.image
            &&& here.created_at == there.created_at
            &&& here.assigned_worker == there.assigned_worker
            &&& there.output == old(queue)@[id].output && there.error == old(queue)@[id].error
            &&& forall|other: JobId|
                other != id && old(queue)@.contains_key(other) ==> #[trigger] final(queue)@[other]
                    == old(queue)@[other] && final(other_queue)@[other] == old(queue)@[other]
        }),
        !woken,
{
    assert(result@.job_id == result.job_id);
    assert(result@.status == result.status);
    assert(result@.exit_code == result.exit_code);
}

/// A worker is given the jobs that run on it, each once.
pub proof fn running_jobs_are_given_out(
    queue: JobQueue,
    assigner: JobAssigner,
    node_id: u64,
    given: Vec<JobToRun>,
    id: JobId,
)
    requires
        call_ensures(node::jobs_to_run, (&queue, &assigner, node_id), given),
        assigner@.contains_key(node_id),
    ensures
        assigner@[node_id].running_jobs.contains(id) && queue@.contains_key(id)
            && queue@[id].status is Running <==> exists|i: int|
            0 <= i < given@.len() && (#[trigger] given@[i]).job_id == id,
        forall|i: int, j: int|
            0 <= i < j < given@.len() ==> (#[trigger] given@[i]).job_id != (
            #[trigger] given@[j]).job_id,
{
    let m = node::Machine { jobs: queue@, workers: assigner@ };
    if assigner@[node_id].running_jobs.contains(id) && queue@.contains_key(id) && queue@[id].status
        is Running {
        assert(node::runs_on(m, node_id, id));
    }
}

/// A job that waits or runs is cancelled on request, and no other job changes; a job that has
/// ended and one that is not known are left alone.
pub proof fn active_jobs_are_cancelled(queue: &mut JobQueue, id: JobId, done: bool)
    requires
        call_ensures(JobQueue::cancel_job, (queue, &id), done),
    ensures
        ({
            let before = old(queue)@;
            let after = final(queue)@;
            let active = before.contains_key(id) && (before[id].status is Pending
                || before[id].status is Running);
            &&& done <==> active
            &&& active ==> after.contains_key(id) && after[id].status is Cancelled
            &&& !active ==> after == before
            &&& forall|other: JobId|
                other != id ==> (#[trigger] after.contains_key(other) <==> before.contains_key(
                    other,
                )) && after[other] == before[other]
        }),
{
}

/// A full queue takes no job; any other takes it under its identifier.
pub proof fn full_queues_take_nothing(queue: &mut JobQueue, job: Job, taken: bool)
    requires
        call_ensures(JobQueue::add_job, (queue, job), taken),
    ensures
        taken <==> old(queue)@.len() < old(queue).capacity(),
        taken ==> final(queue)@.contains_key(job.id) && final(queue)@[job.id] == job@,
        !taken ==> final(queue)@ == old(queue)@,
        forall|other: JobId|
            other != job.id ==> (#[trigger] final(queue)@.contains_key(other)
                <==> old(queue)@.contains_key(other)) && final(queue)@[other] == old(queue)@[other],
{
}

// ---------------------------------------------------------------------------
// The dashboard
// ---------------------------------------------------------------------------

/// A node is ready exactly when it knows a leader, itself or another.
pub proof fn nodes_are_ready_with_a_leader(raft: RaftNode, answer: (HttpStatus, ReadyResponse))
    requires
        call_ensures(dashboard::ready_handler, (&raft,), answer),
    ensures
        raft.state@.role is Leader ==> answer.1.leader_id == Some(raft.id),
        !(raft.state@.role is Leader) ==> answer.1.leader_id == raft.state@.leader_id,
        answer.0 is Success <==> answer.1.leader_id is Some,
        answer.0 is ServiceUnavailable <==> answer.1.leader_id is None,
{
}

/// The dashboard is told of a command what the log says of it.
pub proof fn dashboards_are_told_by_the_log(
    raft: RaftNode,
    index: u64,
    term: u64,
    time_is_up: bool,
    reply: Option<RaftReply>,
)
    requires
        call_ensures(dashboard::proposal_reply, (&raft, index, term, time_is_up), reply),
        raft.state@.has_entry(index as int),
    ensures
        ({
            let ours = raft.state@.entry(index as int).term == term;
            let committed = index <= raft.state@.commit_index;
            &&& ours && committed ==> reply is Some && reply->0 == RaftReply::Accepted(index)
            &&& !ours ==> reply is Some && reply->0 is Rejected
            &&& ours && !committed && time_is_up ==> reply is Some && reply->0 is NoReply
            &&& ours && !committed && !time_is_up ==> reply is None
        }),
{
}

/// A cancellation on the dashboard succeeds exactly when its command was accepted.
pub proof fn dashboards_cancel_when_accepted(
    reply: RaftReply,
    answer: (HttpStatus, CancelJobResponse),
)
    requires
        call_ensures(dashboard::finish_cancellation, (reply,), answer),
    ensures
        answer.1.success <==> reply is Accepted,
        answer.0 is Success <==> reply is Accepted,
        answer.1.error is None <==> reply is Accepted,
        reply is Rejected ==> answer.0 is BadRequest,
        reply is NotSent || reply is NoReply ==> answer.0 is InternalServerError,
{
}

// ---------------------------------------------------------------------------
// The command line
// ---------------------------------------------------------------------------

/// A status is asked for by its name in any case, and without a name every job is.
pub proof fn names_ask_for_their_status(word: Option<&str>, answer: Result<i32, String>)
    requires
        call_ensures(crate::cli::jobs::parse_status_filter, (word,), answer),
    ensures
        word is None ==> answer is Ok && answer->Ok_0 == 0,
        word is Some && answer is Ok ==> 1 <= answer->Ok_0 <= 5,
        word is Some ==> {
            let name = text::ascii_lowercase(word->0@);
            &&& answer is Ok && answer->Ok_0 == 1 <==> name == "pending"@
            &&& answer is Ok && answer->Ok_0 == 2 <==> name == "running"@
            &&& answer is Ok && answer->Ok_0 == 3 <==> name == "completed"@
            &&& answer is Ok && answer->Ok_0 == 4 <==> name == "failed"@
            &&& answer is Ok && answer->Ok_0 == 5 <==> name == "cancelled"@
        },
{
    if word is Some {
        crate::cli::shown_laws::words_name_their_status(text::ascii_lowercase(word->0@));
    }
    reveal_strlit("pending");
    reveal_strlit("running");
    reveal_strlit("completed");
    reveal_strlit("failed");
    reveal_strlit("cancelled");
    assert("pending"@[0] == 'p');
    assert("running"@[0] == 'r');
    assert("completed"@[1] == 'o');
    assert("failed"@[0] == 'f');
    assert("cancelled"@[1] == 'a');
    assert("completed"@[0] == 'c');
    assert("cancelled"@[0] == 'c');
}

/// Certificates are loaded exactly where TLS is asked for and all files are named. A server that
/// is asked for TLS without them starts only where it may go without.
pub proof fn servers_go_without_tls_only_when_allowed(
    tls: TlsConfig,
    peers: &str,
    plan: Result<TlsPlan, String>,
    loaded: Result<(), String>,
    in_use: Result<bool, String>,
)
    requires
        call_ensures(server::tls_plan, (&tls, peers), plan),
        call_ensures(server::tls_after_load, (loaded, tls.allow_insecure), in_use),
    ensures
        plan is Ok && plan->Ok_0 is Load <==> tls.enabled && tls.ca_cert_path is Some
            && tls.cert_path is Some && tls.key_path is Some,
        tls.enabled && !tls.allow_insecure ==> plan is Err || plan->Ok_0 is Load,
        !tls.enabled ==> plan is Ok,
        plan is Ok && plan->Ok_0 is PlainCluster <==> !tls.enabled && peers@.len() > 0,
        loaded is Ok ==> in_use is Ok && in_use->Ok_0,
        loaded is Err && !tls.allow_insecure ==> in_use is Err,
        loaded is Err && tls.allow_insecure ==> in_use is Ok && !in_use->Ok_0,
{
}

/// A client uses TLS where it has a certificate to check with, or its address says so.
pub proof fn clients_use_tls_when_told(addr: &str, has_cert: bool, tls: bool)
    requires
        call_ensures(redirect::uses_tls, (addr, has_cert), tls),
    ensures
        has_cert ==> tls,
        addr@.len() >= "https://"@.len() && addr@.take("https://"@.len() as int) == "https://"@
            ==> tls,
        tls && !has_cert ==> addr@.len() >= "https://"@.len() && addr@.take(
            "https://"@.len() as int,
        ) == "https://"@,
{
    let n = "https://"@.len() as int;
    if addr@.len() >= n {
        assert(addr@.subrange(0, n) =~= addr@.take(n));
    }
}

// ---------------------------------------------------------------------------
// Workers
// ---------------------------------------------------------------------------

/// The workers available are those heard of within the timeout, and the dead ones are the others.
pub proof fn workers_are_available_until_the_timeout(
    assigner: JobAssigner,
    now: Moment,
    available: Vec<u64>,
    dead: Vec<u64>,
    worker: u64,
)
    requires
        call_ensures(JobAssigner::available_workers_at, (&assigner, now), available),
        call_ensures(JobAssigner::check_dead_workers_at, (&assigner, now), dead),
        assigner@.contains_key(worker) ==> assigner@[worker].last_heartbeat <= now,
    ensures
        ({
            let heard_of = now - assigner@[worker].last_heartbeat < assigner.timeout_ms()
                * 1_000_000;
            &&& available@.contains(worker) <==> assigner@.contains_key(worker) && heard_of
            &&& dead@.contains(worker) <==> assigner@.contains_key(worker) && !heard_of
        }),
{
    assert(available@.contains(worker) <==> available@.to_set().contains(worker));
    assert(dead@.contains(worker) <==> dead@.to_set().contains(worker));
}

/// A job that waits goes to the worker, of those heard of within the timeout, that runs fewest
/// jobs; it then runs there. Nothing is assigned only where no job waits or no such worker is.
pub proof fn waiting_jobs_are_assigned(
    assigner: &mut JobAssigner,
    queue: &mut JobQueue,
    now: Moment,
    choice: Option<(JobId, u64)>,
    id: JobId,
    worker: u64,
)
    requires
        call_ensures(JobAssigner::assign_next_job_at, (assigner, queue, now), choice),
        forall|w: u64| #[trigger]
            old(assigner)@.contains_key(w) ==> old(assigner)@[w].last_heartbeat <= now,
        old(assigner)@.contains_key(worker),
        now - old(assigner)@[worker].last_heartbeat < old(assigner).timeout_ms() * 1_000_000,
        old(queue)@.contains_key(id),
        old(queue)@[id].status is Pending,
    ensures
        choice is Some,
        ({
            let (job, to) = choice->0;
            &&& old(queue)@.contains_key(job) && old(queue)@[job].status is Pending
            &&& old(assigner)@.contains_key(to)
            &&& now - old(assigner)@[to].last_heartbeat < old(assigner).timeout_ms() * 1_000_000
            &&& old(assigner)@[to].running_jobs.len() <= old(assigner)@[worker].running_jobs.len()
            &&& final(queue)@[job].status is Running
            &&& final(queue)@[job].assigned_worker == Some(to)
            &&& final(assigner)@[to].running_jobs.contains(job)
        }),
{
    let workers = assigner@;
    let jobs = queue@;
    if choice is None {
        scheduler_laws::jobs_are_assigned_when_possible(
            workers,
            now,
            assigner.timeout_ms(),
            jobs,
            id,
            worker,
        );
    } else {
        scheduler_laws::jobs_go_to_the_least_loaded(
            choice->0,
            workers,
            now,
            assigner.timeout_ms(),
            jobs,
            worker,
        );
    }
}

/// Cleaning up removes the jobs that completed or failed, and tells how many there were.
pub proof fn cleanup_removes_what_ended(queue: &mut JobQueue, removed: usize, id: JobId)
    requires
        call_ensures(JobQueue::cleanup_finished_jobs, (queue,), removed),
        old(queue)@.dom().finite(),
    ensures
        final(queue)@.contains_key(id) <==> old(queue)@.contains_key(id) && !(old(queue)@[id].status
            is Completed) && !(old(queue)@[id].status is Failed),
        final(queue)@.contains_key(id) ==> final(queue)@[id] == old(queue)@[id],
        removed == old(queue)@.dom().filter(
            |id: JobId|
                old(queue)@[id].status is Completed || old(queue)@[id].status is Failed,
        ).len(),
{
    scheduler_laws::cleanup_leaves_what_has_not_ended(queue@, id);
}

/// A job runs in a sandbox: in a container of its own that is removed afterwards, without
/// capabilities or new privileges, on a read-only file system, and without network where that is
/// set.
pub proof fn jobs_run_in_a_sandbox(
    executor: JobExecutor,
    job_id: JobId,
    command: &str,
    image: Option<&str>,
    args: Vec<String>,
)
    requires
        call_ensures(JobExecutor::docker_args, (&executor, job_id, command, image), args),
    ensures
        ({
            let n = args@.len() as int;
            &&& n >= 11
            &&& args@[0]@ == "run"@ && args@[1]@ == "--rm"@ && args@[2]@ == "--name"@
            &&& args@[3]@ == "nomad-"@ + ids::simple_id_text(job_id)
            &&& executor.sandbox().network_disabled ==> args@[4]@ == "--network=none"@
            &&& args@[n - 7]@ == "--cap-drop=ALL"@
            &&& args@[n - 6]@ == "--security-opt=no-new-privileges"@
            &&& args@[n - 5]@ == "--read-only"@
            &&& image is Some ==> args@[n - 4]@ == image->0@
            &&& image is None ==> args@[n - 4]@ == executor.sandbox().image@
            &&& args@[n - 3]@ == "sh"@ && args@[n - 2]@ == "-c"@
            &&& args@[n - 1]@ == command@
        }),
{
    let own = match image {
        Some(image) => Some(image@),
        None => None,
    };
    worker_laws::containers_are_sandboxed(executor.sandbox(), job_id, command@, own);
    let texts = text::texts(args@);
    let n = args@.len() as int;
    assert(texts.len() == n);
    assert(texts[0] == args@[0]@ && texts[1] == args@[1]@ && texts[2] == args@[2]@);
    assert(texts[3] == args@[3]@ && texts[4] == args@[4]@);
    assert(texts[n - 7] == args@[n - 7]@ && texts[n - 6] == args@[n - 6]@);
    assert(texts[n - 5] == args@[n - 5]@ && texts[n - 4] == args@[n - 4]@);
    assert(texts[n - 3] == args@[n - 3]@ && texts[n - 2] == args@[n - 2]@);
    assert(texts[n - 1] == args@[n - 1]@);
}

// ---------------------------------------------------------------------------
// Submissions on the dashboard
// ---------------------------------------------------------------------------

/// The dashboard makes a job, created now, of every command that says something in no more than
/// 4096 bytes, on a leader that is not being drained and has room.
pub proof fn dashboards_make_jobs(
    raft: RaftNode,
    queue: JobQueue,
    draining: bool,
    payload: SubmitJobRequest,
    answer: Result<(Job, Command), (HttpStatus, SubmitJobResponse)>,
)
    requires
        call_ensures(
            dashboard::submit_job_handler,
            (&raft, &queue, draining, payload),
            answer,
        ),
    ensures
        answer is Ok <==> {
            &&& !draining
            &&& raft.state@.role is Leader
            &&& queue@.len() < queue.capacity()
            &&& vstd::utf8::encode_utf8(payload.command@).len() <= 4096
            &&& exists|i: int|
                0 <= i < payload.command@.len() && !text::white_space(
                    #[trigger] payload.command@[i],
                )
        },
        answer is Ok ==> {
            let job = answer->Ok_0.0@;
            &&& job.command == payload.command@
            &&& job.status is Pending
            &&& clock::read_from_wall_clock(job.created_at)
            &&& ids::drawn_at_random(job.id)
            &&& answer->Ok_0.1@ matches CommandView::SubmitJob {
                job_id,
                command,
                image,
                created_at,
            } && job_id == job.id && command == job.command && image is None && created_at
                == job.created_at
        },
        answer is Err ==> !answer->Err_0.1.success && answer->Err_0.1.job_id is None
            && answer->Err_0.1.error is Some,
{
    dashboard_laws::dashboards_take_jobs_for_the_leader(
        raft.state@,
        queue@.len() >= queue.capacity(),
        draining,
        payload.command@,
    );
}

/// A job that the dashboard took is in the queue exactly when its command was accepted and there
/// was room, and only then is its identifier told.
pub proof fn dashboards_queue_accepted_jobs(
    queue: &mut JobQueue,
    job: Job,
    reply: RaftReply,
    answer: (HttpStatus, SubmitJobResponse),
)
    requires
        call_ensures(dashboard::finish_submission, (queue, job, reply), answer),
    ensures
        answer.1.success <==> reply is Accepted && old(queue)@.len() < old(queue).capacity(),
        answer.0 is Success <==> answer.1.success,
        answer.1.success ==> final(queue)@ == old(queue)@.insert(job.id, job@)
            && answer.1.job_id is Some && answer.1.job_id->0@ == ids::job_id_text(job.id),
        !answer.1.success ==> final(queue)@ == old(queue)@ && answer.1.job_id is None,
{
}

/// Only a leader assigns jobs.
pub proof fn only_leaders_assign(node: &mut Node, now: Moment, made: Vec<(JobId, u64)>)
    requires
        call_ensures(Node::assign_jobs, (node, now), made),
    ensures
        !(old(node).raft_node.state@.role is Leader) ==> made@.len() == 0 && final(node).job_queue@
            == old(node).job_queue@ && final(node).job_assigner@ == old(node).job_assigner@,
        old(node).raft_node.state@.role is Leader ==> forall|i: int|
            0 <= i < made@.len() && (forall|w: u64| #[trigger]
                old(node).job_assigner@.contains_key(w)
                    ==> old(node).job_assigner@[w].last_heartbeat <= now) ==> {
                let (job, worker) = #[trigger] made@[i];
                &&& old(node).job_queue@[job].status is Pending
                &&& final(node).job_queue@[job].status is Running
                &&& final(node).job_queue@[job].assigned_worker == Some(worker)
            },
        final(node).raft_node == old(node).raft_node,
{
    let m = node.machine();
    let timeout_ms = node.job_assigner.timeout_ms();
    if node.raft_node.state@.role is Leader && (forall|w: u64| #[trigger]
        m.workers.contains_key(w) ==> m.workers[w].last_heartbeat <= now) {
        assert forall|i: int| 0 <= i < made@.len() implies {
            let (job, worker) = #[trigger] made@[i];
            &&& m.jobs[job].status is Pending
            &&& node::assigned(m, made@).jobs[job].status is Running
            &&& node::assigned(m, made@).jobs[job].assigned_worker == Some(worker)
        } by {
            node_laws::turns_assign_waiting_jobs(m, made@, now, timeout_ms, i);
        }
    }
}

// ---------------------------------------------------------------------------
// A turn of the node
// ---------------------------------------------------------------------------

/// After a turn all that is committed is applied, no snapshot waits to be restored, and the log is
/// as it was.
pub proof fn turns_apply_what_is_committed(node: &mut Node, now: Moment, woken: bool)
    requires
        call_ensures(Node::apply_committed, (node, now), woken),
        raft_laws::sound(old(node).raft_node.state@),
        old(node).raft_node.pending_snapshot is None,
    ensures
        ({
            let s = old(node).raft_node.state@;
            let t = final(node).raft_node.state@;
            &&& t.last_applied == s.commit_index
            &&& t.commit_index == s.commit_index
            &&& t.log == s.log
            &&& final(node).raft_node.pending_snapshot is None
            &&& woken <==> exists|i: int|
                s.last_applied < i <= s.commit_index && ((#[trigger] s.entry(i)).command
                    is SubmitJob || s.entry(i).command is RegisterWorker)
        }),
{
    let s = node.raft_node.state@;
    progress_laws::commits_are_applied(s);
    let entries = raft_node::unapplied(s);
    node_laws::turns_wake_the_assigner_for_news(entries);
    if exists|i: int|
        s.last_applied < i <= s.commit_index && ((#[trigger] s.entry(i)).command is SubmitJob
            || s.entry(i).command is RegisterWorker) {
        let i = choose|i: int|
            s.last_applied < i <= s.commit_index && ((#[trigger] s.entry(i)).command is SubmitJob
                || s.entry(i).command is RegisterWorker);
        assert(entries[i - s.last_applied - 1] == s.entry(i));
    }
    if node::some_wakes_assigner(entries) {
        let k = choose|k: int|
            0 <= k < entries.len() && ((#[trigger] entries[k]).command is SubmitJob
                || entries[k].command is RegisterWorker);
        assert(entries[k] == s.entry(s.last_applied + 1 + k));
    }
}

/// The log is compacted exactly when it holds more than a thousand entries and the last applied
/// one is among them; the entries behind that one stay.
pub proof fn long_logs_give_way_to_snapshots(node: &mut Node, done: bool)
    requires
        call_ensures(Node::compact_log, (node,), done),
    ensures
        ({
            let s = old(node).raft_node.state@;
            let t = final(node).raft_node.state@;
            let gone = s.last_applied - s.log_offset;
            &&& done <==> s.log.len() > 1000 && 0 < gone <= s.log.len()
            &&& !done ==> t == s
            &&& done ==> t.log_offset == s.last_applied && t.log.len() == s.log.len() - gone
            &&& done ==> t.snapshot is Some && t.snapshot->0.last_included_index == s.last_applied
                && t.snapshot->0.last_included_term == s.log[gone - 1].term
            &&& done ==> forall|i: int|
                0 <= i < t.log.len() ==> #[trigger] t.log[i] == s.log[gone + i]
        }),
        final(node).job_queue == old(node).job_queue,
        final(node).job_assigner == old(node).job_assigner,
{
    let s = node.raft_node.state@;
    let u = final(node).raft_node.state@;
    progress_laws::long_logs_are_compacted(s, u.snapshot->0.jobs, u.snapshot->0.workers);
}

/// What is recorded of a job is what is given, on this job alone.
pub proof fn results_are_recorded(
    queue: &mut JobQueue,
    id: JobId,
    status: JobStatus,
    by: u64,
    code: Option<i32>,
    output: Option<String>,
    error: Option<String>,
    at: Timestamp,
    known: bool,
)
    requires
        call_ensures(
            JobQueue::update_job_result,
            (queue, &id, status, by, code, output, error, at),
            known,
        ),
    ensures
        known <==> old(queue)@.contains_key(id),
        final(queue)@.dom() == old(queue)@.dom(),
        known ==> {
            let job = final(queue)@[id];
            &&& job.status == status
            &&& job.executed_by == Some(by)
            &&& job.exit_code == code
            &&& job.output == text::opt_text(output)
            &&& job.error == text::opt_text(error)
            &&& job.completed_at == Some(at)
            &&& node_laws::as_submitted(job, old(queue)@[id])
        },
        forall|other: JobId|
            other != id && old(queue)@.contains_key(other) ==> #[trigger] final(queue)@[other]
                == old(queue)@[other],
{
    assert(final(queue)@.dom() =~= queue@.dom());
}

/// A page is asked for where the last one ended, with the filters that were given.
pub proof fn pages_are_asked_for_in_turn(
    list: JobListOutput,
    page_size: u32,
    status: i32,
    filters: ListJobsFilters,
    req: ListJobsRequest,
)
    requires
        call_ensures(JobListOutput::next_request, (&list, page_size, status, &filters), req),
    ensures
        req.page_size == page_size,
        req.page_token@ == list.page_token@,
        req.status_filter == status,
        filters.worker_id matches Some(worker) ==> req.worker_id_filter == worker,
        filters.worker_id is None ==> req.worker_id_filter == 0,
        filters.command_substr matches Some(part) ==> req.command_filter@ == part@,
        filters.command_substr is None ==> req.command_filter@.len() == 0,
        filters.created_after_ms matches Some(ms) ==> req.created_after_ms == ms,
        filters.created_after_ms is None ==> req.created_after_ms == 0,
        filters.created_before_ms matches Some(ms) ==> req.created_before_ms == ms,
        filters.created_before_ms is None ==> req.created_before_ms == 0,
{
    assert(list@.page_token == list.page_token@);
}

} // verus!
