//! What holds across the requests of clients and nodes.

use crate::clock::Moment;
use crate::config::NodeConfig;
use crate::grpc::client_service;
use crate::grpc::client_service::{DrainStep, ProposalOutcome};
use crate::grpc::cluster_service;
use crate::grpc::internal_service;
use crate::grpc::status;
use crate::grpc::status::{Code, Refusal, Status};
use crate::ids;
use crate::ids::JobId;
use crate::lemmas;
use crate::node;
use crate::node::Machine;
use crate::proto::client::{JobInfoMessage, JobStatusMessage, NodeMessage};
use crate::proto::ListJobsRequest;
use crate::raft::laws as raft_laws;
use crate::raft::node as raft_node;
use crate::raft::node::RaftNode;
use crate::raft::rpc;
use crate::raft::state::{CommandView, StateView};
use crate::scheduler::job;
use crate::scheduler::job::{JobStatus, JobView};
use crate::scheduler::listing;
use crate::scheduler::queue;
use crate::text;
use vstd::prelude::*;

verus! {

/// The jobs that a client collects when it reads the page with this token and then follows the
/// tokens that it is given, over at most `more` further pages.
pub open spec fn read_pages(
    matching: Seq<JobView>,
    token: Seq<char>,
    size: nat,
    more: nat,
) -> Seq<JobInfoMessage>
    decreases more,
{
    match client_service::page_start(token) {
        None => Seq::empty(),
        Some(offset) => {
            let page = client_service::job_page(matching, offset, size);
            if page.next_page_token.len() == 0 || more == 0 {
                page.jobs
            } else {
                page.jobs + read_pages(
                    matching,
                    page.next_page_token,
                    size,
                    (more - 1) as nat,
                )
            }
        },
    }
}

/// Reading on from an offset collects the jobs after it.
proof fn rest_is_read(
    matching: Seq<JobView>,
    token: Seq<char>,
    offset: nat,
    size: nat,
    more: nat,
)
    requires
        client_service::page_start(token) == Some(offset),
        offset <= matching.len() <= u32::MAX,
        size > 0,
        more + offset >= matching.len(),
    ensures
        read_pages(matching, token, size, more) == client_service::infos_of(
            matching.skip(offset as int),
        ),
    decreases more,
{
    let shown = client_service::page_jobs(matching, offset, size);
    let page = client_service::job_page(matching, offset, size);
    let next = offset + shown.len();
    if next < matching.len() {
        text::decimal_is_read_back(next, usize::MAX as nat);
        rest_is_read(matching, page.next_page_token, next, size, (more - 1) as nat);
        assert(client_service::infos_of(matching.skip(offset as int)) =~= page.jobs
            + client_service::infos_of(matching.skip(next as int)));
    } else {
        assert(shown =~= matching.skip(offset as int));
    }
}

/// A client that follows the page tokens sees every job that passes the filters, once and in
/// order, whatever the size of the pages.
pub proof fn pages_show_every_job(
    jobs: Map<JobId, JobView>,
    filter: client_service::JobFilter,
    size: nat,
    more: nat,
)
    requires
        client_service::matching_jobs(jobs, filter).len() <= u32::MAX,
        size > 0,
        more >= client_service::matching_jobs(jobs, filter).len(),
    ensures
        read_pages(
            client_service::matching_jobs(jobs, filter),
            Seq::empty(),
            size,
            more,
        ) == client_service::infos_of(client_service::matching_jobs(jobs, filter)),
{
    let matching = client_service::matching_jobs(jobs, filter);
    rest_is_read(matching, Seq::empty(), 0, size, more);
    assert(matching.skip(0) =~= matching);
}

/// A job is listed exactly when it passes the filters.
pub proof fn listed_when_passing(
    jobs: Map<JobId, JobView>,
    filter: client_service::JobFilter,
    id: JobId,
)
    requires
        queue::jobs_wf(jobs),
        jobs.contains_key(id),
    ensures
        client_service::matching_jobs(jobs, filter).contains(jobs[id])
            <==> client_service::passing(filter)(jobs[id]),
{
    let listed = listing::listing(jobs);
    let which = client_service::passing(filter);
    listing::listing_lists(jobs);
    broadcast use vstd::seq_lib::group_filter_ensures;

    assert(listed.contains(jobs[id]));
    let picked = listed.filter(which);
    if picked.contains(jobs[id]) {
        let k = choose|k: int| 0 <= k < picked.len() && picked[k] == jobs[id];
        assert(which(picked[k]));
    }
    if which(jobs[id]) {
        let k = choose|k: int| 0 <= k < listed.len() && listed[k] == jobs[id];
        assert(picked.contains(listed[k]));
    }
}

/// Without filters every job is shown.
pub proof fn no_filter_shows_all(jobs: Map<JobId, JobView>, filter: client_service::JobFilter)
    requires
        filter.status == 0,
        filter.worker == 0,
        filter.command.len() == 0,
        filter.created_after_ms == 0,
        filter.created_before_ms == 0,
    ensures
        client_service::matching_jobs(jobs, filter) == listing::listing(jobs),
{
    lemmas::filter_all(listing::listing(jobs), client_service::passing(filter));
}

/// An accepted job stands in the queue of the node that took it just as replication brings it to
/// the other nodes, and on the node that took it replication changes nothing more.
pub proof fn accepted_job_is_the_replicated_one(
    m: Machine,
    capacity: usize,
    job: JobView,
    now: Moment,
)
    requires
        job == job::fresh_job(job.id, job.command, job.image, job.created_at),
        !m.jobs.contains_key(job.id),
        m.jobs.len() < capacity,
    ensures
        node::apply(m, capacity, client_service::submission(job), now) == (Machine {
            jobs: m.jobs.insert(job.id, job),
            ..m
        }),
        node::apply(
            Machine { jobs: m.jobs.insert(job.id, job), ..m },
            capacity,
            client_service::submission(job),
            now,
        ) == (Machine { jobs: m.jobs.insert(job.id, job), ..m }),
{
}

/// A command is accepted only once it is committed: it stands in the log of the node that took
/// it, in the term in which the node led, at an index that is committed.
pub proof fn accepted_only_when_committed(s: StateView, index: u64, term: u64)
    requires
        raft_node::proposal_state_of(s, index, term) is Committed,
    ensures
        index <= s.commit_index,
        s.has_entry(index as int) ==> s.entry(index as int).term == term,
{
}

/// A job whose cancellation is not refused is cancelled once the command is applied.
pub proof fn granted_cancellation_takes_effect(
    s: StateView,
    id: u64,
    m: Machine,
    capacity: usize,
    job_id: JobId,
    now: Moment,
)
    requires
        client_service::cancel_refusal(s, id, m.jobs, Some(job_id)) is None,
    ensures
        ({
            let after = node::apply(m, capacity, CommandView::CancelJob { job_id }, now).jobs;
            after.contains_key(job_id) && after[job_id].status is Cancelled
        }),
{
}

/// The state of a job reads the same on every node: one that did not run a job that ended asks the
/// one that did, and then tells what that one would tell.
pub proof fn job_reads_the_same_everywhere(
    here: JobView,
    there: JobView,
    node_id: u64,
    holder: u64,
    asked: Seq<char>,
)
    requires
        here == (JobView { output: here.output, error: here.error, ..there }),
        there.status is Completed || there.status is Failed,
        there.executed_by == Some(holder),
        holder != node_id,
    ensures
        client_service::output_holder(here, node_id) == Some(holder),
        client_service::output_holder(there, holder) is None,
        ({
            let answer = internal_service::job_output(there, holder, asked);
            let told = JobStatusMessage {
                output: answer.output,
                error: answer.error,
                ..client_service::local_status(here, node_id)
            };
            &&& answer.found
            &&& answer.output == (match there.output {
                Some(output) => output,
                None => Seq::empty(),
            })
            &&& answer.error == (match there.error {
                Some(error) => error,
                None => Seq::empty(),
            })
            &&& told == client_service::local_status(there, holder)
        }),
{
}

/// No node is asked for what a job printed while the job has not ended by running, when this node
/// ran it, or when nobody did. A node that did not run a job has nothing to tell.
pub proof fn only_the_executing_node_is_asked(job: JobView, node_id: u64, asked: Seq<char>)
    ensures
        job.executed_by is None ==> client_service::output_holder(job, node_id) is None,
        job.executed_by == Some(node_id) ==> client_service::output_holder(job, node_id) is None,
        job.status is Pending || job.status is Running || job.status is Cancelled
            ==> client_service::output_holder(job, node_id) is None,
        job.status is Completed && job.executed_by is Some && job.executed_by != Some(node_id)
            ==> client_service::output_holder(job, node_id) == job.executed_by,
        job.status is Failed && job.executed_by is Some && job.executed_by != Some(node_id)
            ==> client_service::output_holder(job, node_id) == job.executed_by,
        internal_service::job_output(job, node_id, asked).found <==> job.executed_by == Some(
            node_id,
        ),
        job.executed_by != Some(node_id) ==> {
            let answer = internal_service::job_output(job, node_id, asked);
            answer.output.len() == 0 && answer.error.len() == 0 && answer.job_id == asked
        },
        job.executed_by == Some(node_id) ==> {
            let answer = internal_service::job_output(job, node_id, asked);
            &&& answer.job_id == ids::job_id_text(job.id)
            &&& job.output matches Some(output) ==> answer.output == output
            &&& job.output is None ==> answer.output.len() == 0
            &&& job.error matches Some(error) ==> answer.error == error
            &&& job.error is None ==> answer.error.len() == 0
        },
{
}

/// A client reads of a job what is known of it: its status by number, its worker and executing
/// node, its exit code and its times, to the millisecond. What it printed is told by the node that
/// ran it.
pub proof fn clients_read_what_is_known(job: JobView, node_id: u64)
    requires
        job.wf(),
    ensures
        ({
            let told = client_service::local_status(job, node_id);
            &&& told.job_id == ids::job_id_text(job.id)
            &&& told.status == (match job.status {
                JobStatus::Pending => 1i32,
                JobStatus::Running => 2i32,
                JobStatus::Completed => 3i32,
                JobStatus::Failed => 4i32,
                JobStatus::Cancelled => 5i32,
            })
            &&& job.assigned_worker matches Some(worker) ==> told.assigned_worker == worker
            &&& job.assigned_worker is None ==> told.assigned_worker == 0
            &&& job.executed_by matches Some(by) ==> told.executed_by == by
            &&& job.executed_by is None ==> told.executed_by == 0
            &&& told.exit_code == job.exit_code
            &&& told.created_at_ms == job.created_at.seconds * 1000 + job.created_at.nanos as int
                / 1_000_000
            &&& told.completed_at_ms is Some <==> job.completed_at is Some
            &&& job.completed_at matches Some(t) ==> told.completed_at_ms->0 == t.seconds * 1000
                + t.nanos as int / 1_000_000
            &&& job.executed_by == Some(node_id) && job.output is Some ==> told.output
                == job.output->0
            &&& job.executed_by == Some(node_id) && job.error is Some ==> told.error == job.error->0
            &&& job.executed_by != Some(node_id) || job.output is None ==> told.output.len() == 0
            &&& job.executed_by != Some(node_id) || job.error is None ==> told.error.len() == 0
        }),
{
}

/// A list shows of a job its identifier, command, status, worker and times.
pub proof fn lists_show_jobs_as_they_are(job: JobView)
    requires
        job.wf(),
    ensures
        ({
            let info = client_service::job_info(job);
            &&& info.job_id == ids::job_id_text(job.id)
            &&& info.command == job.command
            &&& info.status == (match job.status {
                JobStatus::Pending => 1i32,
                JobStatus::Running => 2i32,
                JobStatus::Completed => 3i32,
                JobStatus::Failed => 4i32,
                JobStatus::Cancelled => 5i32,
            })
            &&& job.assigned_worker matches Some(worker) ==> info.assigned_worker == worker
            &&& job.assigned_worker is None ==> info.assigned_worker == 0
            &&& info.created_at_ms == job.created_at.seconds * 1000 + job.created_at.nanos as int
                / 1_000_000
            &&& info.completed_at_ms is Some <==> job.completed_at is Some
            &&& job.completed_at matches Some(t) ==> info.completed_at_ms->0 == t.seconds * 1000
                + t.nanos as int / 1_000_000
        }),
{
}

// ---------------------------------------------------------------------------
// Filters
// ---------------------------------------------------------------------------

/// A job passes the filters of a list other than that by status: the worker had to do with it, the
/// command is part of its own whatever the case of letters, and it was created within the bounds.
pub open spec fn passes_the_rest(filter: client_service::JobFilter, job: JobView) -> bool {
    &&& filter.worker == 0 || job.assigned_worker == Some(filter.worker) || job.executed_by
        == Some(filter.worker)
    &&& filter.command.len() == 0 || text::occurs_in(
        text::lowercase(job.command),
        text::lowercase(filter.command),
    )
    &&& filter.created_after_ms == 0 || job.created_at.seconds * 1000 + job.created_at.nanos as int
        / 1_000_000 >= filter.created_after_ms
    &&& filter.created_before_ms == 0 || job.created_at.seconds * 1000 + job.created_at.nanos as int
        / 1_000_000 <= filter.created_before_ms
}

/// With the number of a status as filter, a list holds jobs in exactly that status, and every job
/// in that status that passes the other filters.
pub proof fn lists_hold_the_status_asked_for(
    jobs: Map<JobId, JobView>,
    filter: client_service::JobFilter,
    id: JobId,
)
    requires
        queue::jobs_wf(jobs),
        jobs.contains_key(id),
    ensures
        ({
            let job = jobs[id];
            let listed = client_service::matching_jobs(jobs, filter).contains(job);
            let rest = passes_the_rest(filter, job);
            &&& filter.status == 1 ==> (listed <==> job.status is Pending && rest)
            &&& filter.status == 2 ==> (listed <==> job.status is Running && rest)
            &&& filter.status == 3 ==> (listed <==> job.status is Completed && rest)
            &&& filter.status == 4 ==> (listed <==> job.status is Failed && rest)
            &&& filter.status == 5 ==> (listed <==> job.status is Cancelled && rest)
            &&& filter.status < 1 || filter.status > 5 ==> (listed <==> rest)
        }),
{
    listed_when_passing(jobs, filter, id);
}

/// A list holds only jobs of the queue, in the order of creation and, at the same moment, of
/// identifiers, each once.
pub proof fn lists_are_in_order(
    jobs: Map<JobId, JobView>,
    filter: client_service::JobFilter,
    i: int,
    j: int,
)
    requires
        queue::jobs_wf(jobs),
        0 <= i < j < client_service::matching_jobs(jobs, filter).len(),
    ensures
        ({
            let a = client_service::matching_jobs(jobs, filter)[i];
            let b = client_service::matching_jobs(jobs, filter)[j];
            &&& jobs.contains_key(a.id) && a == jobs[a.id]
            &&& jobs.contains_key(b.id) && b == jobs[b.id]
            &&& a.id != b.id
            &&& {
                ||| a.created_at.seconds < b.created_at.seconds
                ||| a.created_at.seconds == b.created_at.seconds && a.created_at.nanos
                    < b.created_at.nanos
                ||| a.created_at == b.created_at && a.id < b.id
            }
        }),
{
    let listed = listing::listing(jobs);
    let which = client_service::passing(filter);
    listing::listing_lists(jobs);
    let (p, q) = lemmas::filter_keeps_order(listed, which, i, j);
    assert(listing::precedes(listed[p], listed[q]));
}

/// With the number of a status as filter, exactly the jobs in that status are streamed. The number
/// 0, and one that stands for no status, stream every job.
pub proof fn streams_hold_the_status_asked_for(jobs: Map<JobId, JobView>, filter: i32, id: JobId)
    requires
        queue::jobs_wf(jobs),
        jobs.contains_key(id),
    ensures
        ({
            let job = jobs[id];
            let streamed = listing::listing(jobs).filter(
                client_service::in_status(filter),
            ).contains(job);
            &&& filter == 1 ==> (streamed <==> job.status is Pending)
            &&& filter == 2 ==> (streamed <==> job.status is Running)
            &&& filter == 3 ==> (streamed <==> job.status is Completed)
            &&& filter == 4 ==> (streamed <==> job.status is Failed)
            &&& filter == 5 ==> (streamed <==> job.status is Cancelled)
            &&& filter < 1 || filter > 5 ==> streamed
        }),
{
    broadcast use vstd::seq_lib::group_filter_ensures;

    let listed = listing::listing(jobs);
    let which = client_service::in_status(filter);
    listing::listing_lists(jobs);
    assert(listed.contains(jobs[id]));
    let picked = listed.filter(which);
    if picked.contains(jobs[id]) {
        let k = choose|k: int| 0 <= k < picked.len() && picked[k] == jobs[id];
        assert(which(picked[k]));
    }
    if which(jobs[id]) {
        let k = choose|k: int| 0 <= k < listed.len() && listed[k] == jobs[id];
        assert(picked.contains(listed[k]));
    }
}

/// The same of the status of a job alone: a number from 1 to 5 lets exactly one status pass, each
/// its own, and any other number lets every status pass.
pub proof fn numbers_stand_for_one_status(filter: i32, status: JobStatus)
    ensures
        1 <= filter <= 5 ==> (client_service::status_passes(filter, status) <==> match status {
            JobStatus::Pending => filter == 1,
            JobStatus::Running => filter == 2,
            JobStatus::Completed => filter == 3,
            JobStatus::Failed => filter == 4,
            JobStatus::Cancelled => filter == 5,
        }),
        filter < 1 || filter > 5 ==> client_service::status_passes(filter, status),
{
}

// ---------------------------------------------------------------------------
// Pages
// ---------------------------------------------------------------------------

/// A page holds as many jobs as are asked for, a hundred where no number is given, and no more
/// than a thousand.
pub proof fn pages_are_as_long_as_asked(requested: u32)
    ensures
        requested == 0 ==> client_service::page_len(requested) == 100,
        1 <= requested <= 1000 ==> client_service::page_len(requested) == requested,
        requested > 1000 ==> client_service::page_len(requested) == 1000,
{
}

/// A page shows the jobs from its offset on, as many as fit, and how many there are in all. It
/// tells where the next one starts exactly when jobs are left.
pub proof fn pages_show_their_part(matching: Seq<JobView>, offset: nat, size: nat)
    requires
        matching.len() <= u32::MAX,
        size > 0,
    ensures
        ({
            let page = client_service::job_page(matching, offset, size);
            &&& page.total_count == matching.len()
            &&& offset + size <= matching.len() ==> page.jobs.len() == size
            &&& offset <= matching.len() < offset + size ==> page.jobs.len() == matching.len()
                - offset
            &&& offset > matching.len() ==> page.jobs.len() == 0
            &&& forall|i: int|
                0 <= i < page.jobs.len() ==> #[trigger] page.jobs[i] == client_service::job_info(
                    matching[offset + i],
                )
            &&& offset + size < matching.len() ==> page.next_page_token == text::decimal(
                offset + size,
            )
            &&& offset + size >= matching.len() ==> page.next_page_token.len() == 0
        }),
{
}

/// The first page needs no token, and a token is read as the number that it spells.
pub proof fn tokens_tell_where_pages_start(offset: nat)
    requires
        offset <= usize::MAX,
    ensures
        client_service::page_start(Seq::empty()) == Some(0nat),
        client_service::page_start(text::decimal(offset)) == Some(offset),
{
    text::decimal_is_read_back(offset, usize::MAX as nat);
}

// ---------------------------------------------------------------------------
// Requests
// ---------------------------------------------------------------------------

/// A job is taken exactly by a leader that is not being drained, and only with a command that holds
/// something other than white space. A refusal tells the first of the reasons.
pub proof fn jobs_are_taken_by_the_leader(
    s: StateView,
    id: u64,
    draining: bool,
    command: Seq<char>,
)
    ensures
        ({
            let refusal = client_service::submit_refusal(s, id, draining, command);
            let says_something = exists|i: int|
                0 <= i < command.len() && !text::white_space(#[trigger] command[i]);
            &&& refusal is None <==> !draining && says_something && s.role is Leader
            &&& draining ==> refusal->0.code is Unavailable
            &&& !draining && !says_something ==> refusal->0.code is InvalidArgument
            &&& !draining && says_something && !(s.role is Leader) ==> refusal->0.code
                is FailedPrecondition
        }),
{
}

/// The command that submits a job carries all that makes the job on other nodes.
pub proof fn submissions_carry_the_job(job: JobView)
    ensures
        client_service::submission(job) matches CommandView::SubmitJob {
            job_id,
            command,
            image,
            created_at,
        } && job_id == job.id && command == job.command && image == job.image && created_at
            == job.created_at,
        job.wf() ==> client_service::accepted_job(job).created_at_ms == job.created_at.seconds
            * 1000 + job.created_at.nanos as int / 1_000_000,
        client_service::accepted_job(job).job_id == ids::job_id_text(job.id),
{
}

/// A job is cancelled exactly by a leader that knows it, while it waits or runs. A refusal tells
/// the first of the reasons.
pub proof fn active_jobs_can_be_cancelled(
    s: StateView,
    id: u64,
    jobs: Map<JobId, JobView>,
    job_id: JobId,
)
    ensures
        ({
            let refusal = client_service::cancel_refusal(s, id, jobs, Some(job_id));
            let leads = s.role is Leader;
            let known = jobs.contains_key(job_id);
            let status = jobs[job_id].status;
            &&& refusal is None <==> leads && known && (status is Pending || status is Running)
            &&& !leads ==> refusal->0.code is FailedPrecondition
            &&& leads && !known ==> refusal->0.code is NotFound
            &&& leads && known && (status is Completed || status is Failed || status is Cancelled)
                ==> refusal->0.code is FailedPrecondition && refusal->0.message == "job is already "@
                + (match status {
                JobStatus::Completed => "completed"@,
                JobStatus::Failed => "failed"@,
                _ => "cancelled"@,
            })
        }),
        client_service::cancel_refusal(s, id, jobs, None) is Some,
        client_service::cancel_refusal(s, id, jobs, None)->0.code is InvalidArgument,
{
}

/// A job is told of exactly when it is known.
pub proof fn known_jobs_are_told_of(jobs: Map<JobId, JobView>, job_id: JobId)
    ensures
        client_service::lookup_refusal(jobs, Some(job_id)) is None <==> jobs.contains_key(job_id),
        !jobs.contains_key(job_id) ==> client_service::lookup_refusal(
            jobs,
            Some(job_id),
        )->0.code is NotFound,
        client_service::lookup_refusal(jobs, None) is Some,
        client_service::lookup_refusal(jobs, None)->0.code is InvalidArgument,
{
}

/// A request succeeds exactly when its command was accepted; otherwise the code tells why not.
pub proof fn requests_end_as_their_commands_do(outcome: ProposalOutcome)
    ensures
        client_service::proposal_refusal(outcome) is None <==> outcome is Accepted,
        outcome is Rejected ==> client_service::proposal_refusal(outcome)->0.code is Internal,
        outcome is Unanswered ==> client_service::proposal_refusal(outcome)->0.code is Internal,
        outcome is QueueFull ==> client_service::proposal_refusal(outcome)->0.code
            is ResourceExhausted,
        outcome is Stopped ==> client_service::proposal_refusal(outcome)->0.code is Unavailable,
        outcome is TimedOut ==> client_service::proposal_refusal(outcome)->0.code
            is DeadlineExceeded,
{
}

/// A node that does not lead names the leader it knows.
pub proof fn redirects_name_the_leader(id: u64)
    ensures
        client_service::not_leader_message(Some(id)) == "Not the leader. Redirect to node "@
            + text::decimal(id as nat),
        client_service::not_leader_message(None) == "Not the leader. Leader unknown, retry later"@,
{
}

// ---------------------------------------------------------------------------
// The cluster and the log
// ---------------------------------------------------------------------------

/// The nodes of a cluster are this node, which is alive, and its peers, each with its address; a
/// peer is alive exactly when it was heard of within three seconds.
pub proof fn clusters_are_told_as_known(config: NodeConfig, raft: RaftNode, now: Moment, i: int)
    requires
        0 <= i < config.peers@.len(),
        raft.config.peers@ == config.peers@,
    ensures
        ({
            let nodes = client_service::known_nodes(config, raft, now);
            let peer = config.peers@[i];
            let seen = raft.peer_last_seen@;
            &&& nodes.len() == config.peers@.len() + 1
            &&& nodes[0].node_id == config.node_id
            &&& nodes[0].address == config.advertise_addr@
            &&& nodes[0].is_alive
            &&& nodes[i + 1].node_id == peer.node_id
            &&& nodes[i + 1].address == peer.addr@
            &&& !seen.contains_key(peer.node_id) ==> !nodes[i + 1].is_alive
            &&& seen.contains_key(peer.node_id) && now >= seen[peer.node_id] ==> (nodes[i
                + 1].is_alive <==> now - seen[peer.node_id] < 3_000_000_000)
        }),
{
    assert(raft.config.peer_ids()[i] == config.peers@[i].node_id);
    assert(raft.config.peer_ids().contains(config.peers@[i].node_id));
}

/// Nodes sorted by identifier are the same nodes, with identifiers that do not fall.
pub proof fn sorting_keeps_the_nodes(
    sorted: Seq<NodeMessage>,
    nodes: Seq<NodeMessage>,
    n: NodeMessage,
)
    requires
        client_service::sorted_by_id(sorted, nodes),
    ensures
        sorted.contains(n) <==> nodes.contains(n),
        forall|i: int, j: int|
            0 <= i <= j < sorted.len() ==> (#[trigger] sorted[i]).node_id <= (
            #[trigger] sorted[j]).node_id,
{
    broadcast use vstd::seq_lib::group_filter_ensures;

    let which = client_service::with_id(n.node_id);
    let a = sorted.filter(which);
    let b = nodes.filter(which);
    assert(a == b);
    if sorted.contains(n) {
        let k = choose|k: int| 0 <= k < sorted.len() && sorted[k] == n;
        assert(which(sorted[k]));
        assert(a.contains(sorted[k]));
        let m = choose|m: int| 0 <= m < a.len() && a[m] == n;
        let p = lemmas::filter_place(nodes, which, m);
        assert(nodes[p] == n);
    }
    if nodes.contains(n) {
        let k = choose|k: int| 0 <= k < nodes.len() && nodes[k] == n;
        assert(which(nodes[k]));
        assert(b.contains(nodes[k]));
        let m = choose|m: int| 0 <= m < b.len() && b[m] == n;
        let p = lemmas::filter_place(sorted, which, m);
        assert(sorted[p] == n);
    }
}

/// A part of the log holds the entries from the start asked for, or the first that is not
/// compacted, one after the other, up to the limit or the end. Each is told as committed exactly up
/// to the commit index.
pub proof fn log_parts_follow_one_another(s: StateView, start: u64, limit: nat)
    requires
        raft_laws::sound(s),
    ensures
        ({
            let part = client_service::log_part(s, start, limit);
            let first = if start > s.log_offset {
                start as int
            } else {
                s.log_offset + 1
            };
            let left = s.log_offset + s.log.len() + 1 - first;
            &&& left <= 0 ==> part.len() == 0
            &&& 0 <= left <= limit ==> part.len() == left
            &&& left > limit ==> part.len() == limit
            &&& forall|i: int|
                0 <= i < part.len() ==> {
                    let entry = s.entry(first + i);
                    &&& (#[trigger] part[i]).index == first + i
                    &&& part[i].term == entry.term
                    &&& part[i].command == rpc::encode_command(entry.command)
                    &&& part[i].is_committed <==> first + i <= s.commit_index
                }
        }),
{
    raft_laws::last_index_counts_all(s);
    let part = client_service::log_part(s, start, limit);
    let from = s.entries_from(start as int);
    let first = if start > s.log_offset {
        start as int
    } else {
        s.log_offset + 1
    };
    assert forall|i: int| 0 <= i < part.len() implies {
        let entry = s.entry(first + i);
        &&& (#[trigger] part[i]).index == first + i
        &&& part[i].term == entry.term
        &&& part[i].command == rpc::encode_command(entry.command)
        &&& part[i].is_committed <==> first + i <= s.commit_index
    } by {
        assert(from[i] == s.log[first + i - s.log_offset - 1]);
        assert(s.log[first + i - s.log_offset - 1].index == first + i);
    }
}

/// A node is drained once no job runs on it and it leads nobody: while jobs run it waits for them,
/// then a leader with peers hands over.
pub proof fn draining_waits_then_hands_over(
    s: StateView,
    config: NodeConfig,
    jobs: Map<JobId, JobView>,
)
    requires
        jobs.dom().finite(),
        jobs.dom().len() <= usize::MAX,
    ensures
        ({
            let step = client_service::drain_step_for(s, config, jobs);
            let busy = exists|id: JobId| #[trigger]
                jobs.contains_key(id) && jobs[id].status is Running && jobs[id].assigned_worker
                    == Some(config.node_id);
            let running = jobs.dom().filter(
                |id: JobId|
                    jobs[id].status is Running && jobs[id].assigned_worker == Some(config.node_id),
            );
            &&& busy <==> step is WaitForJobs
            &&& step matches DrainStep::WaitForJobs(n) ==> n == running.len() && n > 0
            &&& !busy && s.role is Leader && config.peers@.len() > 0 <==> step
                is TransferLeadership
            &&& !busy && (!(s.role is Leader) || config.peers@.len() == 0) <==> step is Finish
        }),
{
    let which = queue::running_on(config.node_id);
    let counted = jobs.dom().filter(|id: JobId| which(jobs[id]));
    let running = jobs.dom().filter(
        |id: JobId| jobs[id].status is Running && jobs[id].assigned_worker == Some(config.node_id),
    );
    assert(counted =~= running);
    assert(running.subset_of(jobs.dom()));
    vstd::set_lib::lemma_len_subset(running, jobs.dom());
    if exists|id: JobId| #[trigger]
        jobs.contains_key(id) && jobs[id].status is Running && jobs[id].assigned_worker == Some(
            config.node_id,
        ) {
        let id = choose|id: JobId| #[trigger]
            jobs.contains_key(id) && jobs[id].status is Running && jobs[id].assigned_worker == Some(
                config.node_id,
            );
        assert(running.contains(id));
        assert(running.len() > 0);
    } else if running.len() > 0 {
        let id = running.choose();
        assert(running.contains(id));
        assert(jobs.contains_key(id) && jobs[id].status is Running);
    }
}

/// The filters of a list are those of its request.
pub proof fn lists_are_filtered_as_requested(req: ListJobsRequest)
    ensures
        ({
            let filter = client_service::filter_of(req);
            &&& filter.status == req.status_filter
            &&& filter.worker == req.worker_id_filter
            &&& filter.command == req.command_filter@
            &&& filter.created_after_ms == req.created_after_ms
            &&& filter.created_before_ms == req.created_before_ms
        }),
{
}

/// A refused request fails with the code and the message of its refusal.
pub proof fn refusals_are_told(r: Result<u64, Status>, with: Refusal)
    ensures
        status::refused(r, with) <==> r is Err && r->Err_0.code == with.code && r->Err_0.message@
            == with.message,
{
}

/// What clients and nodes read when a request cannot be served.
pub proof fn refusals_say_why(id: u64, job_id: JobId, handler: Seq<char>, error: Seq<char>)
    ensures
        client_service::queue_full_refusal() == (Refusal {
            code: Code::ResourceExhausted,
            message: "Job queue is at capacity"@,
        }),
        client_service::no_leader_refusal() == (Refusal {
            code: Code::Unavailable,
            message: "Leader unknown, please retry later"@,
        }),
        client_service::unknown_node_refusal(id) == (Refusal {
            code: Code::NotFound,
            message: "Unknown node "@ + text::decimal(id as nat),
        }),
        internal_service::no_raft_refusal() == (Refusal {
            code: Code::Unavailable,
            message: "Raft not available"@,
        }),
        cluster_service::handler_refusal(handler, error) == (Refusal {
            code: Code::Internal,
            message: handler + " handler error: "@ + error,
        }),
        client_service::cancelled_message(job_id) == "job "@ + ids::job_id_text(job_id)
            + " cancelled"@,
        client_service::lost_text() == "Entry was replaced by another leader"@,
{
}

} // verus!
