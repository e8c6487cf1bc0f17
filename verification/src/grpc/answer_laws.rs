//! What holds of the answers that clients and nodes are given.

use crate::clock;
use crate::grpc::client_service;
use crate::grpc::client_service::{
    proposal_answer, proposal_outcome, ClientService, ProposalOutcome,
};
use crate::grpc::internal_service::InternalServiceImpl;
use crate::grpc::laws;
use crate::grpc::status::Status;
use crate::ids;
use crate::ids::JobId;
use crate::proto::client;
use crate::proto::{
    CancelJobResponse, DrainNodeResponse, ForwardJobStatusRequest, GetJobOutputResponse,
    GetJobStatusResponse, JobInfo, ListJobsRequest, ListJobsResponse, StreamJobsRequest,
    SubmitJobRequest, SubmitJobResponse, TransferLeadershipRequest, TransferLeadershipResponse,
};
use crate::raft::node::{RaftMessage, RaftNode};
use crate::raft::state::{Command, CommandView};
use crate::scheduler::job::{Job, JobStatus};
use crate::scheduler::listing;
use crate::scheduler::queue::JobQueue;
use crate::text;
use vstd::prelude::*;

verus! {

// ---------------------------------------------------------------------------
// Jobs
// ---------------------------------------------------------------------------

/// Whoever asks about a job that completed or failed on another node is told which node that is.
/// Of any other job this node tells all there is, and names nobody.
pub proof fn answers_name_the_executing_node(
    service: ClientService,
    queue: JobQueue,
    id: JobId,
    answer: Result<(GetJobStatusResponse, Option<u64>), Status>,
)
    requires
        call_ensures(ClientService::job_status, (&service, &queue, Some(id)), answer),
        queue@.contains_key(id),
    ensures
        ({
            let job = queue@[id];
            let elsewhere = job.executed_by is Some && job.executed_by->0 != service.config.node_id;
            let ended = job.status is Completed || job.status is Failed;
            &&& answer is Ok
            &&& elsewhere && ended ==> answer->Ok_0.1 == job.executed_by
            &&& !(elsewhere && ended) ==> answer->Ok_0.1 is None
            &&& job.executed_by matches Some(by) ==> answer->Ok_0.0.executed_by == by
            &&& answer->Ok_0.0.exit_code == job.exit_code
            &&& answer->Ok_0.0.status == (match job.status {
                JobStatus::Pending => 1i32,
                JobStatus::Running => 2i32,
                JobStatus::Completed => 3i32,
                JobStatus::Failed => 4i32,
                JobStatus::Cancelled => 5i32,
            })
        }),
{
}

/// Nobody is told of a job that is not known, or of none at all.
pub proof fn unknown_jobs_are_not_told_of(
    service: ClientService,
    queue: JobQueue,
    asked: Option<JobId>,
    answer: Result<(GetJobStatusResponse, Option<u64>), Status>,
)
    requires
        call_ensures(ClientService::job_status, (&service, &queue, asked), answer),
        asked is None || !queue@.contains_key(asked->0),
    ensures
        answer is Err,
        asked is None ==> answer->Err_0.code is InvalidArgument,
        asked is Some ==> answer->Err_0.code is NotFound,
{
}

/// The node that ran a job tells what the job printed, and no other node does.
pub proof fn output_comes_from_the_executing_node(
    service: InternalServiceImpl,
    queue: JobQueue,
    id: JobId,
    asked: String,
    answer: Result<GetJobOutputResponse, Status>,
)
    requires
        call_ensures(InternalServiceImpl::output_of, (&service, &queue, Some(id), asked), answer),
        queue@.contains_key(id),
    ensures
        answer is Ok,
        answer->Ok_0.found <==> queue@[id].executed_by == Some(service.node_id),
        answer->Ok_0.found && queue@[id].output is Some ==> answer->Ok_0.output@
            == queue@[id].output->0,
        answer->Ok_0.found && queue@[id].error is Some ==> answer->Ok_0.error@
            == queue@[id].error->0,
        !answer->Ok_0.found || queue@[id].output is None ==> answer->Ok_0.output@.len() == 0,
        !answer->Ok_0.found || queue@[id].error is None ==> answer->Ok_0.error@.len() == 0,
{
}

/// What was fetched from the executing node goes into the answer, and all else stays; where
/// nothing could be fetched, the answer stays whole.
pub proof fn fetched_output_completes_the_answer(
    told: GetJobOutputResponse,
    fetched: Result<(String, String), Status>,
    before: GetJobStatusResponse,
    after: GetJobStatusResponse,
)
    requires
        call_ensures(ClientService::fetched_output, (told,), fetched),
        call_ensures(ClientService::with_output, (before, fetched), after),
    ensures
        told.found ==> after.output@ == told.output@ && after.error@ == told.error@,
        !told.found ==> after.output@ == before.output@ && after.error@ == before.error@,
        after.job_id@ == before.job_id@,
        after.status == before.status,
        after.assigned_worker == before.assigned_worker,
        after.executed_by == before.executed_by,
        after.exit_code == before.exit_code,
        after.created_at_ms == before.created_at_ms,
        after.completed_at_ms == before.completed_at_ms,
{
    assert(after@.job_id == before@.job_id);
    assert(after@.status == before@.status);
    assert(after@.assigned_worker == before@.assigned_worker);
}

/// With the number of a status as filter, the jobs that are streamed are in that status, and every
/// job in that status is streamed. Otherwise every job is.
pub proof fn streams_show_the_status_asked_for(
    service: ClientService,
    queue: JobQueue,
    req: StreamJobsRequest,
    streamed: Vec<JobInfo>,
    id: JobId,
)
    requires
        call_ensures(ClientService::stream_jobs, (&service, &queue, req), streamed),
        queue.wf(),
        queue@.contains_key(id),
    ensures
        ({
            let status = queue@[id].status;
            let wanted = match status {
                JobStatus::Pending => 1i32,
                JobStatus::Running => 2i32,
                JobStatus::Completed => 3i32,
                JobStatus::Failed => 4i32,
                JobStatus::Cancelled => 5i32,
            };
            let all = req.status_filter < 1 || req.status_filter > 5;
            &&& !all ==> forall|i: int|
                0 <= i < streamed@.len() ==> (#[trigger] streamed@[i]).status == req.status_filter
            &&& all || req.status_filter == wanted ==> exists|i: int|
                0 <= i < streamed@.len() && (#[trigger] streamed@[i]).job_id@ == ids::job_id_text(
                    id,
                ) && streamed@[i].status == wanted
        }),
{
    laws::streams_hold_the_status_asked_for(queue@, req.status_filter, id);
    let picked = listing::listing(queue@).filter(client_service::in_status(req.status_filter));
    let infos = client::job_infos(streamed@);
    if picked.contains(queue@[id]) {
        let k = choose|k: int| 0 <= k < picked.len() && picked[k] == queue@[id];
        assert(infos == client_service::infos_of(picked));
        assert(infos.len() == picked.len() && infos.len() == streamed@.len());
        assert(infos[k] == client_service::job_info(picked[k]));
        assert(infos[k] == streamed@[k]@);
        assert(queue@[id].id == id);
        assert(streamed@[k].job_id@ == ids::job_id_text(id));
    }
}

/// With the number of a status as filter, every job on a page is in that status, and the page
/// tells how many jobs pass in all.
pub proof fn pages_show_the_status_asked_for(
    service: ClientService,
    queue: JobQueue,
    req: ListJobsRequest,
    answer: Result<ListJobsResponse, Status>,
)
    requires
        call_ensures(ClientService::list_jobs, (&service, &queue, &req), answer),
    ensures
        req.page_token@.len() == 0 ==> answer is Ok,
        1 <= req.status_filter <= 5 && answer is Ok ==> forall|i: int|
            0 <= i < answer->Ok_0.jobs@.len() ==> (#[trigger] answer->Ok_0.jobs@[i]).status
                == req.status_filter,
        answer is Ok ==> answer->Ok_0.jobs@.len() <= (if req.page_size == 0 {
            100
        } else if req.page_size > 1000 {
            1000
        } else {
            req.page_size as int
        }),
        answer is Ok ==> answer->Ok_0@ == client_service::job_page(
            client_service::matching_jobs(queue@, client_service::filter_of(req)),
            client_service::page_start(req.page_token@)->0,
            client_service::page_len(req.page_size) as nat,
        ),
        answer is Err ==> answer->Err_0.code is InvalidArgument,
{
    if answer is Ok {
        let page = answer->Ok_0;
        assert(page@.jobs.len() == page.jobs@.len());
    }
}

// ---------------------------------------------------------------------------
// Commands
// ---------------------------------------------------------------------------

/// A command is told as accepted once its entry, in the term in which it was appended, is
/// committed; as rejected once another entry took its place; and as timed out only while neither
/// is known and the time is up.
pub proof fn commands_are_answered_by_the_log(
    raft: RaftNode,
    index: u64,
    term: u64,
    timed_out: bool,
    answer: Option<ProposalOutcome>,
)
    requires
        call_ensures(proposal_outcome, (&raft, index, term, timed_out), answer),
        raft.state@.has_entry(index as int),
    ensures
        ({
            let ours = raft.state@.entry(index as int).term == term;
            let committed = index <= raft.state@.commit_index;
            &&& ours && committed ==> answer is Some && answer->0 == ProposalOutcome::Accepted(
                index,
            )
            &&& !ours ==> answer is Some && answer->0 is Rejected
            &&& ours && !committed && timed_out ==> answer is Some && answer->0 is TimedOut
            &&& ours && !committed && !timed_out ==> answer is None
        }),
{
}

/// A request succeeds exactly when its command was accepted, at the index of the command.
pub proof fn accepted_commands_succeed(outcome: ProposalOutcome, answer: Result<u64, Status>)
    requires
        call_ensures(proposal_answer, (outcome,), answer),
    ensures
        outcome matches ProposalOutcome::Accepted(index) ==> answer is Ok && answer->Ok_0 == index,
        !(outcome is Accepted) ==> answer is Err,
        outcome is QueueFull ==> answer->Err_0.code is ResourceExhausted,
        outcome is Stopped ==> answer->Err_0.code is Unavailable,
        outcome is TimedOut ==> answer->Err_0.code is DeadlineExceeded,
        outcome is Rejected || outcome is Unanswered ==> answer->Err_0.code is Internal,
{
}

/// A cancellation succeeds exactly when its command was accepted.
pub proof fn accepted_cancellations_succeed(
    service: ClientService,
    job_id: JobId,
    outcome: ProposalOutcome,
    answer: Result<CancelJobResponse, Status>,
)
    requires
        call_ensures(ClientService::finish_cancellation, (&service, job_id, outcome), answer),
    ensures
        answer is Ok <==> outcome is Accepted,
        answer is Ok ==> answer->Ok_0.success && answer->Ok_0.message@ == "job "@
            + ids::job_id_text(job_id) + " cancelled"@,
{
}

/// A report on jobs becomes a command exactly where there is a report and a loop to hand it to.
pub proof fn reports_become_commands(
    service: InternalServiceImpl,
    req: ForwardJobStatusRequest,
    answer: Result<Option<Command>, Status>,
)
    requires
        call_ensures(InternalServiceImpl::forward_job_status, (&service, &req), answer),
    ensures
        answer is Ok <==> service.raft_available,
        answer is Ok ==> (answer->Ok_0 is Some <==> req.updates@.len() > 0),
        answer is Err ==> answer->Err_0.code is Unavailable,
{
}

// ---------------------------------------------------------------------------
// The cluster
// ---------------------------------------------------------------------------

/// Other nodes are reached over TLS exactly where that is set.
pub proof fn addresses_have_their_scheme(service: ClientService, addr: &str, uri: String)
    requires
        call_ensures(ClientService::peer_uri, (&service, addr), uri),
    ensures
        service.secure ==> uri@ == "https://"@ + addr@,
        !service.secure ==> uri@ == "http://"@ + addr@,
{
}

/// The address of a peer is found exactly for those in the settings.
pub proof fn addresses_are_those_of_the_settings(
    service: ClientService,
    node_id: u64,
    answer: Result<String, Status>,
    i: int,
)
    requires
        call_ensures(ClientService::peer_addr, (&service, node_id), answer),
        0 <= i < service.config.peers@.len(),
    ensures
        service.config.peers@[i].node_id == node_id && (forall|k: int|
            0 <= k < i ==> (#[trigger] service.config.peers@[k]).node_id != node_id) ==> answer
            is Ok && answer->Ok_0@ == service.config.peers@[i].addr@,
        answer is Ok ==> exists|k: int|
            0 <= k < service.config.peers@.len() && (#[trigger] service.config.peers@[k]).node_id
                == node_id,
        answer is Err ==> service.config.peers@[i].node_id != node_id && answer->Err_0.code
            is NotFound,
{
    if answer is Err && service.config.peers@[i].node_id == node_id {
        assert(service.config.peer_ids()[i] == node_id);
    }
}

/// What only the leader can serve is served by a leader and forwarded to it by any other node that
/// knows one.
pub proof fn requests_go_to_the_leader(
    service: ClientService,
    raft: RaftNode,
    answer: Result<Option<u64>, Status>,
)
    requires
        call_ensures(ClientService::forward_to, (&service, &raft), answer),
    ensures
        raft.state@.role is Leader ==> answer is Ok && answer->Ok_0 is None,
        !(raft.state@.role is Leader) && raft.state@.leader_id is Some ==> answer is Ok
            && answer->Ok_0 == raft.state@.leader_id,
        !(raft.state@.role is Leader) && raft.state@.leader_id is None ==> answer is Err
            && answer->Err_0.code is Unavailable,
{
}

/// Leadership goes to the node asked for; without one the loop chooses. The answer names the new
/// leader, or tells what went wrong.
pub proof fn hand_overs_are_answered(
    service: ClientService,
    req: TransferLeadershipRequest,
    message: RaftMessage,
    outcome: Result<u64, String>,
    answer: TransferLeadershipResponse,
)
    requires
        call_ensures(ClientService::transfer_leadership, (&service, req), message),
        call_ensures(ClientService::finish_transfer, (&service, outcome), answer),
    ensures
        message matches RaftMessage::TransferLeadership { target_id } && (match target_id {
            Some(id) => id == req.target_node_id && id != 0,
            None => req.target_node_id == 0,
        }),
        answer.success <==> outcome is Ok,
        outcome is Ok ==> answer.new_leader_id == outcome->Ok_0 && answer.message@
            == "Leadership transferred to node "@ + text::decimal(outcome->Ok_0 as nat),
        outcome is Err ==> answer.new_leader_id == 0 && answer.message@ == outcome->Err_0@,
{
}

/// A drain succeeds exactly when its last step did.
pub proof fn drains_are_answered(
    service: ClientService,
    handed_over: Result<(), String>,
    answer: DrainNodeResponse,
)
    requires
        call_ensures(ClientService::finish_drain, (&service, handed_over), answer),
    ensures
        answer.success <==> handed_over is Ok,
        handed_over is Ok ==> answer.message@ == "Node drained successfully"@,
        handed_over is Err ==> answer.message@ == handed_over->Err_0@,
{
}

// ---------------------------------------------------------------------------
// Submissions
// ---------------------------------------------------------------------------

/// A leader that is not being drained makes a job of every command that says something: the job
/// waits with the command and image of the request, was created now, and its command carries it.
pub proof fn submissions_become_jobs(
    service: ClientService,
    raft: RaftNode,
    draining: bool,
    req: SubmitJobRequest,
    answer: Result<(Job, Command), Status>,
)
    requires
        call_ensures(ClientService::submit_job, (&service, &raft, draining, req), answer),
    ensures
        answer is Ok <==> !draining && raft.state@.role is Leader && exists|i: int|
            0 <= i < req.command@.len() && !text::white_space(#[trigger] req.command@[i]),
        answer is Ok ==> {
            let job = answer->Ok_0.0@;
            &&& job.command == req.command@
            &&& job.image == text::opt_text(req.image)
            &&& job.status is Pending
            &&& clock::read_from_wall_clock(job.created_at)
            &&& ids::drawn_at_random(job.id)
            &&& answer->Ok_0.1@ matches CommandView::SubmitJob {
                job_id,
                command,
                image,
                created_at,
            } && job_id == job.id && command == job.command && image == job.image && created_at
                == job.created_at
        },
{
    laws::jobs_are_taken_by_the_leader(raft.state@, raft.id, draining, req.command@);
}

/// A job whose command was accepted is in the queue, where there is room, and its client is told
/// its identifier. Otherwise the client is refused and the queue stays as it was.
pub proof fn accepted_jobs_are_in_the_queue(
    service: ClientService,
    queue: &mut JobQueue,
    job: Job,
    outcome: ProposalOutcome,
    answer: Result<SubmitJobResponse, Status>,
)
    requires
        call_ensures(ClientService::finish_submission, (&service, queue, job, outcome), answer),
    ensures
        answer is Ok <==> outcome is Accepted && old(queue)@.len() < old(queue).capacity(),
        answer is Ok ==> final(queue)@ == old(queue)@.insert(job.id, job@)
            && answer->Ok_0.job_id@ == ids::job_id_text(job.id),
        answer is Err ==> final(queue)@ == old(queue)@,
        outcome is Accepted && answer is Err ==> answer->Err_0.code is ResourceExhausted,
{
    if answer is Ok {
        assert(answer->Ok_0@.job_id == answer->Ok_0.job_id@);
    }
}

/// A leader cancels the jobs it knows that wait or run, and refuses the others.
pub proof fn cancellations_are_for_active_jobs(
    service: ClientService,
    raft: RaftNode,
    queue: JobQueue,
    asked: Option<JobId>,
    answer: Result<JobId, Status>,
)
    requires
        call_ensures(ClientService::cancel_parsed, (&service, &raft, &queue, asked), answer),
    ensures
        answer is Ok <==> asked is Some && raft.state@.role is Leader && queue@.contains_key(
            asked->0,
        ) && (queue@[asked->0].status is Pending || queue@[asked->0].status is Running),
        answer is Ok ==> asked == Some(answer->Ok_0),
{
}

} // verus!
