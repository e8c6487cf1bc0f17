//! What the web dashboard answers.

use crate::clock;
use crate::clock::Moment;
use crate::grpc::client_service;
use crate::grpc::client_service::{cluster_nodes, submit_command};
use crate::ids;
use crate::ids::{job_id_to_string, parse_job_id, JobId};
use crate::proto::client;
use crate::proto::NodeInfo;
use crate::raft::node;
use crate::raft::node::{ProposalState, RaftNode};
use crate::raft::state::{Command, CommandView, StateView};
use crate::scheduler::job;
use crate::scheduler::job::{Job, JobView, MAX_COMMAND_LEN};
use crate::scheduler::listing;
use crate::scheduler::queue;
use crate::scheduler::queue::JobQueue;
use crate::text;
use crate::text::{byte_len, decimal_text, is_blank};
use vstd::prelude::*;
use vstd::string::*;

verus! {

/// The status of an answer.
#[derive(Debug, Clone, Copy, PartialEq, Eq, Structural)]
pub enum HttpStatus {
    Success,
    BadRequest,
    NotFound,
    InternalServerError,
    ServiceUnavailable,
}

impl HttpStatus {
    /// The number of the status.
    pub open spec fn number(self) -> u16 {
        match self {
            HttpStatus::Success => 200,
            HttpStatus::BadRequest => 400,
            HttpStatus::NotFound => 404,
            HttpStatus::InternalServerError => 500,
            HttpStatus::ServiceUnavailable => 503,
        }
    }

    /// The number of the status.
    pub fn code(&self) -> (r: u16)
        ensures
            r == self.number(),
    {
        match self {
            HttpStatus::Success => 200,
            HttpStatus::BadRequest => 400,
            HttpStatus::NotFound => 404,
            HttpStatus::InternalServerError => 500,
            HttpStatus::ServiceUnavailable => 503,
        }
    }
}

/// What became of a command that was handed to the Raft loop.
#[derive(Debug, PartialEq, Eq)]
pub enum RaftReply {
    /// The command is committed at this index.
    Accepted(u64),
    /// The loop refused the command, or another entry took its place.
    Rejected(String),
    /// The command could not be handed to the loop.
    NotSent,
    /// The loop dropped the command without an answer, or the command was not committed in time.
    NoReply,
}

/// What to answer about the command that this node, as leader of `term`, appended at `index`:
/// it is accepted once it is committed. Nothing yet while it may still be committed in time.
pub fn proposal_reply(raft: &RaftNode, index: u64, term: u64, timed_out: bool) -> (r: Option<
    RaftReply,
>)
    ensures
        match node::proposal_state_of(raft.state@, index, term) {
            ProposalState::Committed => r == Some(RaftReply::Accepted(index)),
            ProposalState::Lost => r is Some && r->0 is Rejected && r->0->Rejected_0@
                == client_service::lost_text(),
            ProposalState::Pending => if timed_out {
                r == Some(RaftReply::NoReply)
            } else {
                r is None
            },
        },
        r == Some(RaftReply::Accepted(index)) ==> index <= raft.state@.commit_index,
{
    match raft.proposal_state(index, term) {
        ProposalState::Committed => Some(RaftReply::Accepted(index)),
        ProposalState::Lost => Some(
            RaftReply::Rejected("Entry was replaced by another leader".to_owned()),
        ),
        ProposalState::Pending => if timed_out {
            Some(RaftReply::NoReply)
        } else {
            None
        },
    }
}

// ---------------------------------------------------------------------------
// Health
// ---------------------------------------------------------------------------

/// The node is up.
#[derive(Debug)]
pub struct LiveResponse {
    pub status: &'static str,
}

/// The node knows a leader, or not.
#[derive(Debug)]
pub struct ReadyResponse {
    pub status: &'static str,
    pub leader_id: Option<u64>,
}

/// A node that answers is alive.
pub fn live_handler() -> (r: LiveResponse)
    ensures
        r.status@ == "ok"@,
{
    LiveResponse { status: "ok" }
}

/// A node that knows a leader is ready.
pub fn ready_handler(raft: &RaftNode) -> (r: (HttpStatus, ReadyResponse))
    ensures
        r.1.leader_id == node::known_leader(raft.state@, raft.id),
        if r.1.leader_id is Some {
            r.0 is Success && r.1.status@ == "ok"@
        } else {
            r.0 is ServiceUnavailable && r.1.status@ == "no_leader"@
        },
{
    let leader_id = raft.get_leader_id();
    if leader_id.is_some() {
        (HttpStatus::Success, ReadyResponse { status: "ok", leader_id })
    } else {
        (HttpStatus::ServiceUnavailable, ReadyResponse { status: "no_leader", leader_id: None })
    }
}

// ---------------------------------------------------------------------------
// The cluster
// ---------------------------------------------------------------------------

/// The state of the node, and the nodes of the cluster as it sees them.
#[derive(Debug)]
pub struct ClusterStatusResponse {
    pub node_id: u64,
    pub role: String,
    pub current_term: u64,
    pub leader_id: Option<u64>,
    pub commit_index: u64,
    pub last_applied: u64,
    pub log_length: u64,
    pub nodes: Vec<NodeInfo>,
}

/// The state of the node, and the nodes of the cluster as it sees them at `now`.
pub fn cluster_status_handler(raft: &RaftNode, now: Moment) -> (r: ClusterStatusResponse)
    ensures
        r.node_id == raft.id,
        r.role@ == raft.state@.role.text(),
        r.current_term == raft.state@.current_term,
        r.leader_id == node::known_leader(raft.state@, raft.id),
        r.commit_index == raft.state@.commit_index,
        r.last_applied == raft.state@.last_applied,
        r.log_length == raft.state@.last_index(),
        client_service::sorted_by_id(
            client::node_messages(r.nodes@),
            client_service::known_nodes(raft.config, *raft, now),
        ),
        r.nodes@.len() == raft.config.peers@.len() + 1,
{
    ClusterStatusResponse {
        node_id: raft.id,
        role: raft.state.role.to_string(),
        current_term: raft.state.current_term,
        leader_id: raft.get_leader_id(),
        commit_index: raft.state.commit_index,
        last_applied: raft.state.last_applied,
        log_length: raft.state.last_log_index(),
        nodes: cluster_nodes(&raft.config, raft, now),
    }
}

// ---------------------------------------------------------------------------
// The jobs
// ---------------------------------------------------------------------------

/// A job as the dashboard shows it.
#[derive(Debug)]
pub struct JobResponse {
    pub id: String,
    pub command: String,
    pub status: String,
    pub executed_by: Option<u64>,
    pub output: Option<String>,
    pub error: Option<String>,
    pub created_at: String,
    pub completed_at: Option<String>,
}

/// A job as the dashboard shows it, for the model.
#[verifier::ext_equal]
pub struct ShownJob {
    pub id: Seq<char>,
    pub command: Seq<char>,
    pub status: Seq<char>,
    pub executed_by: Option<u64>,
    pub output: Option<Seq<char>>,
    pub error: Option<Seq<char>>,
    pub created_at: Seq<char>,
    pub completed_at: Option<Seq<char>>,
}

impl View for JobResponse {
    type V = ShownJob;

    open spec fn view(&self) -> ShownJob {
        ShownJob {
            id: self.id@,
            command: self.command@,
            status: self.status@,
            executed_by: self.executed_by,
            output: text::opt_text(self.output),
            error: text::opt_text(self.error),
            created_at: self.created_at@,
            completed_at: text::opt_text(self.completed_at),
        }
    }
}

/// A job as the dashboard shows it.
pub open spec fn shown_job(job: JobView) -> ShownJob {
    ShownJob {
        id: ids::job_id_text(job.id),
        command: job.command,
        status: job.status.text(),
        executed_by: job.executed_by,
        output: job.output,
        error: job.error,
        created_at: clock::rfc3339_text(job.created_at.seconds, job.created_at.nanos),
        completed_at: match job.completed_at {
            Some(t) => Some(clock::rfc3339_text(t.seconds, t.nanos)),
            None => None,
        },
    }
}

/// A job as the dashboard shows it.
fn show_job(job: &Job) -> (r: JobResponse)
    requires
        job@.wf(),
    ensures
        r@ == shown_job(job@),
{
    JobResponse {
        id: job_id_to_string(job.id),
        command: job.command.clone(),
        status: job.status.to_string(),
        executed_by: job.executed_by,
        output: job.output.clone(),
        error: job.error.clone(),
        created_at: job.created_at.to_rfc3339(),
        completed_at: match &job.completed_at {
            Some(t) => Some(t.to_rfc3339()),
            None => None,
        },
    }
}

/// All jobs in the order of lists.
pub fn list_jobs_handler(queue: &JobQueue) -> (r: Vec<JobResponse>)
    requires
        queue.wf(),
    ensures
        r@.map_values(|job: JobResponse| job@) == listing::listing(queue@).map_values(
            |job: JobView| shown_job(job),
        ),
{
    let all = queue.all_jobs();
    let ghost views = listing::job_views(all@);
    let mut jobs: Vec<JobResponse> = Vec::new();
    for i in 0..all.len()
        invariant
            queue::jobs_wf(queue@),
            queue::lists_jobs(all@, queue@, queue::any_job()),
            views == listing::job_views(all@),
            jobs@.map_values(|job: JobResponse| job@) == views.take(i as int).map_values(
                |job: JobView| shown_job(job),
            ),
    {
        assert(queue@.contains_key(all@[i as int].id));
        let ghost before = jobs@;
        let shown = show_job(all[i]);
        jobs.push(shown);
        assert(jobs@.map_values(|job: JobResponse| job@) =~= before.map_values(
            |job: JobResponse| job@,
        ).push(shown@));
        assert(views.take(i + 1).map_values(|job: JobView| shown_job(job)) =~= views.take(
            i as int,
        ).map_values(|job: JobView| shown_job(job)).push(shown_job(views[i as int])));
    }
    assert(views.take(views.len() as int) =~= views);
    jobs
}

// ---------------------------------------------------------------------------
// Submitting a job
// ---------------------------------------------------------------------------

/// A job to be submitted.
#[derive(Debug)]
pub struct SubmitJobRequest {
    pub command: String,
}

/// Answer to a `SubmitJobRequest`.
#[derive(Debug)]
pub struct SubmitJobResponse {
    pub success: bool,
    pub job_id: Option<String>,
    pub error: Option<String>,
}

/// Why a request was refused: the status and the reason.
#[verifier::ext_equal]
pub struct Refused {
    pub status: HttpStatus,
    pub reason: Seq<char>,
}

/// The submission was refused just like this.
pub open spec fn submit_refused(r: (HttpStatus, SubmitJobResponse), with: Refused) -> bool {
    &&& r.0 == with.status
    &&& !r.1.success
    &&& r.1.job_id is None
    &&& text::opt_text(r.1.error) == Some(with.reason)
}

/// What a client reads whose command is too long.
pub open spec fn too_long_text() -> Seq<char> {
    "Command exceeds the maximum length of "@ + text::decimal(MAX_COMMAND_LEN as nat) + " bytes"@
}

/// Why a job is not taken: the node is being drained, the command is blank or too long, the node
/// is not the leader, or the queue is full. The first of these that holds is given.
pub open spec fn submit_refusal(
    s: StateView,
    full: bool,
    draining: bool,
    command: Seq<char>,
) -> Option<Refused> {
    if draining {
        Some(
            Refused {
                status: HttpStatus::ServiceUnavailable,
                reason: "Node is draining and not accepting new jobs"@,
            },
        )
    } else if text::blank(command) {
        Some(Refused { status: HttpStatus::BadRequest, reason: "Command cannot be empty"@ })
    } else if vstd::utf8::encode_utf8(command).len() > MAX_COMMAND_LEN {
        Some(Refused { status: HttpStatus::BadRequest, reason: too_long_text() })
    } else if !(s.role is Leader) {
        Some(Refused { status: HttpStatus::BadRequest, reason: "Not the leader"@ })
    } else if full {
        Some(
            Refused {
                status: HttpStatus::ServiceUnavailable,
                reason: "Job queue is at capacity"@,
            },
        )
    } else {
        None
    }
}

/// A refusal of a submission.
fn refuse_submission(status: HttpStatus, reason: String) -> (r: (HttpStatus, SubmitJobResponse))
    ensures
        submit_refused(r, Refused { status, reason: reason@ }),
{
    (status, SubmitJobResponse { success: false, job_id: None, error: Some(reason) })
}

/// Makes a job out of a request, and the command that submits it to the cluster. A full queue is
/// told of before the command reaches the log.
pub fn submit_job_handler(
    raft: &RaftNode,
    queue: &JobQueue,
    draining: bool,
    payload: SubmitJobRequest,
) -> (r: Result<(Job, Command), (HttpStatus, SubmitJobResponse)>)
    ensures
        match submit_refusal(
            raft.state@,
            queue@.len() >= queue.capacity(),
            draining,
            payload.command@,
        ) {
            Some(refusal) => r is Err && submit_refused(r->Err_0, refusal),
            None => {
                &&& r is Ok
                &&& r->Ok_0.0@ == job::fresh_job(
                    r->Ok_0.0.id,
                    payload.command@,
                    None,
                    r->Ok_0.0.created_at,
                )
                &&& r->Ok_0.0@.wf()
                &&& ids::drawn_at_random(r->Ok_0.0.id)
                &&& clock::read_from_wall_clock(r->Ok_0.0.created_at)
                &&& r->Ok_0.1@ == client_service::submission(r->Ok_0.0@)
            },
        },
{
    if draining {
        return Err(
            refuse_submission(
                HttpStatus::ServiceUnavailable,
                "Node is draining and not accepting new jobs".to_owned(),
            ),
        );
    }
    if is_blank(payload.command.as_str()) {
        return Err(
            refuse_submission(HttpStatus::BadRequest, "Command cannot be empty".to_owned()),
        );
    }
    if byte_len(payload.command.as_str()) > MAX_COMMAND_LEN {
        let reason = "Command exceeds the maximum length of ".to_owned().concat(
            decimal_text(MAX_COMMAND_LEN as u64).as_str(),
        ).concat(" bytes");
        return Err(refuse_submission(HttpStatus::BadRequest, reason));
    }
    if !raft.is_leader() {
        return Err(refuse_submission(HttpStatus::BadRequest, "Not the leader".to_owned()));
    }
    if queue.is_full() {
        return Err(
            refuse_submission(
                HttpStatus::ServiceUnavailable,
                "Job queue is at capacity".to_owned(),
            ),
        );
    }
    let job = Job::new(payload.command);
    let command = submit_command(&job);
    Ok((job, command))
}

/// Answers a submission once it is known what became of the command. A job whose command is
/// committed goes into the queue of this node, before the command is applied.
pub fn finish_submission(queue: &mut JobQueue, job: Job, reply: RaftReply) -> (r: (
    HttpStatus,
    SubmitJobResponse,
))
    requires
        old(queue).wf(),
        job@.wf(),
    ensures
        final(queue).wf(),
        final(queue).capacity() == old(queue).capacity(),
        match reply {
            RaftReply::Accepted(_) => if old(queue)@.len() < old(queue).capacity() {
                &&& r.0 is Success
                &&& r.1.success
                &&& text::opt_text(r.1.job_id) == Some(ids::job_id_text(job.id))
                &&& r.1.error is None
                &&& final(queue)@ == old(queue)@.insert(job.id, job@)
            } else {
                &&& submit_refused(
                    r,
                    Refused {
                        status: HttpStatus::ServiceUnavailable,
                        reason: "Job queue is at capacity"@,
                    },
                )
                &&& final(queue)@ == old(queue)@
            },
            RaftReply::Rejected(e) => {
                &&& submit_refused(r, Refused { status: HttpStatus::BadRequest, reason: e@ })
                &&& final(queue)@ == old(queue)@
            },
            RaftReply::NotSent => {
                &&& submit_refused(
                    r,
                    Refused {
                        status: HttpStatus::InternalServerError,
                        reason: "Failed to send to Raft"@,
                    },
                )
                &&& final(queue)@ == old(queue)@
            },
            RaftReply::NoReply => {
                &&& submit_refused(
                    r,
                    Refused {
                        status: HttpStatus::InternalServerError,
                        reason: "Raft response failed"@,
                    },
                )
                &&& final(queue)@ == old(queue)@
            },
        },
{
    match reply {
        RaftReply::Accepted(_) => {
            let job_id = job_id_to_string(job.id);
            if !queue.add_job(job) {
                return refuse_submission(
                    HttpStatus::ServiceUnavailable,
                    "Job queue is at capacity".to_owned(),
                );
            }
            (
                HttpStatus::Success,
                SubmitJobResponse { success: true, job_id: Some(job_id), error: None },
            )
        },
        RaftReply::Rejected(e) => refuse_submission(HttpStatus::BadRequest, e),
        RaftReply::NotSent => refuse_submission(
            HttpStatus::InternalServerError,
            "Failed to send to Raft".to_owned(),
        ),
        RaftReply::NoReply => refuse_submission(
            HttpStatus::InternalServerError,
            "Raft response failed".to_owned(),
        ),
    }
}

// ---------------------------------------------------------------------------
// Cancelling a job
// ---------------------------------------------------------------------------

/// Answer to a request to cancel a job.
#[derive(Debug)]
pub struct CancelJobResponse {
    pub success: bool,
    pub error: Option<String>,
}

/// The cancellation was refused just like this.
pub open spec fn cancel_refused(r: (HttpStatus, CancelJobResponse), with: Refused) -> bool {
    &&& r.0 == with.status
    &&& !r.1.success
    &&& text::opt_text(r.1.error) == Some(with.reason)
}

/// Why a job is not cancelled: the identifier is malformed, the node is not the leader, the job
/// is unknown, or it has ended. The first of these that holds is given.
pub open spec fn cancel_refusal(
    s: StateView,
    jobs: Map<JobId, JobView>,
    job_id: Option<JobId>,
) -> Option<Refused> {
    match job_id {
        None => Some(Refused { status: HttpStatus::BadRequest, reason: "invalid job id"@ }),
        Some(id) => if !(s.role is Leader) {
            Some(Refused { status: HttpStatus::BadRequest, reason: "not the leader"@ })
        } else if !jobs.contains_key(id) {
            Some(Refused { status: HttpStatus::NotFound, reason: "job not found"@ })
        } else if !jobs[id].status.active() {
            Some(
                Refused {
                    status: HttpStatus::BadRequest,
                    reason: "job is already "@ + jobs[id].status.text(),
                },
            )
        } else {
            None
        },
    }
}

/// A refusal of a cancellation.
fn refuse_cancellation(status: HttpStatus, reason: String) -> (r: (HttpStatus, CancelJobResponse))
    ensures
        cancel_refused(r, Refused { status, reason: reason@ }),
{
    (status, CancelJobResponse { success: false, error: Some(reason) })
}

/// The job to cancel, once its identifier is read.
pub fn cancel_parsed(raft: &RaftNode, queue: &JobQueue, job_id: Option<JobId>) -> (r: Result<
    JobId,
    (HttpStatus, CancelJobResponse),
>)
    ensures
        match cancel_refusal(raft.state@, queue@, job_id) {
            Some(refusal) => r is Err && cancel_refused(r->Err_0, refusal),
            None => r is Ok && job_id == Some(r->Ok_0),
        },
{
    let job_id = match job_id {
        None => {
            return Err(
                refuse_cancellation(HttpStatus::BadRequest, "invalid job id".to_owned()),
            );
        },
        Some(job_id) => job_id,
    };
    if !raft.is_leader() {
        return Err(refuse_cancellation(HttpStatus::BadRequest, "not the leader".to_owned()));
    }
    match queue.get_job(&job_id) {
        None => Err(refuse_cancellation(HttpStatus::NotFound, "job not found".to_owned())),
        Some(job) => {
            if !job.status.is_active() {
                let reason = "job is already ".to_owned().concat(job.status.to_string().as_str());
                return Err(refuse_cancellation(HttpStatus::BadRequest, reason));
            }
            Ok(job_id)
        },
    }
}

/// The command that cancels the job with this identifier.
pub fn cancel_job_handler(raft: &RaftNode, queue: &JobQueue, id: &str) -> (r: Result<
    Command,
    (HttpStatus, CancelJobResponse),
>)
    ensures
        match cancel_refusal(raft.state@, queue@, ids::parsed_job_id(id@)) {
            Some(refusal) => r is Err && cancel_refused(r->Err_0, refusal),
            None => r is Ok && r->Ok_0@ == (CommandView::CancelJob {
                job_id: ids::parsed_job_id(id@)->0,
            }),
        },
{
    match cancel_parsed(raft, queue, parse_job_id(id)) {
        Ok(job_id) => Ok(Command::CancelJob { job_id }),
        Err(refusal) => Err(refusal),
    }
}

/// Answers a cancellation once it is known what the Raft loop said.
pub fn finish_cancellation(reply: RaftReply) -> (r: (HttpStatus, CancelJobResponse))
    ensures
        match reply {
            RaftReply::Accepted(_) => r.0 is Success && r.1.success && r.1.error is None,
            RaftReply::Rejected(e) => cancel_refused(
                r,
                Refused { status: HttpStatus::BadRequest, reason: e@ },
            ),
            RaftReply::NotSent => cancel_refused(
                r,
                Refused {
                    status: HttpStatus::InternalServerError,
                    reason: "failed to send to Raft"@,
                },
            ),
            RaftReply::NoReply => cancel_refused(
                r,
                Refused {
                    status: HttpStatus::InternalServerError,
                    reason: "Raft response failed"@,
                },
            ),
        },
{
    match reply {
        RaftReply::Accepted(_) => (
            HttpStatus::Success,
            CancelJobResponse { success: true, error: None },
        ),
        RaftReply::Rejected(e) => refuse_cancellation(HttpStatus::BadRequest, e),
        RaftReply::NotSent => refuse_cancellation(
            HttpStatus::InternalServerError,
            "failed to send to Raft".to_owned(),
        ),
        RaftReply::NoReply => refuse_cancellation(
            HttpStatus::InternalServerError,
            "Raft response failed".to_owned(),
        ),
    }
}

} // verus!
