use crate::clock;
use crate::clock::Moment;
use crate::config::{NodeConfig, PeerConfig};
use crate::grpc::status;
use crate::grpc::status::{Code, Refusal, Status};
use crate::ids;
use crate::ids::{job_id_to_string, parse_job_id, JobId};
use crate::lemmas;
use crate::proto;
use crate::proto::client;
use crate::proto::client::{
    or_empty, JobInfoMessage, JobPage, JobStatusMessage, LogEntryMessage, NodeMessage,
    SubmitJobMessage,
};
use crate::proto::{
    CancelJobRequest, CancelJobResponse, DrainNodeResponse, GetClusterStatusResponse,
    GetJobOutputResponse, GetJobStatusRequest, GetJobStatusResponse, GetRaftLogEntriesRequest,
    GetRaftLogEntriesResponse, JobInfo, ListJobsRequest, ListJobsResponse, NodeInfo,
    RaftLogEntryInfo, StreamJobsRequest, SubmitJobRequest, SubmitJobResponse,
    TransferLeadershipRequest, TransferLeadershipResponse,
};
use crate::raft::node;
use crate::raft::node::{ProposalState, RaftMessage, RaftNode};
use crate::raft::rpc;
use crate::raft::rpc::{internal_status_to_proto, log_entry_to_proto, millis_of};
use crate::raft::state;
use crate::raft::state::{Command, CommandView, EntryView, StateView};
use crate::scheduler::job;
use crate::scheduler::job::{Job, JobStatus, JobView};
use crate::scheduler::listing;
use crate::scheduler::queue::JobQueue;
use crate::text;
use crate::text::{contains_text, decimal_text, is_blank, parse_number, to_lowercase};
use vstd::prelude::*;
use vstd::string::*;

verus! {

broadcast use vstd::std_specs::hash::group_hash_axioms;

/// How many commands may wait for the Raft loop.
pub const PROPOSAL_QUEUE_LEN: usize = 256;

/// Milliseconds within which a command has to be answered.
pub const PROPOSAL_TIMEOUT_MS: u64 = 5000;

/// Number of items on a page unless told otherwise.
pub const DEFAULT_PAGE_SIZE: u32 = 100;

/// Number of items that a page holds at most.
pub const MAX_PAGE_SIZE: u32 = 1000;

/// The client-facing service of a node.
#[derive(Debug)]
pub struct ClientService {
    pub config: NodeConfig,
    /// Whether other nodes are reached over TLS.
    pub secure: bool,
}

// ---------------------------------------------------------------------------
// Proposals
// ---------------------------------------------------------------------------

/// What became of a command that was handed to the Raft loop.
#[derive(Debug, PartialEq, Eq)]
pub enum ProposalOutcome {
    /// The command is committed at this index.
    Accepted(u64),
    /// The loop refused the command, or another entry took its place.
    Rejected(String),
    /// Too many commands wait already.
    QueueFull,
    /// The loop has stopped.
    Stopped,
    /// The command was not committed in time.
    TimedOut,
    /// The loop dropped the command without an answer.
    Unanswered,
}

/// The refusal that an outcome other than acceptance leads to.
pub open spec fn proposal_refusal(outcome: ProposalOutcome) -> Option<Refusal> {
    match outcome {
        ProposalOutcome::Accepted(_) => None,
        ProposalOutcome::Rejected(e) => Some(
            status::refusal(Code::Internal, "Raft error: "@ + e@),
        ),
        ProposalOutcome::QueueFull => Some(
            status::refusal(Code::ResourceExhausted, "Too many pending proposals, retry later"@),
        ),
        ProposalOutcome::Stopped => Some(
            status::refusal(Code::Unavailable, "Failed to send command to Raft"@),
        ),
        ProposalOutcome::TimedOut => Some(
            status::refusal(Code::DeadlineExceeded, "Raft did not answer in time"@),
        ),
        ProposalOutcome::Unanswered => Some(
            status::refusal(Code::Internal, "Failed to receive Raft response"@),
        ),
    }
}

/// Why a command failed whose place another entry took.
pub open spec fn lost_text() -> Seq<char> {
    "Entry was replaced by another leader"@
}

/// What to answer about the command that this node, as leader of `term`, appended at `index`:
/// it is accepted once it is committed. Nothing yet while it may still be committed in time.
pub fn proposal_outcome(raft: &RaftNode, index: u64, term: u64, timed_out: bool) -> (r: Option<
    ProposalOutcome,
>)
    ensures
        match node::proposal_state_of(raft.state@, index, term) {
            ProposalState::Committed => r == Some(ProposalOutcome::Accepted(index)),
            ProposalState::Lost => r is Some && r->0 is Rejected && r->0->Rejected_0@
                == lost_text(),
            ProposalState::Pending => if timed_out {
                r == Some(ProposalOutcome::TimedOut)
            } else {
                r is None
            },
        },
        r == Some(ProposalOutcome::Accepted(index)) ==> index <= raft.state@.commit_index,
{
    match raft.proposal_state(index, term) {
        ProposalState::Committed => Some(ProposalOutcome::Accepted(index)),
        ProposalState::Lost => Some(
            ProposalOutcome::Rejected("Entry was replaced by another leader".to_owned()),
        ),
        ProposalState::Pending => if timed_out {
            Some(ProposalOutcome::TimedOut)
        } else {
            None
        },
    }
}

/// The index at which a command was committed, or the refusal of the request.
pub fn proposal_answer(outcome: ProposalOutcome) -> (r: Result<u64, Status>)
    ensures
        match proposal_refusal(outcome) {
            Some(refusal) => status::refused(r, refusal),
            None => r matches Ok(index) && outcome == ProposalOutcome::Accepted(index),
        },
{
    match outcome {
        ProposalOutcome::Accepted(index) => Ok(index),
        ProposalOutcome::Rejected(e) => Err(
            Status {
                code: Code::Internal,
                message: "Raft error: ".to_owned().concat(e.as_str()),
            },
        ),
        ProposalOutcome::QueueFull => Err(
            Status::new(Code::ResourceExhausted, "Too many pending proposals, retry later"),
        ),
        ProposalOutcome::Stopped => Err(
            Status::new(Code::Unavailable, "Failed to send command to Raft"),
        ),
        ProposalOutcome::TimedOut => Err(
            Status::new(Code::DeadlineExceeded, "Raft did not answer in time"),
        ),
        ProposalOutcome::Unanswered => Err(
            Status::new(Code::Internal, "Failed to receive Raft response"),
        ),
    }
}

/// What a node that is not the leader says to a request that only the leader can serve.
pub open spec fn not_leader_message(leader: Option<u64>) -> Seq<char> {
    match leader {
        Some(id) => "Not the leader. Redirect to node "@ + text::decimal(id as nat),
        None => "Not the leader. Leader unknown, retry later"@,
    }
}

/// The refusal of a request that only the leader can serve.
fn not_leader(leader: Option<u64>) -> (r: Status)
    ensures
        r@ == status::refusal(Code::FailedPrecondition, not_leader_message(leader)),
{
    let message = match leader {
        Some(id) => "Not the leader. Redirect to node ".to_owned().concat(
            decimal_text(id).as_str(),
        ),
        None => "Not the leader. Leader unknown, retry later".to_owned(),
    };
    Status { code: Code::FailedPrecondition, message }
}

// ---------------------------------------------------------------------------
// Submitting a job
// ---------------------------------------------------------------------------

/// Why a job is not taken: the node is being drained, the command is blank, or the node is not
/// the leader. The first of these that holds is given.
pub open spec fn submit_refusal(
    s: StateView,
    id: u64,
    draining: bool,
    command: Seq<char>,
) -> Option<Refusal> {
    if draining {
        Some(
            status::refusal(Code::Unavailable, "Node is draining and not accepting new jobs"@),
        )
    } else if text::blank(command) {
        Some(status::refusal(Code::InvalidArgument, "Command cannot be empty"@))
    } else if !(s.role is Leader) {
        Some(
            status::refusal(
                Code::FailedPrecondition,
                not_leader_message(node::known_leader(s, id)),
            ),
        )
    } else {
        None
    }
}

/// The command that submits a job.
pub open spec fn submission(job: JobView) -> CommandView {
    CommandView::SubmitJob {
        job_id: job.id,
        command: job.command,
        image: job.image,
        created_at: job.created_at,
    }
}

/// The command that submits a job.
pub fn submit_command(job: &Job) -> (r: Command)
    ensures
        r@ == submission(job@),
{
    Command::SubmitJob {
        job_id: job.id,
        command: job.command.clone(),
        image: job.image.clone(),
        created_at: job.created_at,
    }
}

/// The answer to an accepted job.
pub open spec fn accepted_job(job: JobView) -> SubmitJobMessage {
    SubmitJobMessage {
        job_id: ids::job_id_text(job.id),
        created_at_ms: job.created_at.millis() as i64,
    }
}

/// The refusal of a job for which the queue has no room.
pub open spec fn queue_full_refusal() -> Refusal {
    status::refusal(Code::ResourceExhausted, "Job queue is at capacity"@)
}

impl ClientService {
    /// A service for a node with these settings.
    pub fn new(config: NodeConfig, secure: bool) -> (r: Self)
        ensures
            r.config == config,
            r.secure == secure,
    {
        ClientService { config, secure }
    }

    /// Makes a job out of a request, and the command that submits it to the cluster.
    pub fn submit_job(&self, raft: &RaftNode, draining: bool, req: SubmitJobRequest) -> (r: Result<
        (Job, Command),
        Status,
    >)
        ensures
            match submit_refusal(raft.state@, raft.id, draining, req.command@) {
                Some(refusal) => status::refused(r, refusal),
                None => {
                    &&& r is Ok
                    &&& r->Ok_0.0@ == job::fresh_job(
                        r->Ok_0.0.id,
                        req.command@,
                        text::opt_text(req.image),
                        r->Ok_0.0.created_at,
                    )
                    &&& r->Ok_0.0@.wf()
                    &&& ids::drawn_at_random(r->Ok_0.0.id)
                    &&& clock::read_from_wall_clock(r->Ok_0.0.created_at)
                    &&& r->Ok_0.1@ == submission(r->Ok_0.0@)
                },
            },
    {
        if draining {
            return Err(
                Status::new(Code::Unavailable, "Node is draining and not accepting new jobs"),
            );
        }
        if is_blank(req.command.as_str()) {
            return Err(Status::new(Code::InvalidArgument, "Command cannot be empty"));
        }
        if !raft.is_leader() {
            return Err(not_leader(raft.get_leader_id()));
        }
        let job = Job::new(req.command).with_image(req.image);
        let command = submit_command(&job);
        Ok((job, command))
    }

    /// Answers a submission once it is known what became of the command. A job whose command is
    /// committed goes into the queue of this node, before the command is applied.
    pub fn finish_submission(&self, queue: &mut JobQueue, job: Job, outcome: ProposalOutcome) -> (r:
        Result<SubmitJobResponse, Status>)
        requires
            old(queue).wf(),
            job@.wf(),
        ensures
            final(queue).wf(),
            final(queue).capacity() == old(queue).capacity(),
            match proposal_refusal(outcome) {
                Some(refusal) => status::refused(r, refusal) && final(queue)@ == old(queue)@,
                None => if old(queue)@.len() < old(queue).capacity() {
                    &&& r matches Ok(answer) && answer@ == accepted_job(job@)
                    &&& final(queue)@ == old(queue)@.insert(job.id, job@)
                } else {
                    &&& status::refused(r, queue_full_refusal())
                    &&& final(queue)@ == old(queue)@
                },
            },
    {
        match proposal_answer(outcome) {
            Err(status) => Err(status),
            Ok(_) => {
                let job_id = job_id_to_string(job.id);
                let created_at_ms: i64 = job.created_at.timestamp_millis();
                if !queue.add_job(job) {
                    return Err(Status::new(Code::ResourceExhausted, "Job queue is at capacity"));
                }
                Ok(SubmitJobResponse { job_id, created_at_ms })
            },
        }
    }
}

// ---------------------------------------------------------------------------
// Cancelling a job
// ---------------------------------------------------------------------------

/// Why a job is not cancelled: the identifier is malformed, the node is not the leader, the job
/// is unknown, or it has ended. The first of these that holds is given.
pub open spec fn cancel_refusal(
    s: StateView,
    id: u64,
    jobs: Map<JobId, JobView>,
    job_id: Option<JobId>,
) -> Option<Refusal> {
    match job_id {
        None => Some(status::refusal(Code::InvalidArgument, "Invalid job ID"@)),
        Some(job_id) => if !(s.role is Leader) {
            Some(
                status::refusal(
                    Code::FailedPrecondition,
                    not_leader_message(node::known_leader(s, id)),
                ),
            )
        } else if !jobs.contains_key(job_id) {
            Some(status::refusal(Code::NotFound, "Job not found"@))
        } else if !jobs[job_id].status.active() {
            Some(
                status::refusal(
                    Code::FailedPrecondition,
                    "job is already "@ + jobs[job_id].status.text(),
                ),
            )
        } else {
            None
        },
    }
}

/// What a client reads when its job was cancelled.
pub open spec fn cancelled_message(job_id: JobId) -> Seq<char> {
    "job "@ + ids::job_id_text(job_id) + " cancelled"@
}

impl ClientService {
    /// The job that a request asks to cancel, once its identifier is read.
    pub fn cancel_parsed(&self, raft: &RaftNode, queue: &JobQueue, job_id: Option<JobId>) -> (r:
        Result<JobId, Status>)
        ensures
            match cancel_refusal(raft.state@, raft.id, queue@, job_id) {
                Some(refusal) => status::refused(r, refusal),
                None => r matches Ok(id) && job_id == Some(id),
            },
    {
        match job_id {
            None => Err(Status::new(Code::InvalidArgument, "Invalid job ID")),
            Some(job_id) => {
                if !raft.is_leader() {
                    return Err(not_leader(raft.get_leader_id()));
                }
                match queue.get_job(&job_id) {
                    None => Err(Status::new(Code::NotFound, "Job not found")),
                    Some(job) => {
                        if !job.status.is_active() {
                            return Err(
                                Status {
                                    code: Code::FailedPrecondition,
                                    message: "job is already ".to_owned().concat(
                                        job.status.to_string().as_str(),
                                    ),
                                },
                            );
                        }
                        Ok(job_id)
                    },
                }
            },
        }
    }

    /// The command that cancels the job of a request.
    pub fn cancel_job(&self, raft: &RaftNode, queue: &JobQueue, req: &CancelJobRequest) -> (r:
        Result<Command, Status>)
        ensures
            match cancel_refusal(
                raft.state@,
                raft.id,
                queue@,
                ids::parsed_job_id(req.job_id@),
            ) {
                Some(refusal) => status::refused(r, refusal),
                None => r matches Ok(command) && command@ == (CommandView::CancelJob {
                    job_id: ids::parsed_job_id(req.job_id@)->0,
                }),
            },
    {
        match self.cancel_parsed(raft, queue, parse_job_id(req.job_id.as_str())) {
            Ok(job_id) => Ok(Command::CancelJob { job_id }),
            Err(status) => Err(status),
        }
    }

    /// Answers a cancellation once it is known what became of the command.
    pub fn finish_cancellation(&self, job_id: JobId, outcome: ProposalOutcome) -> (r: Result<
        CancelJobResponse,
        Status,
    >)
        ensures
            match proposal_refusal(outcome) {
                Some(refusal) => status::refused(r, refusal),
                None => r matches Ok(answer) && answer.success && answer.message@
                    == cancelled_message(job_id),
            },
    {
        match proposal_answer(outcome) {
            Err(status) => Err(status),
            Ok(_) => Ok(
                CancelJobResponse {
                    success: true,
                    message: "job ".to_owned().concat(job_id_to_string(job_id).as_str()).concat(
                        " cancelled",
                    ),
                },
            ),
        }
    }
}

// ---------------------------------------------------------------------------
// The state of a job
// ---------------------------------------------------------------------------

/// The number, 0 where there is none.
pub open spec fn or_zero(n: Option<u64>) -> u64 {
    match n {
        Some(n) => n,
        None => 0,
    }
}

/// The number, 0 where there is none.
fn number_or_zero(n: Option<u64>) -> (r: u64)
    ensures
        r == or_zero(n),
{
    match n {
        Some(n) => n,
        None => 0,
    }
}

/// The state of a job with what it printed.
pub open spec fn job_status_message(job: JobView, output: Seq<char>, error: Seq<char>) ->
    JobStatusMessage {
    JobStatusMessage {
        job_id: ids::job_id_text(job.id),
        status: rpc::wire_status(job.status).number(),
        output,
        error,
        assigned_worker: or_zero(job.assigned_worker),
        executed_by: or_zero(job.executed_by),
        exit_code: job.exit_code,
        created_at_ms: job.created_at.millis() as i64,
        completed_at_ms: rpc::opt_millis(job.completed_at),
    }
}

/// The node to ask for what a job printed: another node that ran the job to its end.
pub open spec fn output_holder(job: JobView, node_id: u64) -> Option<u64> {
    match job.executed_by {
        Some(by) => if by != node_id && (job.status is Completed || job.status is Failed) {
            Some(by)
        } else {
            None
        },
        None => None,
    }
}

/// The state of a job as far as this node knows it: what the job printed is known on the node
/// that ran it.
pub open spec fn local_status(job: JobView, node_id: u64) -> JobStatusMessage {
    if job.executed_by == Some(node_id) {
        job_status_message(
            job,
            client::text_or_empty(job.output),
            client::text_or_empty(job.error),
        )
    } else {
        job_status_message(job, Seq::empty(), Seq::empty())
    }
}

/// Why there is no answer about a job: the identifier is malformed, or the job is unknown.
pub open spec fn lookup_refusal(jobs: Map<JobId, JobView>, job_id: Option<JobId>) -> Option<Refusal> {
    match job_id {
        None => Some(status::refusal(Code::InvalidArgument, "Invalid job ID"@)),
        Some(id) => if jobs.contains_key(id) {
            None
        } else {
            Some(status::refusal(Code::NotFound, "Job not found"@))
        },
    }
}

impl ClientService {
    /// The state of a job, once its identifier is read, and the node to ask for what it printed.
    pub fn job_status(&self, queue: &JobQueue, job_id: Option<JobId>) -> (r: Result<
        (GetJobStatusResponse, Option<u64>),
        Status,
    >)
        requires
            queue.wf(),
        ensures
            match lookup_refusal(queue@, job_id) {
                Some(refusal) => status::refused(r, refusal),
                None => {
                    &&& r is Ok
                    &&& r->Ok_0.0@ == local_status(queue@[job_id->0], self.config.node_id)
                    &&& r->Ok_0.1 == output_holder(queue@[job_id->0], self.config.node_id)
                },
            },
    {
        let job_id = match job_id {
            None => {
                return Err(Status::new(Code::InvalidArgument, "Invalid job ID"));
            },
            Some(job_id) => job_id,
        };
        let job = match queue.get_job(&job_id) {
            None => {
                return Err(Status::new(Code::NotFound, "Job not found"));
            },
            Some(job) => job,
        };
        assert(queue@.contains_key(job_id));
        let ended = job.status == JobStatus::Completed || job.status == JobStatus::Failed;
        let mut output = String::new();
        let mut error = String::new();
        let mut holder: Option<u64> = None;
        assert(output@ =~= Seq::<char>::empty());
        assert(error@ =~= Seq::<char>::empty());
        match job.executed_by {
            Some(by) => {
                if by == self.config.node_id {
                    output = or_empty(&job.output);
                    error = or_empty(&job.error);
                } else if ended {
                    holder = Some(by);
                }
            },
            None => {},
        }
        let answer = GetJobStatusResponse {
            job_id: job_id_to_string(job.id),
            status: internal_status_to_proto(&job.status).to_number(),
            output,
            error,
            assigned_worker: number_or_zero(job.assigned_worker),
            executed_by: number_or_zero(job.executed_by),
            exit_code: job.exit_code,
            created_at_ms: job.created_at.timestamp_millis(),
            completed_at_ms: millis_of(&job.completed_at),
        };
        Ok((answer, holder))
    }

    /// The state of the job of a request, and the node to ask for what it printed.
    pub fn get_job_status(&self, queue: &JobQueue, req: &GetJobStatusRequest) -> (r: Result<
        (GetJobStatusResponse, Option<u64>),
        Status,
    >)
        requires
            queue.wf(),
        ensures
            match lookup_refusal(queue@, ids::parsed_job_id(req.job_id@)) {
                Some(refusal) => status::refused(r, refusal),
                None => {
                    let job = queue@[ids::parsed_job_id(req.job_id@)->0];
                    &&& r is Ok
                    &&& r->Ok_0.0@ == local_status(job, self.config.node_id)
                    &&& r->Ok_0.1 == output_holder(job, self.config.node_id)
                },
            },
    {
        self.job_status(queue, parse_job_id(req.job_id.as_str()))
    }

    /// What a job printed, out of the answer of the node that ran it.
    pub fn fetched_output(answer: GetJobOutputResponse) -> (r: Result<(String, String), Status>)
        ensures
            if answer.found {
                r == Ok::<(String, String), Status>((answer.output, answer.error))
            } else {
                status::refused(
                    r,
                    status::refusal(Code::NotFound, "Output not found on executing node"@),
                )
            },
    {
        if answer.found {
            Ok((answer.output, answer.error))
        } else {
            Err(Status::new(Code::NotFound, "Output not found on executing node"))
        }
    }

    /// The state of a job, completed by what it printed where that could be fetched.
    pub fn with_output(
        answer: GetJobStatusResponse,
        fetched: Result<(String, String), Status>,
    ) -> (r: GetJobStatusResponse)
        ensures
            r@ == (match fetched {
                Ok(texts) => JobStatusMessage { output: texts.0@, error: texts.1@, ..answer@ },
                Err(_) => answer@,
            }),
    {
        let mut answer = answer;
        match fetched {
            Ok((output, error)) => {
                answer.output = output;
                answer.error = error;
            },
            Err(_) => {},
        }
        answer
    }
}

// ---------------------------------------------------------------------------
// Lists of jobs
// ---------------------------------------------------------------------------

/// A job as it stands in lists.
pub open spec fn job_info(job: JobView) -> JobInfoMessage {
    JobInfoMessage {
        job_id: ids::job_id_text(job.id),
        command: job.command,
        status: rpc::wire_status(job.status).number(),
        assigned_worker: or_zero(job.assigned_worker),
        created_at_ms: job.created_at.millis() as i64,
        completed_at_ms: rpc::opt_millis(job.completed_at),
    }
}

/// The jobs as they stand in lists.
pub open spec fn infos_of(jobs: Seq<JobView>) -> Seq<JobInfoMessage> {
    jobs.map_values(|job: JobView| job_info(job))
}

/// A job as it stands in lists.
pub fn job_to_info(job: &Job) -> (r: JobInfo)
    requires
        job@.wf(),
    ensures
        r@ == job_info(job@),
{
    JobInfo {
        job_id: job_id_to_string(job.id),
        command: job.command.clone(),
        status: internal_status_to_proto(&job.status).to_number(),
        assigned_worker: number_or_zero(job.assigned_worker),
        created_at_ms: job.created_at.timestamp_millis(),
        completed_at_ms: millis_of(&job.completed_at),
    }
}

/// The job is in the status that the number stands for. `Unspecified`, and a number that stands
/// for no status, let every job through.
pub open spec fn status_passes(filter: i32, status: JobStatus) -> bool {
    match proto::JobStatus::of_number(filter) {
        Some(wanted) => wanted is Unspecified || rpc::wire_status(status) == wanted,
        None => true,
    }
}

/// The jobs in the status that the number stands for.
pub open spec fn in_status(filter: i32) -> spec_fn(JobView) -> bool {
    |job: JobView| status_passes(filter, job.status)
}

/// Tells whether a job in this status passes a filter.
fn passes_status(filter: i32, status: &JobStatus) -> (r: bool)
    ensures
        r == status_passes(filter, *status),
{
    match proto::JobStatus::from_number(filter) {
        Some(wanted) => {
            wanted == proto::JobStatus::Unspecified || internal_status_to_proto(status) == wanted
        },
        None => true,
    }
}

/// Which jobs a client wants to see. A filter that is 0 or empty lets every job through.
#[verifier::ext_equal]
pub struct JobFilter {
    pub status: i32,
    pub worker: u64,
    pub command: Seq<char>,
    pub created_after_ms: i64,
    pub created_before_ms: i64,
}

/// The filters of a request.
pub open spec fn filter_of(req: ListJobsRequest) -> JobFilter {
    JobFilter {
        status: req.status_filter,
        worker: req.worker_id_filter,
        command: req.command_filter@,
        created_after_ms: req.created_after_ms,
        created_before_ms: req.created_before_ms,
    }
}

/// The job passes every filter. Its command, and the part of a command that is looked for, are
/// given in lower case.
pub open spec fn passes_with(
    filter: JobFilter,
    job: JobView,
    command: Seq<char>,
    wanted: Seq<char>,
) -> bool {
    &&& status_passes(filter.status, job.status)
    &&& filter.worker == 0 || job.assigned_worker == Some(filter.worker) || job.executed_by
        == Some(filter.worker)
    &&& filter.command.len() == 0 || text::occurs_in(command, wanted)
    &&& filter.created_after_ms == 0 || job.created_at.millis() >= filter.created_after_ms
    &&& filter.created_before_ms == 0 || job.created_at.millis() <= filter.created_before_ms
}

/// The jobs that pass every filter; the case of letters in commands does not matter.
pub open spec fn passing(filter: JobFilter) -> spec_fn(JobView) -> bool {
    |job: JobView|
        passes_with(
            filter,
            job,
            text::lowercase(job.command),
            text::lowercase(filter.command),
        )
}

/// Tells whether a worker has to do with a job.
fn is_of_worker(job: &Job, worker: u64) -> (r: bool)
    ensures
        r == (job.assigned_worker == Some(worker) || job.executed_by == Some(worker)),
{
    let assigned = match job.assigned_worker {
        Some(id) => id == worker,
        None => false,
    };
    let executed = match job.executed_by {
        Some(id) => id == worker,
        None => false,
    };
    assigned || executed
}

/// Tells whether a job passes the filters of a request. Its command, and the part of a command
/// that is looked for, are given in lower case.
pub fn job_passes(job: &Job, req: &ListJobsRequest, command: &str, wanted: &str) -> (r: bool)
    requires
        job@.wf(),
    ensures
        r == passes_with(filter_of(*req), job@, command@, wanted@),
{
    let created: i64 = job.created_at.timestamp_millis();
    passes_status(req.status_filter, &job.status) && (req.worker_id_filter == 0 || is_of_worker(
        job,
        req.worker_id_filter,
    )) && (req.command_filter.as_str().is_empty() || contains_text(command, wanted)) && (
    req.created_after_ms == 0 || created >= req.created_after_ms) && (req.created_before_ms == 0
        || created <= req.created_before_ms)
}

/// The number of items on a page for the number asked for.
pub open spec fn page_len(requested: u32) -> u32 {
    if requested == 0 {
        DEFAULT_PAGE_SIZE
    } else if requested > MAX_PAGE_SIZE {
        MAX_PAGE_SIZE
    } else {
        requested
    }
}

/// The number of items on a page for the number asked for.
fn page_len_of(requested: u32) -> (r: u32)
    ensures
        r == page_len(requested),
{
    if requested == 0 {
        DEFAULT_PAGE_SIZE
    } else if requested > MAX_PAGE_SIZE {
        MAX_PAGE_SIZE
    } else {
        requested
    }
}

/// Where the page with this token starts.
pub open spec fn page_start(token: Seq<char>) -> Option<nat> {
    if token.len() == 0 {
        Some(0)
    } else {
        text::parsed_number(token, usize::MAX as nat)
    }
}

/// The smaller of two numbers.
pub open spec fn least(a: nat, b: nat) -> nat {
    if a <= b {
        a
    } else {
        b
    }
}

/// The jobs on the page of `size` jobs that starts after `offset` jobs.
pub open spec fn page_jobs(matching: Seq<JobView>, offset: nat, size: nat) -> Seq<JobView> {
    let from = least(offset, matching.len());
    matching.subrange(from as int, least(from + size, matching.len()) as int)
}

/// The page of `size` jobs that starts after `offset` jobs, with the token of the page after it.
pub open spec fn job_page(matching: Seq<JobView>, offset: nat, size: nat) -> JobPage {
    let shown = page_jobs(matching, offset, size);
    let total = matching.len() as u32;
    JobPage {
        jobs: infos_of(shown),
        next_page_token: if offset + shown.len() < total {
            text::decimal(offset + shown.len())
        } else {
            Seq::empty()
        },
        total_count: total,
    }
}

/// The jobs that pass the filters, in the order of lists.
pub open spec fn matching_jobs(jobs: Map<JobId, JobView>, filter: JobFilter) -> Seq<JobView> {
    listing::listing(jobs).filter(passing(filter))
}

/// Picks the jobs that pass the filters of a request.
fn pick_jobs<'a>(all: &Vec<&'a Job>, req: &ListJobsRequest) -> (r: Vec<&'a Job>)
    requires
        forall|i: int| 0 <= i < all@.len() ==> (#[trigger] all@[i])@.wf(),
    ensures
        listing::job_views(r@) == listing::job_views(all@).filter(passing(filter_of(*req))),
        forall|i: int| 0 <= i < r@.len() ==> (#[trigger] r@[i])@.wf(),
{
    let wanted = to_lowercase(req.command_filter.as_str());
    let ghost views = listing::job_views(all@);
    let ghost which = passing(filter_of(*req));
    let mut picked: Vec<&Job> = Vec::new();
    for i in 0..all.len()
        invariant
            views == listing::job_views(all@),
            which == passing(filter_of(*req)),
            wanted@ == text::lowercase(req.command_filter@),
            listing::job_views(picked@) == views.take(i as int).filter(which),
            forall|k: int| 0 <= k < all@.len() ==> (#[trigger] all@[k])@.wf(),
            forall|k: int| 0 <= k < picked@.len() ==> (#[trigger] picked@[k])@.wf(),
    {
        proof {
            lemmas::filter_step(views, i as int, which);
        }
        let ghost before = picked@;
        let command = to_lowercase(all[i].command.as_str());
        if job_passes(all[i], req, command.as_str(), wanted.as_str()) {
            picked.push(all[i]);
            assert(listing::job_views(picked@) =~= listing::job_views(before).push(
                views[i as int],
            ));
        }
    }
    assert(views.take(views.len() as int) =~= views);
    picked
}

impl ClientService {
    /// A page of the jobs that pass the filters of a request.
    pub fn list_jobs(&self, queue: &JobQueue, req: &ListJobsRequest) -> (r: Result<
        ListJobsResponse,
        Status,
    >)
        requires
            queue.wf(),
        ensures
            match page_start(req.page_token@) {
                None => status::refused(
                    r,
                    status::refusal(Code::InvalidArgument, "Invalid page token"@),
                ),
                Some(offset) => r matches Ok(page) && page@ == job_page(
                    matching_jobs(queue@, filter_of(*req)),
                    offset,
                    page_len(req.page_size) as nat,
                ),
            },
            1 <= req.status_filter <= 5 ==> (r matches Ok(page) ==> forall|i: int|
                0 <= i < page.jobs@.len() ==> (#[trigger] page.jobs@[i]).status
                    == req.status_filter),
    {
        let size: usize = page_len_of(req.page_size) as usize;
        let offset: usize = if req.page_token.as_str().is_empty() {
            0
        } else {
            match parse_number(req.page_token.as_str(), usize::MAX as u64) {
                Some(offset) => offset as usize,
                None => {
                    return Err(Status::new(Code::InvalidArgument, "Invalid page token"));
                },
            }
        };
        let all = queue.all_jobs();
        proof {
            jobs_in_queue_wf(all@, queue@);
        }
        let matching = pick_jobs(&all, req);
        let ghost views = listing::job_views(matching@);
        proof {
            broadcast use vstd::seq_lib::group_filter_ensures;

            assert forall|k: int| 0 <= k < matching@.len() implies passing(filter_of(*req))(
                (#[trigger] matching@[k])@,
            ) by {
                assert(views[k] == matching@[k]@);
            }
        }
        let total_count: u32 = matching.len() as u32;
        let from: usize = if offset <= matching.len() {
            offset
        } else {
            matching.len()
        };
        let to: usize = if size <= matching.len() - from {
            from + size
        } else {
            matching.len()
        };
        let mut jobs: Vec<JobInfo> = Vec::new();
        for i in from..to
            invariant
                from <= to <= matching@.len(),
                views == listing::job_views(matching@),
                client::job_infos(jobs@) == infos_of(views.subrange(from as int, i as int)),
                forall|k: int| 0 <= k < matching@.len() ==> (#[trigger] matching@[k])@.wf(),
                forall|k: int|
                    0 <= k < matching@.len() ==> passing(filter_of(*req))(
                        (#[trigger] matching@[k])@,
                    ),
                1 <= req.status_filter <= 5 ==> forall|k: int|
                    0 <= k < jobs@.len() ==> (#[trigger] jobs@[k]).status == req.status_filter,
        {
            assert(passing(filter_of(*req))(matching@[i as int]@));
            let ghost before = jobs@;
            let info = job_to_info(matching[i]);
            jobs.push(info);
            assert(client::job_infos(jobs@) =~= client::job_infos(before).push(info@));
            assert(infos_of(views.subrange(from as int, i + 1)) =~= infos_of(
                views.subrange(from as int, i as int),
            ).push(job_info(views[i as int])));
        }
        let shown: usize = to - from;
        let next_page_token = if offset <= usize::MAX - shown && offset + shown
            < total_count as usize {
            decimal_text((offset + shown) as u64)
        } else {
            let none = String::new();
            assert(none@ =~= Seq::<char>::empty());
            none
        };
        Ok(ListJobsResponse { jobs, next_page_token, total_count })
    }

    /// The jobs in the status that a request asks for, in the order of lists.
    pub fn stream_jobs(&self, queue: &JobQueue, req: StreamJobsRequest) -> (r: Vec<JobInfo>)
        requires
            queue.wf(),
        ensures
            client::job_infos(r@) == infos_of(
                listing::listing(queue@).filter(
                    |job: JobView| status_passes(req.status_filter, job.status),
                ),
            ),
            client::job_infos(r@) == infos_of(
                listing::listing(queue@).filter(in_status(req.status_filter)),
            ),
            1 <= req.status_filter <= 5 ==> forall|i: int|
                0 <= i < r@.len() ==> (#[trigger] r@[i]).status == req.status_filter,
    {
        let all = queue.all_jobs();
        proof {
            jobs_in_queue_wf(all@, queue@);
        }
        let ghost views = listing::job_views(all@);
        let ghost which = in_status(req.status_filter);
        let mut jobs: Vec<JobInfo> = Vec::new();
        for i in 0..all.len()
            invariant
                views == listing::job_views(all@),
                which == in_status(req.status_filter),
                1 <= req.status_filter <= 5 ==> forall|k: int|
                    0 <= k < jobs@.len() ==> (#[trigger] jobs@[k]).status == req.status_filter,
                client::job_infos(jobs@) == infos_of(views.take(i as int).filter(which)),
                forall|k: int| 0 <= k < all@.len() ==> (#[trigger] all@[k])@.wf(),
        {
            proof {
                lemmas::filter_step(views, i as int, which);
            }
            let ghost before = jobs@;
            if passes_status(req.status_filter, &all[i].status) {
                let info = job_to_info(all[i]);
                jobs.push(info);
                assert(client::job_infos(jobs@) =~= client::job_infos(before).push(info@));
                assert(infos_of(views.take(i + 1).filter(which)) =~= infos_of(
                    views.take(i as int).filter(which),
                ).push(job_info(views[i as int])));
            }
        }
        assert(views.take(views.len() as int) =~= views);
        assert(which =~= (|job: JobView| status_passes(req.status_filter, job.status)));
        jobs
    }
}

/// The moments in listed jobs are moments of the calendar.
proof fn jobs_in_queue_wf(listed: Seq<&Job>, jobs: Map<JobId, JobView>)
    requires
        crate::scheduler::queue::jobs_wf(jobs),
        crate::scheduler::queue::lists_jobs(listed, jobs, crate::scheduler::queue::any_job()),
    ensures
        forall|i: int| 0 <= i < listed.len() ==> (#[trigger] listed[i])@.wf(),
{
    assert forall|i: int| 0 <= i < listed.len() implies (#[trigger] listed[i])@.wf() by {
        assert(jobs.contains_key(listed[i].id));
    }
}

// ---------------------------------------------------------------------------
// The cluster
// ---------------------------------------------------------------------------

/// This node, which is alive, and then its peers, of which those heard of recently are alive.
pub open spec fn known_nodes(config: NodeConfig, raft: RaftNode, now: Moment) -> Seq<NodeMessage> {
    seq![
        NodeMessage {
            node_id: config.node_id,
            address: config.advertise_addr@,
            is_alive: true,
        },
    ] + config.peers@.map_values(
        |p: PeerConfig|
            NodeMessage {
                node_id: p.node_id,
                address: p.addr@,
                is_alive: raft.config.peer_ids().contains(p.node_id) && node::peer_alive(
                    raft.peer_last_seen@,
                    p.node_id,
                    now,
                ),
            },
    )
}

/// The nodes with this identifier.
pub open spec fn with_id(id: u64) -> spec_fn(NodeMessage) -> bool {
    |n: NodeMessage| n.node_id == id
}

/// `sorted` holds the nodes of `nodes` by identifier; those of the same identifier keep their
/// order.
pub open spec fn sorted_by_id(sorted: Seq<NodeMessage>, nodes: Seq<NodeMessage>) -> bool {
    &&& forall|i: int, j: int|
        0 <= i < j < sorted.len() ==> (#[trigger] sorted[i]).node_id <= (
        #[trigger] sorted[j]).node_id
    &&& forall|id: u64| #[trigger] sorted.filter(with_id(id)) == nodes.filter(with_id(id))
}

/// A node inserted behind all that have no greater identifier keeps nodes sorted.
proof fn inserted_node(sorted: Seq<NodeMessage>, nodes: Seq<NodeMessage>, at: int, n: NodeMessage)
    requires
        sorted_by_id(sorted, nodes),
        0 <= at <= sorted.len(),
        forall|i: int| 0 <= i < at ==> (#[trigger] sorted[i]).node_id <= n.node_id,
        forall|i: int| at <= i < sorted.len() ==> (#[trigger] sorted[i]).node_id > n.node_id,
    ensures
        sorted_by_id(sorted.insert(at, n), nodes.push(n)),
{
    let after = sorted.insert(at, n);
    let front = sorted.take(at);
    let back = sorted.skip(at);
    assert(sorted =~= front + back);
    assert(after =~= front.push(n) + back);
    assert forall|id: u64| #[trigger] after.filter(with_id(id)) == nodes.push(n).filter(
        with_id(id),
    ) by {
        let which = with_id(id);
        Seq::filter_distributes_over_add(front, back, which);
        Seq::filter_distributes_over_add(front.push(n), back, which);
        assert(sorted.filter(which) == nodes.filter(which));
        lemmas::filter_step(nodes.push(n), nodes.len() as int, which);
        assert(nodes.push(n).take(nodes.len() as int) =~= nodes);
        assert(nodes.push(n).take(nodes.len() as int + 1) =~= nodes.push(n));
        lemmas::filter_step(front.push(n), front.len() as int, which);
        assert(front.push(n).take(front.len() as int) =~= front);
        assert(front.push(n).take(front.len() as int + 1) =~= front.push(n));
        if n.node_id == id {
            none_pass(back, which);
        }
    }
}

/// Where no element passes, nothing is left.
proof fn none_pass(s: Seq<NodeMessage>, which: spec_fn(NodeMessage) -> bool)
    requires
        forall|i: int| 0 <= i < s.len() ==> !which(#[trigger] s[i]),
    ensures
        s.filter(which) == Seq::<NodeMessage>::empty(),
    decreases s.len(),
{
    reveal(Seq::filter);
    if s.len() > 0 {
        none_pass(s.drop_last(), which);
    }
}

/// Adds a node behind all that have no greater identifier.
fn insert_node(sorted: &mut Vec<NodeInfo>, n: NodeInfo, nodes: Ghost<Seq<NodeMessage>>)
    requires
        sorted_by_id(client::node_messages(old(sorted)@), nodes@),
    ensures
        sorted_by_id(client::node_messages(final(sorted)@), nodes@.push(n@)),
        final(sorted)@.len() == old(sorted)@.len() + 1,
{
    let ghost views = client::node_messages(sorted@);
    let mut at: usize = 0;
    while at < sorted.len() && sorted[at].node_id <= n.node_id
        invariant
            at <= sorted@.len(),
            views == client::node_messages(sorted@),
            forall|i: int| 0 <= i < at ==> (#[trigger] views[i]).node_id <= n.node_id,
        decreases sorted@.len() - at,
    {
        at = at + 1;
    }
    proof {
        assert forall|i: int| at <= i < views.len() implies (#[trigger] views[i]).node_id
            > n.node_id by {
            assert(views[at as int].node_id > n.node_id);
        }
        inserted_node(views, nodes@, at as int, n@);
        assert(client::node_messages(sorted@.insert(at as int, n)) =~= views.insert(
            at as int,
            n@,
        ));
    }
    sorted.insert(at, n);
}

/// All nodes of the cluster by identifier, as this node sees them at `now`.
pub fn cluster_nodes(config: &NodeConfig, raft: &RaftNode, now: Moment) -> (r: Vec<NodeInfo>)
    ensures
        sorted_by_id(client::node_messages(r@), known_nodes(*config, *raft, now)),
        r@.len() == config.peers@.len() + 1,
{
    let status = raft.get_peers_status(now);
    let ghost all = known_nodes(*config, *raft, now);
    let mut nodes: Vec<NodeInfo> = Vec::new();
    proof {
        reveal(Seq::filter);
        assert(client::node_messages(nodes@) =~= Seq::empty());
    }
    insert_node(
        &mut nodes,
        NodeInfo {
            node_id: config.node_id,
            address: config.advertise_addr.clone(),
            is_alive: true,
        },
        Ghost(Seq::empty()),
    );
    assert(all.take(1) =~= Seq::<NodeMessage>::empty().push(all[0]));
    for i in 0..config.peers.len()
        invariant
            all == known_nodes(*config, *raft, now),
            sorted_by_id(client::node_messages(nodes@), all.take(i + 1)),
            nodes@.len() == i + 1,
            status@.dom() == raft.config.peer_ids().to_set(),
            forall|peer: u64| #[trigger]
                status@.contains_key(peer) ==> status@[peer] == node::peer_alive(
                    raft.peer_last_seen@,
                    peer,
                    now,
                ),
    {
        let peer = &config.peers[i];
        let is_alive = match status.get(&peer.node_id) {
            Some(alive) => *alive,
            None => false,
        };
        assert(raft.config.peer_ids().to_set().contains(peer.node_id)
            == raft.config.peer_ids().contains(peer.node_id));
        let n = NodeInfo { node_id: peer.node_id, address: peer.addr.clone(), is_alive };
        assert(n@ == all[i + 1]);
        assert(all.take(i + 2) =~= all.take(i + 1).push(all[i + 1]));
        insert_node(&mut nodes, n, Ghost(all.take(i + 1)));
    }
    assert(all.take(all.len() as int) =~= all);
    nodes
}

/// The refusal of a request that no leader is known to forward to.
pub open spec fn no_leader_refusal() -> Refusal {
    status::refusal(Code::Unavailable, "Leader unknown, please retry later"@)
}

/// The refusal of a request about a node that is not among the peers.
pub open spec fn unknown_node_refusal(node_id: u64) -> Refusal {
    status::refusal(Code::NotFound, "Unknown node "@ + text::decimal(node_id as nat))
}

impl ClientService {
    /// The address of a peer: that of the first peer with this identifier.
    pub fn peer_addr(&self, node_id: u64) -> (r: Result<String, Status>)
        ensures
            match r {
                Ok(addr) => exists|i: int|
                    {
                        &&& 0 <= i < self.config.peers@.len()
                        &&& (#[trigger] self.config.peers@[i]).node_id == node_id
                        &&& addr@ == self.config.peers@[i].addr@
                        &&& forall|k: int|
                            0 <= k < i ==> (#[trigger] self.config.peers@[k]).node_id != node_id
                    },
                Err(e) => e@ == unknown_node_refusal(node_id)
                    && !self.config.peer_ids().contains(node_id),
            },
    {
        for i in 0..self.config.peers.len()
            invariant
                forall|k: int|
                    0 <= k < i ==> (#[trigger] self.config.peers@[k]).node_id != node_id,
        {
            if self.config.peers[i].node_id == node_id {
                return Ok(self.config.peers[i].addr.clone());
            }
        }
        assert(!self.config.peer_ids().contains(node_id));
        Err(
            Status {
                code: Code::NotFound,
                message: "Unknown node ".to_owned().concat(decimal_text(node_id).as_str()),
            },
        )
    }

    /// The address of a peer as a URI, with the scheme that tells whether TLS is used.
    pub fn peer_uri(&self, addr: &str) -> (r: String)
        ensures
            r@ == (if self.secure {
                "https://"@
            } else {
                "http://"@
            }) + addr@,
    {
        if self.secure {
            "https://".to_owned().concat(addr)
        } else {
            "http://".to_owned().concat(addr)
        }
    }

    /// The node to forward a request to that the leader has to serve; none when this node is the
    /// leader.
    pub fn forward_to(&self, raft: &RaftNode) -> (r: Result<Option<u64>, Status>)
        ensures
            if raft.state@.role is Leader {
                r == Ok::<Option<u64>, Status>(None)
            } else {
                match raft.state@.leader_id {
                    Some(id) => r == Ok::<Option<u64>, Status>(Some(id)),
                    None => status::refused(r, no_leader_refusal()),
                }
            },
    {
        if raft.is_leader() {
            return Ok(None);
        }
        match raft.get_leader_id() {
            Some(id) => Ok(Some(id)),
            None => Err(Status::new(Code::Unavailable, "Leader unknown, please retry later")),
        }
    }

    /// The state of the cluster as the leader sees it at `now`.
    pub fn get_cluster_status(&self, raft: &RaftNode, now: Moment) -> (r: GetClusterStatusResponse)
        ensures
            r.current_term == raft.state@.current_term,
            r.leader_id == raft.id,
            sorted_by_id(
                client::node_messages(r.nodes@),
                known_nodes(self.config, *raft, now),
            ),
            r.nodes@.len() == self.config.peers@.len() + 1,
    {
        GetClusterStatusResponse {
            current_term: raft.state.current_term,
            leader_id: raft.id,
            nodes: cluster_nodes(&self.config, raft, now),
        }
    }
}

// ---------------------------------------------------------------------------
// The log
// ---------------------------------------------------------------------------

/// An entry of the log as clients see it.
pub open spec fn log_entry_info(entry: EntryView, commit_index: u64) -> LogEntryMessage {
    LogEntryMessage {
        index: entry.index,
        term: entry.term,
        command: rpc::encode_command(entry.command),
        is_committed: entry.index <= commit_index,
    }
}

/// The part of the log that a request asks for: at most `limit` entries from `start` on. Entries
/// that are compacted into a snapshot are passed over.
pub open spec fn log_part(s: StateView, start: u64, limit: nat) -> Seq<LogEntryMessage> {
    let from = s.entries_from(start as int);
    from.take(least(limit, from.len()) as int).map_values(
        |e: EntryView| log_entry_info(e, s.commit_index),
    )
}

impl ClientService {
    /// The part of the log that a request asks for.
    pub fn get_raft_log_entries(&self, raft: &RaftNode, req: GetRaftLogEntriesRequest) -> (r:
        GetRaftLogEntriesResponse)
        requires
            rpc::entries_wf(raft.state@.log),
            raft.state@.log_offset < u64::MAX,
        ensures
            client::log_entry_messages(r.entries@) == log_part(
                raft.state@,
                req.start_index,
                page_len(req.limit) as nat,
            ),
            r.commit_index == raft.state@.commit_index,
            r.last_log_index == raft.state@.last_index(),
            r.first_available_index == raft.state@.log_offset + 1,
    {
        let limit: usize = page_len_of(req.limit) as usize;
        let commit_index: u64 = raft.state.commit_index;
        let ghost s = raft.state@;
        let from = raft.state.get_entries_from(req.start_index);
        let ghost all = s.entries_from(req.start_index as int);
        let ghost info = |e: EntryView| log_entry_info(e, commit_index);
        let count: usize = if limit <= from.len() {
            limit
        } else {
            from.len()
        };
        let mut entries: Vec<RaftLogEntryInfo> = Vec::new();
        for i in 0..count
            invariant
                count <= from@.len(),
                s == raft.state@,
                rpc::entries_wf(s.log),
                all == state::entries_view(from@),
                all == s.entries_from(req.start_index as int),
                info == (|e: EntryView| log_entry_info(e, commit_index)),
                client::log_entry_messages(entries@) == all.take(i as int).map_values(info),
        {
            proof {
                lemmas::map_step(all, i as int, info);
                assert(all[i as int] == from@[i as int]@);
                if req.start_index as int <= s.log_offset {
                    assert(s.log[i as int] == all[i as int]);
                } else {
                    let skipped = req.start_index - s.log_offset - 1;
                    assert(all.len() == from@.len());
                    assert(all == s.log.skip(skipped));
                    assert(s.log[i + skipped] == all[i as int]);
                }
            }
            let ghost before = entries@;
            let entry = &from[i];
            let wire = log_entry_to_proto(entry);
            let item = RaftLogEntryInfo {
                index: entry.index,
                term: entry.term,
                command: wire.command,
                is_committed: entry.index <= commit_index,
            };
            entries.push(item);
            assert(client::log_entry_messages(entries@) =~= client::log_entry_messages(
                before,
            ).push(item@));
        }
        GetRaftLogEntriesResponse {
            entries,
            commit_index,
            last_log_index: raft.state.last_log_index(),
            first_available_index: raft.state.log_offset + 1,
        }
    }
}

// ---------------------------------------------------------------------------
// Handing over and draining
// ---------------------------------------------------------------------------

/// What is left to do before a node is drained.
#[derive(Debug, Clone, Copy, PartialEq, Eq, Structural)]
pub enum DrainStep {
    /// Wait: this many jobs still run here.
    WaitForJobs(usize),
    /// Hand leadership to a peer.
    TransferLeadership,
    /// Nothing.
    Finish,
}

/// What is left to do before a node is drained: its jobs end, and then it stops leading, where
/// there is a peer to lead.
pub open spec fn drain_step_for(
    s: StateView,
    config: NodeConfig,
    jobs: Map<JobId, JobView>,
) -> DrainStep {
    let running = crate::scheduler::queue::count_jobs(
        jobs,
        crate::scheduler::queue::running_on(config.node_id),
    );
    if running > 0 {
        DrainStep::WaitForJobs(running as usize)
    } else if s.role is Leader && config.peers@.len() > 0 {
        DrainStep::TransferLeadership
    } else {
        DrainStep::Finish
    }
}

impl ClientService {
    /// The request to the Raft loop that hands leadership over; without a target the loop chooses.
    pub fn transfer_leadership(&self, req: TransferLeadershipRequest) -> (r: RaftMessage)
        ensures
            r == (RaftMessage::TransferLeadership {
                target_id: if req.target_node_id == 0 {
                    None
                } else {
                    Some(req.target_node_id)
                },
            }),
    {
        let target_id = if req.target_node_id == 0 {
            None
        } else {
            Some(req.target_node_id)
        };
        RaftMessage::TransferLeadership { target_id }
    }

    /// Answers a request to hand over once it is known who leads, or what went wrong.
    pub fn finish_transfer(&self, outcome: Result<u64, String>) -> (r: TransferLeadershipResponse)
        ensures
            match outcome {
                Ok(id) => {
                    &&& r.success
                    &&& r.new_leader_id == id
                    &&& r.message@ == "Leadership transferred to node "@ + text::decimal(id as nat)
                },
                Err(e) => !r.success && r.new_leader_id == 0 && r.message == e,
            },
    {
        match outcome {
            Ok(id) => TransferLeadershipResponse {
                success: true,
                message: "Leadership transferred to node ".to_owned().concat(
                    decimal_text(id).as_str(),
                ),
                new_leader_id: id,
            },
            Err(e) => TransferLeadershipResponse { success: false, message: e, new_leader_id: 0 },
        }
    }

    /// What is left to do before this node is drained.
    pub fn drain_step(&self, raft: &RaftNode, queue: &JobQueue) -> (r: DrainStep)
        requires
            queue.wf(),
        ensures
            r == drain_step_for(raft.state@, self.config, queue@),
    {
        let running: usize = queue.running_jobs_on_worker(self.config.node_id);
        if running > 0 {
            DrainStep::WaitForJobs(running)
        } else if raft.is_leader() && self.config.peers.len() > 0 {
            DrainStep::TransferLeadership
        } else {
            DrainStep::Finish
        }
    }

    /// Answers a request to drain this node; `handed_over` is what became of the last step.
    pub fn finish_drain(&self, handed_over: Result<(), String>) -> (r: DrainNodeResponse)
        ensures
            match handed_over {
                Ok(_) => r.success && r.message@ == "Node drained successfully"@,
                Err(e) => !r.success && r.message == e,
            },
    {
        match handed_over {
            Ok(_) => DrainNodeResponse {
                success: true,
                message: "Node drained successfully".to_owned(),
            },
            Err(e) => DrainNodeResponse { success: false, message: e },
        }
    }
}

} // verus!
