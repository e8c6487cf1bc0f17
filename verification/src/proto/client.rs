//! The messages of the client-facing and the node-to-node service.

use crate::proto;
use crate::proto::{Command, CommandMessage, UpdateJobStatusCommand};
use crate::text;
use vstd::prelude::*;

verus! {

/// A client submits a job.
#[derive(Debug)]
pub struct SubmitJobRequest {
    pub command: String,
    /// Docker image for this job alone.
    pub image: Option<String>,
}

/// The job was accepted.
#[derive(Debug)]
pub struct SubmitJobResponse {
    pub job_id: String,
    pub created_at_ms: i64,
}

/// A `SubmitJobResponse` as the model sees it.
#[verifier::ext_equal]
pub struct SubmitJobMessage {
    pub job_id: Seq<char>,
    pub created_at_ms: i64,
}

impl View for SubmitJobResponse {
    type V = SubmitJobMessage;

    open spec fn view(&self) -> SubmitJobMessage {
        SubmitJobMessage { job_id: self.job_id@, created_at_ms: self.created_at_ms }
    }
}

/// A client cancels a job.
#[derive(Debug)]
pub struct CancelJobRequest {
    pub job_id: String,
}

/// Answer to a `CancelJobRequest`.
#[derive(Debug)]
pub struct CancelJobResponse {
    pub success: bool,
    pub message: String,
}

/// A client asks for the state of a job.
#[derive(Debug)]
pub struct GetJobStatusRequest {
    pub job_id: String,
}

/// The state of a job. A worker that is not known is 0.
#[derive(Debug)]
pub struct GetJobStatusResponse {
    pub job_id: String,
    pub status: i32,
    pub output: String,
    pub error: String,
    pub assigned_worker: u64,
    pub executed_by: u64,
    pub exit_code: Option<i32>,
    pub created_at_ms: i64,
    pub completed_at_ms: Option<i64>,
}

/// A `GetJobStatusResponse` as the model sees it.
#[verifier::ext_equal]
pub struct JobStatusMessage {
    pub job_id: Seq<char>,
    pub status: i32,
    pub output: Seq<char>,
    pub error: Seq<char>,
    pub assigned_worker: u64,
    pub executed_by: u64,
    pub exit_code: Option<i32>,
    pub created_at_ms: i64,
    pub completed_at_ms: Option<i64>,
}

impl View for GetJobStatusResponse {
    type V = JobStatusMessage;

    open spec fn view(&self) -> JobStatusMessage {
        JobStatusMessage {
            job_id: self.job_id@,
            status: self.status,
            output: self.output@,
            error: self.error@,
            assigned_worker: self.assigned_worker,
            executed_by: self.executed_by,
            exit_code: self.exit_code,
            created_at_ms: self.created_at_ms,
            completed_at_ms: self.completed_at_ms,
        }
    }
}

/// A client asks for a page of jobs. A filter that is 0 or empty lets every job through.
#[derive(Debug)]
pub struct ListJobsRequest {
    /// The usual page size when 0.
    pub page_size: u32,
    /// Where the page starts; the first page when empty.
    pub page_token: String,
    pub status_filter: i32,
    pub worker_id_filter: u64,
    pub command_filter: String,
    pub created_after_ms: i64,
    pub created_before_ms: i64,
}

impl Default for ListJobsRequest {
    fn default() -> (r: Self)
        ensures
            r.page_size == 0,
            r.page_token@.len() == 0,
            r.status_filter == 0,
            r.worker_id_filter == 0,
            r.command_filter@.len() == 0,
            r.created_after_ms == 0,
            r.created_before_ms == 0,
    {
        ListJobsRequest {
            page_size: 0,
            page_token: String::new(),
            status_filter: 0,
            worker_id_filter: 0,
            command_filter: String::new(),
            created_after_ms: 0,
            created_before_ms: 0,
        }
    }
}

/// A job in a list.
#[derive(Debug)]
pub struct JobInfo {
    pub job_id: String,
    pub command: String,
    pub status: i32,
    pub assigned_worker: u64,
    pub created_at_ms: i64,
    pub completed_at_ms: Option<i64>,
}

/// A `JobInfo` as the model sees it.
#[verifier::ext_equal]
pub struct JobInfoMessage {
    pub job_id: Seq<char>,
    pub command: Seq<char>,
    pub status: i32,
    pub assigned_worker: u64,
    pub created_at_ms: i64,
    pub completed_at_ms: Option<i64>,
}

impl View for JobInfo {
    type V = JobInfoMessage;

    open spec fn view(&self) -> JobInfoMessage {
        JobInfoMessage {
            job_id: self.job_id@,
            command: self.command@,
            status: self.status,
            assigned_worker: self.assigned_worker,
            created_at_ms: self.created_at_ms,
            completed_at_ms: self.completed_at_ms,
        }
    }
}

/// The jobs of a list as the model sees them.
pub open spec fn job_infos(jobs: Seq<JobInfo>) -> Seq<JobInfoMessage> {
    jobs.map_values(|job: JobInfo| job@)
}

/// A page of jobs.
#[derive(Debug)]
pub struct ListJobsResponse {
    pub jobs: Vec<JobInfo>,
    /// Where the next page starts; empty on the last page.
    pub next_page_token: String,
    /// How many jobs passed the filters.
    pub total_count: u32,
}

/// A `ListJobsResponse` as the model sees it.
#[verifier::ext_equal]
pub struct JobPage {
    pub jobs: Seq<JobInfoMessage>,
    pub next_page_token: Seq<char>,
    pub total_count: u32,
}

impl View for ListJobsResponse {
    type V = JobPage;

    open spec fn view(&self) -> JobPage {
        JobPage {
            jobs: job_infos(self.jobs@),
            next_page_token: self.next_page_token@,
            total_count: self.total_count,
        }
    }
}

/// A client asks for all jobs in a status; for all jobs where the number stands for no status.
#[derive(Debug, Clone, Copy)]
pub struct StreamJobsRequest {
    pub status_filter: i32,
}

/// A node of the cluster.
#[derive(Debug)]
pub struct NodeInfo {
    pub node_id: u64,
    pub address: String,
    pub is_alive: bool,
}

/// A `NodeInfo` as the model sees it.
#[verifier::ext_equal]
pub struct NodeMessage {
    pub node_id: u64,
    pub address: Seq<char>,
    pub is_alive: bool,
}

impl View for NodeInfo {
    type V = NodeMessage;

    open spec fn view(&self) -> NodeMessage {
        NodeMessage { node_id: self.node_id, address: self.address@, is_alive: self.is_alive }
    }
}

/// The nodes as the model sees them.
pub open spec fn node_messages(nodes: Seq<NodeInfo>) -> Seq<NodeMessage> {
    nodes.map_values(|node: NodeInfo| node@)
}

/// The state of the cluster.
#[derive(Debug)]
pub struct GetClusterStatusResponse {
    pub current_term: u64,
    pub leader_id: u64,
    pub nodes: Vec<NodeInfo>,
}

/// A client asks for a part of the log. Without a start it begins with the first entry.
#[derive(Debug, Clone, Copy)]
pub struct GetRaftLogEntriesRequest {
    pub start_index: u64,
    /// The usual number of entries when 0.
    pub limit: u32,
}

/// An entry of the log.
#[derive(Debug)]
pub struct RaftLogEntryInfo {
    pub index: u64,
    pub term: u64,
    pub command: Option<Command>,
    pub is_committed: bool,
}

/// A `RaftLogEntryInfo` as the model sees it.
#[verifier::ext_equal]
pub struct LogEntryMessage {
    pub index: u64,
    pub term: u64,
    pub command: CommandMessage,
    pub is_committed: bool,
}

impl View for RaftLogEntryInfo {
    type V = LogEntryMessage;

    open spec fn view(&self) -> LogEntryMessage {
        LogEntryMessage {
            index: self.index,
            term: self.term,
            command: proto::command_message(self.command),
            is_committed: self.is_committed,
        }
    }
}

/// The entries as the model sees them.
pub open spec fn log_entry_messages(entries: Seq<RaftLogEntryInfo>) -> Seq<LogEntryMessage> {
    entries.map_values(|e: RaftLogEntryInfo| e@)
}

/// A part of the log.
#[derive(Debug)]
pub struct GetRaftLogEntriesResponse {
    pub entries: Vec<RaftLogEntryInfo>,
    pub commit_index: u64,
    pub last_log_index: u64,
    /// Index of the first entry that is not compacted into a snapshot.
    pub first_available_index: u64,
}

/// A client asks the leader to hand over; 0 lets the leader choose to whom.
#[derive(Debug, Clone, Copy)]
pub struct TransferLeadershipRequest {
    pub target_node_id: u64,
}

/// Answer to a `TransferLeadershipRequest`.
#[derive(Debug)]
pub struct TransferLeadershipResponse {
    pub success: bool,
    pub message: String,
    pub new_leader_id: u64,
}

/// Answer to a request to drain a node.
#[derive(Debug)]
pub struct DrainNodeResponse {
    pub success: bool,
    pub message: String,
}

/// A node asks the one that ran a job for what the job printed.
#[derive(Debug)]
pub struct GetJobOutputRequest {
    pub job_id: String,
}

/// What a job printed.
#[derive(Debug)]
pub struct GetJobOutputResponse {
    pub job_id: String,
    pub output: String,
    pub error: String,
    /// Whether the node that answers ran the job.
    pub found: bool,
}

/// A `GetJobOutputResponse` as the model sees it.
#[verifier::ext_equal]
pub struct JobOutputMessage {
    pub job_id: Seq<char>,
    pub output: Seq<char>,
    pub error: Seq<char>,
    pub found: bool,
}

impl View for GetJobOutputResponse {
    type V = JobOutputMessage;

    open spec fn view(&self) -> JobOutputMessage {
        JobOutputMessage {
            job_id: self.job_id@,
            output: self.output@,
            error: self.error@,
            found: self.found,
        }
    }
}

/// A worker gives a sign of life.
#[derive(Debug, Clone, Copy)]
pub struct WorkerHeartbeatRequest {
    pub node_id: u64,
}

/// A worker reports how its jobs ended.
#[derive(Debug)]
pub struct ForwardJobStatusRequest {
    pub updates: Vec<UpdateJobStatusCommand>,
}

/// What a text says, the empty text where there is none.
pub open spec fn text_or_empty(t: Option<Seq<char>>) -> Seq<char> {
    match t {
        Some(s) => s,
        None => Seq::empty(),
    }
}

/// A copy of a text, the empty text where there is none.
pub fn or_empty(t: &Option<String>) -> (r: String)
    ensures
        r@ == text_or_empty(text::opt_text(*t)),
{
    match t {
        Some(s) => s.clone(),
        None => {
            let empty = String::new();
            assert(empty@ =~= Seq::<char>::empty());
            empty
        },
    }
}

} // verus!
