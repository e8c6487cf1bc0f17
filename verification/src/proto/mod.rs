//! The messages that nodes and clients exchange.

pub mod client;
pub mod command;

pub use client::{
    CancelJobRequest, CancelJobResponse, DrainNodeResponse, ForwardJobStatusRequest,
    GetClusterStatusResponse, GetJobOutputRequest, GetJobOutputResponse, GetJobStatusRequest,
    GetJobStatusResponse, GetRaftLogEntriesRequest, GetRaftLogEntriesResponse, JobInfo,
    ListJobsRequest, ListJobsResponse, NodeInfo, RaftLogEntryInfo, StreamJobsRequest,
    SubmitJobRequest, SubmitJobResponse, TransferLeadershipRequest, TransferLeadershipResponse,
    WorkerHeartbeatRequest,
};

use crate::text;
use command::CommandType;
use vstd::prelude::*;

verus! {

/// Status of a job on the wire. A number that stands for no status reads as `Unspecified`.
#[derive(Debug, Clone, Copy, PartialEq, Eq, Structural)]
pub enum JobStatus {
    Unspecified,
    Pending,
    Running,
    Completed,
    Failed,
    Cancelled,
}

impl JobStatus {
    /// The number that stands for a status.
    pub open spec fn number(self) -> i32 {
        match self {
            JobStatus::Unspecified => 0,
            JobStatus::Pending => 1,
            JobStatus::Running => 2,
            JobStatus::Completed => 3,
            JobStatus::Failed => 4,
            JobStatus::Cancelled => 5,
        }
    }

    /// The status that a number stands for.
    pub open spec fn of_number(number: i32) -> Option<JobStatus> {
        match number {
            0 => Some(JobStatus::Unspecified),
            1 => Some(JobStatus::Pending),
            2 => Some(JobStatus::Running),
            3 => Some(JobStatus::Completed),
            4 => Some(JobStatus::Failed),
            5 => Some(JobStatus::Cancelled),
            _ => None,
        }
    }

    /// The status that a number stands for, `Unspecified` where it stands for none.
    pub open spec fn of_number_or_unspecified(number: i32) -> JobStatus {
        match JobStatus::of_number(number) {
            Some(status) => status,
            None => JobStatus::Unspecified,
        }
    }

    /// The number that stands for this status.
    pub fn to_number(&self) -> (r: i32)
        ensures
            r == self.number(),
    {
        match self {
            JobStatus::Unspecified => 0,
            JobStatus::Pending => 1,
            JobStatus::Running => 2,
            JobStatus::Completed => 3,
            JobStatus::Failed => 4,
            JobStatus::Cancelled => 5,
        }
    }

    /// The status that a number stands for.
    pub fn from_number(number: i32) -> (r: Option<JobStatus>)
        ensures
            r == JobStatus::of_number(number),
    {
        match number {
            0 => Some(JobStatus::Unspecified),
            1 => Some(JobStatus::Pending),
            2 => Some(JobStatus::Running),
            3 => Some(JobStatus::Completed),
            4 => Some(JobStatus::Failed),
            5 => Some(JobStatus::Cancelled),
            _ => None,
        }
    }

    /// The status that a number stands for, `Unspecified` where it stands for none.
    pub fn from_number_or_unspecified(number: i32) -> (r: JobStatus)
        ensures
            r == JobStatus::of_number_or_unspecified(number),
    {
        match JobStatus::from_number(number) {
            Some(status) => status,
            None => JobStatus::Unspecified,
        }
    }
}

/// Every status is read back from its number.
pub proof fn status_number_round_trip(status: JobStatus)
    ensures
        JobStatus::of_number(status.number()) == Some(status),
{
}

/// A job to be added.
#[derive(Debug, Clone)]
pub struct SubmitJobCommand {
    pub job_id: String,
    pub command: String,
    pub image: Option<String>,
    pub created_at_ms: i64,
}

/// New metadata of a job.
#[derive(Debug, Clone)]
pub struct UpdateJobStatusCommand {
    pub job_id: String,
    pub status: i32,
    pub executed_by: u64,
    pub exit_code: Option<i32>,
    pub completed_at_ms: Option<i64>,
}

/// New metadata of several jobs.
#[derive(Debug, Clone)]
pub struct BatchUpdateJobStatusCommand {
    pub updates: Vec<UpdateJobStatusCommand>,
}

/// A job to be assigned.
#[derive(Debug, Clone)]
pub struct AssignJobCommand {
    pub job_id: String,
    pub worker_id: u64,
}

/// A job to be cancelled.
#[derive(Debug, Clone)]
pub struct CancelJobCommand {
    pub job_id: String,
}

/// A worker to be registered.
#[derive(Debug, Clone)]
pub struct RegisterWorkerCommand {
    pub worker_id: u64,
}

/// A command on the wire. Without a type it has no effect.
#[derive(Debug, Clone)]
pub struct Command {
    pub command_type: Option<CommandType>,
}

/// A log entry on the wire. Without a command it has no effect.
#[derive(Debug, Clone)]
pub struct LogEntry {
    pub term: u64,
    pub index: u64,
    pub command: Option<Command>,
}

/// New metadata of a job, as the model sees it on the wire.
#[verifier::ext_equal]
pub struct UpdateMessage {
    pub job_id: Seq<char>,
    pub status: i32,
    pub executed_by: u64,
    pub exit_code: Option<i32>,
    pub completed_at_ms: Option<i64>,
}

impl View for UpdateJobStatusCommand {
    type V = UpdateMessage;

    open spec fn view(&self) -> UpdateMessage {
        UpdateMessage {
            job_id: self.job_id@,
            status: self.status,
            executed_by: self.executed_by,
            exit_code: self.exit_code,
            completed_at_ms: self.completed_at_ms,
        }
    }
}

/// The updates as the model sees them.
pub open spec fn updates_view(updates: Seq<UpdateJobStatusCommand>) -> Seq<UpdateMessage> {
    updates.map_values(|u: UpdateJobStatusCommand| u@)
}

/// A command on the wire as the model sees it.
#[verifier::ext_equal]
pub enum CommandMessage {
    SubmitJob {
        job_id: Seq<char>,
        command: Seq<char>,
        image: Option<Seq<char>>,
        created_at_ms: i64,
    },
    UpdateJobStatus { update: UpdateMessage },
    BatchUpdateJobStatus { updates: Seq<UpdateMessage> },
    AssignJob { job_id: Seq<char>, worker_id: u64 },
    CancelJob { job_id: Seq<char> },
    RegisterWorker { worker_id: u64 },
    Nothing,
}

impl View for Command {
    type V = CommandMessage;

    open spec fn view(&self) -> CommandMessage {
        match self.command_type {
            Some(CommandType::SubmitJob(c)) => CommandMessage::SubmitJob {
                job_id: c.job_id@,
                command: c.command@,
                image: text::opt_text(c.image),
                created_at_ms: c.created_at_ms,
            },
            Some(CommandType::UpdateJobStatus(c)) => CommandMessage::UpdateJobStatus { update: c@ },
            Some(CommandType::BatchUpdateJobStatus(c)) => CommandMessage::BatchUpdateJobStatus {
                updates: updates_view(c.updates@),
            },
            Some(CommandType::AssignJob(c)) => CommandMessage::AssignJob {
                job_id: c.job_id@,
                worker_id: c.worker_id,
            },
            Some(CommandType::CancelJob(c)) => CommandMessage::CancelJob { job_id: c.job_id@ },
            Some(CommandType::RegisterWorker(c)) => CommandMessage::RegisterWorker {
                worker_id: c.worker_id,
            },
            None => CommandMessage::Nothing,
        }
    }
}

/// The command of a message, where there is one.
pub open spec fn command_message(command: Option<Command>) -> CommandMessage {
    match command {
        Some(c) => c@,
        None => CommandMessage::Nothing,
    }
}

/// A log entry on the wire as the model sees it.
#[verifier::ext_equal]
pub struct EntryMessage {
    pub term: u64,
    pub index: u64,
    pub command: CommandMessage,
}

impl View for LogEntry {
    type V = EntryMessage;

    open spec fn view(&self) -> EntryMessage {
        EntryMessage {
            term: self.term,
            index: self.index,
            command: command_message(self.command),
        }
    }
}

/// The entries as the model sees them.
pub open spec fn entries_message(entries: Seq<LogEntry>) -> Seq<EntryMessage> {
    entries.map_values(|e: LogEntry| e@)
}

/// A candidate asks for a vote.
#[derive(Debug, Clone, Copy, PartialEq, Eq, Structural)]
pub struct VoteRequest {
    pub term: u64,
    pub candidate_id: u64,
    pub last_log_index: u64,
    pub last_log_term: u64,
}

/// Answer to a `VoteRequest`.
#[derive(Debug, Clone, Copy, PartialEq, Eq, Structural)]
pub struct VoteResponse {
    pub term: u64,
    pub vote_granted: bool,
}

/// A leader replicates entries; without entries it is a heartbeat.
#[derive(Debug, Clone)]
pub struct AppendEntriesRequest {
    pub term: u64,
    pub leader_id: u64,
    pub prev_log_index: u64,
    pub prev_log_term: u64,
    pub entries: Vec<LogEntry>,
    pub leader_commit: u64,
}

/// Answer to an `AppendEntriesRequest`.
#[derive(Debug, Clone, Copy, PartialEq, Eq, Structural)]
pub struct AppendEntriesResponse {
    pub term: u64,
    pub success: bool,
    pub match_index: u64,
}

/// An `AppendEntriesRequest` as the model sees it.
#[verifier::ext_equal]
pub struct AppendMessage {
    pub term: u64,
    pub leader_id: u64,
    pub prev_log_index: u64,
    pub prev_log_term: u64,
    pub entries: Seq<EntryMessage>,
    pub leader_commit: u64,
}

impl View for AppendEntriesRequest {
    type V = AppendMessage;

    open spec fn view(&self) -> AppendMessage {
        AppendMessage {
            term: self.term,
            leader_id: self.leader_id,
            prev_log_index: self.prev_log_index,
            prev_log_term: self.prev_log_term,
            entries: entries_message(self.entries@),
            leader_commit: self.leader_commit,
        }
    }
}

/// A job in a snapshot on the wire.
#[derive(Debug, Clone)]
pub struct SnapshotJob {
    pub job_id: String,
    pub command: String,
    pub image: Option<String>,
    pub status: i32,
    pub assigned_worker: Option<u64>,
    pub executed_by: Option<u64>,
    pub exit_code: Option<i32>,
    pub created_at_ms: i64,
    pub completed_at_ms: Option<i64>,
}

/// A job in a snapshot on the wire as the model sees it.
#[verifier::ext_equal]
pub struct SnapshotJobMessage {
    pub job_id: Seq<char>,
    pub command: Seq<char>,
    pub image: Option<Seq<char>>,
    pub status: i32,
    pub assigned_worker: Option<u64>,
    pub executed_by: Option<u64>,
    pub exit_code: Option<i32>,
    pub created_at_ms: i64,
    pub completed_at_ms: Option<i64>,
}

impl View for SnapshotJob {
    type V = SnapshotJobMessage;

    open spec fn view(&self) -> SnapshotJobMessage {
        SnapshotJobMessage {
            job_id: self.job_id@,
            command: self.command@,
            image: text::opt_text(self.image),
            status: self.status,
            assigned_worker: self.assigned_worker,
            executed_by: self.executed_by,
            exit_code: self.exit_code,
            created_at_ms: self.created_at_ms,
            completed_at_ms: self.completed_at_ms,
        }
    }
}

/// The jobs of a snapshot as the model sees them.
pub open spec fn snapshot_jobs_message(jobs: Seq<SnapshotJob>) -> Seq<SnapshotJobMessage> {
    jobs.map_values(|job: SnapshotJob| job@)
}

/// A leader sends its snapshot to a follower that needs compacted entries.
#[derive(Debug, Clone)]
pub struct InstallSnapshotRequest {
    pub term: u64,
    pub leader_id: u64,
    pub last_included_index: u64,
    pub last_included_term: u64,
    pub jobs: Vec<SnapshotJob>,
    pub workers: Vec<u64>,
}

/// An `InstallSnapshotRequest` as the model sees it.
#[verifier::ext_equal]
pub struct SnapshotMessage {
    pub term: u64,
    pub leader_id: u64,
    pub last_included_index: u64,
    pub last_included_term: u64,
    pub jobs: Seq<SnapshotJobMessage>,
    pub workers: Seq<u64>,
}

impl View for InstallSnapshotRequest {
    type V = SnapshotMessage;

    open spec fn view(&self) -> SnapshotMessage {
        SnapshotMessage {
            term: self.term,
            leader_id: self.leader_id,
            last_included_index: self.last_included_index,
            last_included_term: self.last_included_term,
            jobs: snapshot_jobs_message(self.jobs@),
            workers: self.workers@,
        }
    }
}

/// Answer to an `InstallSnapshotRequest`.
#[derive(Debug, Clone, Copy, PartialEq, Eq, Structural)]
pub struct InstallSnapshotResponse {
    pub term: u64,
}

/// A leader asks a peer to stand for election at once.
#[derive(Debug, Clone, Copy, PartialEq, Eq, Structural)]
pub struct TimeoutNowRequest {
    pub term: u64,
    pub leader_id: u64,
}

/// Answer to a `TimeoutNowRequest`.
#[derive(Debug, Clone, Copy, PartialEq, Eq, Structural)]
pub struct TimeoutNowResponse {
    pub term: u64,
    pub success: bool,
}

} // verus!
