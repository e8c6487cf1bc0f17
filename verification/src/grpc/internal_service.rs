use crate::clock::Moment;
use crate::grpc::client_service;
use crate::grpc::status;
use crate::grpc::status::{Code, Refusal, Status};
use crate::ids;
use crate::ids::{job_id_to_string, parse_job_id, JobId};
use crate::node;
use crate::node::update_command;
use crate::proto;
use crate::proto::client;
use crate::proto::client::{or_empty, JobOutputMessage};
use crate::proto::{
    ForwardJobStatusRequest, GetJobOutputRequest, GetJobOutputResponse, WorkerHeartbeatRequest,
};
use crate::raft::rpc;
use crate::raft::rpc::proto_to_updates;
use crate::raft::state::Command;
use crate::scheduler::assigner;
use crate::scheduler::assigner::JobAssigner;
use crate::scheduler::job::JobView;
use crate::scheduler::queue::JobQueue;
use vstd::prelude::*;

verus! {

/// The service for other nodes: what jobs printed, signs of life of workers, and how jobs ended.
#[derive(Debug)]
pub struct InternalServiceImpl {
    pub node_id: u64,
    /// Whether there is a Raft loop to hand commands to.
    pub raft_available: bool,
}

/// What this node says to a question for what a job printed: only the node that ran the job has
/// it. The identifier is given back as it was asked for where this node has nothing.
pub open spec fn job_output(job: JobView, node_id: u64, asked: Seq<char>) -> JobOutputMessage {
    if job.executed_by == Some(node_id) {
        JobOutputMessage {
            job_id: ids::job_id_text(job.id),
            output: client::text_or_empty(job.output),
            error: client::text_or_empty(job.error),
            found: true,
        }
    } else {
        JobOutputMessage { job_id: asked, output: Seq::empty(), error: Seq::empty(), found: false }
    }
}

/// The refusal of a report where there is no Raft loop.
pub open spec fn no_raft_refusal() -> Refusal {
    status::refusal(Code::Unavailable, "Raft not available"@)
}

impl InternalServiceImpl {
    /// A service for this node.
    pub fn new(node_id: u64, raft_available: bool) -> (r: Self)
        ensures
            r.node_id == node_id,
            r.raft_available == raft_available,
    {
        InternalServiceImpl { node_id, raft_available }
    }

    /// What a job printed, once its identifier is read.
    pub fn output_of(&self, queue: &JobQueue, job_id: Option<JobId>, asked: String) -> (r: Result<
        GetJobOutputResponse,
        Status,
    >)
        requires
            queue.wf(),
        ensures
            match client_service::lookup_refusal(queue@, job_id) {
                Some(refusal) => status::refused(r, refusal),
                None => r matches Ok(answer) && answer@ == job_output(
                    queue@[job_id->0],
                    self.node_id,
                    asked@,
                ),
            },
    {
        let job_id = match job_id {
            None => {
                return Err(Status::new(Code::InvalidArgument, "Invalid job ID"));
            },
            Some(job_id) => job_id,
        };
        match queue.get_job(&job_id) {
            None => Err(Status::new(Code::NotFound, "Job not found")),
            Some(job) => {
                let here = match job.executed_by {
                    Some(by) => by == self.node_id,
                    None => false,
                };
                if here {
                    Ok(
                        GetJobOutputResponse {
                            job_id: job_id_to_string(job.id),
                            output: or_empty(&job.output),
                            error: or_empty(&job.error),
                            found: true,
                        },
                    )
                } else {
                    let answer = GetJobOutputResponse {
                        job_id: asked,
                        output: String::new(),
                        error: String::new(),
                        found: false,
                    };
                    assert(answer.output@ =~= Seq::<char>::empty());
                    assert(answer.error@ =~= Seq::<char>::empty());
                    Ok(answer)
                }
            },
        }
    }

    /// What the job of a request printed.
    pub fn get_job_output(&self, queue: &JobQueue, req: GetJobOutputRequest) -> (r: Result<
        GetJobOutputResponse,
        Status,
    >)
        requires
            queue.wf(),
        ensures
            match client_service::lookup_refusal(queue@, ids::parsed_job_id(req.job_id@)) {
                Some(refusal) => status::refused(r, refusal),
                None => r matches Ok(answer) && answer@ == job_output(
                    queue@[ids::parsed_job_id(req.job_id@)->0],
                    self.node_id,
                    req.job_id@,
                ),
            },
    {
        let job_id = parse_job_id(req.job_id.as_str());
        self.output_of(queue, job_id, req.job_id)
    }

    /// Takes note of a worker's sign of life at `now`.
    pub fn worker_heartbeat(
        &self,
        assigner: &mut JobAssigner,
        req: WorkerHeartbeatRequest,
        now: Moment,
    )
        requires
            old(assigner).wf(),
        ensures
            final(assigner).wf(),
            final(assigner).timeout_ms() == old(assigner).timeout_ms(),
            final(assigner)@ == assigner::after_heartbeat(old(assigner)@, req.node_id, now),
    {
        assigner.worker_heartbeat_at(req.node_id, now);
    }

    /// The command that replicates a worker's report; a report on no job needs none. Updates that
    /// are malformed are left out.
    pub fn forward_job_status(&self, req: &ForwardJobStatusRequest) -> (r: Result<
        Option<Command>,
        Status,
    >)
        ensures
            if !self.raft_available {
                status::refused(r, no_raft_refusal())
            } else if req.updates@.len() == 0 {
                r == Ok::<Option<Command>, Status>(None)
            } else {
                &&& r is Ok
                &&& r->Ok_0 is Some
                &&& r->Ok_0->0@ == node::update_command_view(
                    rpc::decode_updates(proto::updates_view(req.updates@)),
                )
            },
    {
        if !self.raft_available {
            return Err(Status::new(Code::Unavailable, "Raft not available"));
        }
        if req.updates.len() == 0 {
            return Ok(None);
        }
        Ok(Some(update_command(proto_to_updates(&req.updates))))
    }

    /// The refusal of a report that could not be handed to the Raft loop.
    pub fn forward_failed() -> (r: Status)
        ensures
            r@ == status::refusal(Code::Internal, "Failed to propose status update"@),
    {
        Status::new(Code::Internal, "Failed to propose status update")
    }
}

} // verus!
