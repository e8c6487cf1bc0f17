use crate::clock::Moment;
use crate::grpc::status;
use crate::grpc::status::{Code, Refusal, Status};
use crate::proto::{
    AppendEntriesRequest, AppendEntriesResponse, InstallSnapshotRequest, InstallSnapshotResponse,
    VoteRequest, VoteResponse,
};
use crate::raft::node;
use crate::raft::node::RaftNode;
use crate::raft::rpc;
use crate::raft::state;
use vstd::prelude::*;
use vstd::string::*;

verus! {

/// The service for the consensus protocol.
#[derive(Debug)]
pub struct ClusterService {}

/// The refusal of a request whose handler failed.
pub open spec fn handler_refusal(handler: Seq<char>, error: Seq<char>) -> Refusal {
    status::refusal(Code::Internal, handler + " handler error: "@ + error)
}

/// The answer of a handler, or the refusal of the request where it failed.
pub fn handler_answer<T>(handler: &str, result: Result<T, String>) -> (r: Result<T, Status>)
    ensures
        match result {
            Ok(answer) => r == Ok::<T, Status>(answer),
            Err(e) => status::refused(r, handler_refusal(handler@, e@)),
        },
{
    match result {
        Ok(answer) => Ok(answer),
        Err(e) => Err(
            Status {
                code: Code::Internal,
                message: handler.to_owned().concat(" handler error: ").concat(e.as_str()),
            },
        ),
    }
}

/// The refusal of a request whose handler panicked.
pub fn handler_panicked(handler: &str) -> (r: Status)
    ensures
        r@ == status::refusal(Code::Internal, "Internal error in "@ + handler@ + " handler"@),
{
    Status {
        code: Code::Internal,
        message: "Internal error in ".to_owned().concat(handler).concat(" handler"),
    }
}

impl ClusterService {
    /// The service.
    pub fn new() -> Self {
        ClusterService {}
    }

    /// Answers a candidate's request for a vote.
    pub fn request_vote(&self, raft: &mut RaftNode, req: VoteRequest, now: Moment) -> (r: Result<
        VoteResponse,
        Status,
    >)
        ensures
            final(raft).state@ == rpc::after_vote_request(old(raft).state@, req),
            r == Ok::<VoteResponse, Status>(
                VoteResponse {
                    term: final(raft).state@.current_term,
                    vote_granted: rpc::grants_vote(old(raft).state@, req),
                },
            ),
            final(raft).last_heartbeat == (if rpc::grants_vote(old(raft).state@, req) {
                now
            } else {
                old(raft).last_heartbeat
            }),
            *final(raft) == (RaftNode {
                state: final(raft).state,
                last_heartbeat: final(raft).last_heartbeat,
                ..*old(raft)
            }),
    {
        handler_answer("RequestVote", raft.handle_vote_request(req, now))
    }

    /// Answers a leader's entries or heartbeat.
    pub fn append_entries(&self, raft: &mut RaftNode, req: AppendEntriesRequest, now: Moment) -> (r:
        Result<AppendEntriesResponse, Status>)
        ensures
            final(raft).state@ == rpc::after_append_entries(old(raft).state@, req@),
            r == Ok::<AppendEntriesResponse, Status>(
                AppendEntriesResponse {
                    term: final(raft).state@.current_term,
                    success: rpc::accepts_entries(old(raft).state@, req@),
                    match_index: final(raft).state@.last_index(),
                },
            ),
            final(raft).last_heartbeat == (if rpc::accepts_entries(old(raft).state@, req@) {
                now
            } else {
                old(raft).last_heartbeat
            }),
            final(raft).commit_notified == (if rpc::accepts_entries(old(raft).state@, req@)
                && final(raft).state@.commit_index > old(raft).state@.commit_index {
                final(raft).state@.commit_index
            } else {
                old(raft).commit_notified
            }),
            *final(raft) == (RaftNode {
                state: final(raft).state,
                last_heartbeat: final(raft).last_heartbeat,
                commit_notified: final(raft).commit_notified,
                ..*old(raft)
            }),
    {
        handler_answer("AppendEntries", raft.handle_append_entries(req, now))
    }

    /// Answers a leader's snapshot.
    pub fn install_snapshot(&self, raft: &mut RaftNode, req: InstallSnapshotRequest, now: Moment) -> (r:
        Result<InstallSnapshotResponse, Status>)
        ensures
            final(raft).state@ == rpc::after_install_snapshot(old(raft).state@, req@),
            r == Ok::<InstallSnapshotResponse, Status>(
                InstallSnapshotResponse { term: final(raft).state@.current_term },
            ),
            node::covered_by_snapshot(final(raft).state@, req.last_included_index) ==> {
                &&& state::opt_snapshot(final(raft).pending_snapshot) == final(raft).state@.snapshot
                &&& final(raft).commit_notified == final(raft).state@.commit_index
            },
            !node::covered_by_snapshot(final(raft).state@, req.last_included_index) ==> {
                &&& final(raft).pending_snapshot == old(raft).pending_snapshot
                &&& final(raft).commit_notified == old(raft).commit_notified
            },
            *final(raft) == (RaftNode {
                state: final(raft).state,
                last_heartbeat: now,
                pending_snapshot: final(raft).pending_snapshot,
                commit_notified: final(raft).commit_notified,
                ..*old(raft)
            }),
    {
        handler_answer("InstallSnapshot", raft.handle_install_snapshot(req, now))
    }
}

} // verus!
