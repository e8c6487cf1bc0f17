use crate::text;
use crate::text::{debug_opt_u64, decimal_text};
use vstd::prelude::*;
use vstd::string::*;

verus! {

/// What can go wrong in a node.
#[derive(Debug)]
pub enum NomadError {
    /// The node is not the leader; the leader it knows of.
    NotLeader(Option<u64>),
    JobNotFound(String),
    WorkerNotFound(u64),
    NoWorkersAvailable,
    RaftError(String),
    /// A request to another node was refused.
    GrpcError(String),
    /// Another node could not be reached.
    TransportError(String),
    Internal(String),
}

/// A result with the errors of a node.
pub type Result<T> = std::result::Result<T, NomadError>;

impl NomadError {
    /// The error as users read it.
    pub open spec fn text(self) -> Seq<char> {
        match self {
            NomadError::NotLeader(leader) => "Not the leader, current leader is node "@
                + text::debug_opt(
                match leader {
                    Some(id) => Some(text::decimal(id as nat)),
                    None => None,
                },
            ),
            NomadError::JobNotFound(id) => "Job not found: "@ + id@,
            NomadError::WorkerNotFound(id) => "Worker not found: "@ + text::decimal(id as nat),
            NomadError::NoWorkersAvailable => "No workers available"@,
            NomadError::RaftError(e) => "Raft error: "@ + e@,
            NomadError::GrpcError(e) => "gRPC error: "@ + e@,
            NomadError::TransportError(e) => "Transport error: "@ + e@,
            NomadError::Internal(e) => "Internal error: "@ + e@,
        }
    }

    /// The error as users read it.
    pub fn to_string(&self) -> (r: String)
        ensures
            r@ == self.text(),
    {
        match self {
            NomadError::NotLeader(leader) => {
                "Not the leader, current leader is node ".to_owned().concat(
                    debug_opt_u64(leader).as_str(),
                )
            },
            NomadError::JobNotFound(id) => "Job not found: ".to_owned().concat(id.as_str()),
            NomadError::WorkerNotFound(id) => "Worker not found: ".to_owned().concat(
                decimal_text(*id).as_str(),
            ),
            NomadError::NoWorkersAvailable => "No workers available".to_owned(),
            NomadError::RaftError(e) => "Raft error: ".to_owned().concat(e.as_str()),
            NomadError::GrpcError(e) => "gRPC error: ".to_owned().concat(e.as_str()),
            NomadError::TransportError(e) => "Transport error: ".to_owned().concat(e.as_str()),
            NomadError::Internal(e) => "Internal error: ".to_owned().concat(e.as_str()),
        }
    }
}

} // verus!
