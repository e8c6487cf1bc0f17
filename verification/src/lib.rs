//! A distributed job scheduler: Raft consensus, job queue, worker assignment,
//! job execution and the services in front of them.
//!
//! Every item is verified. What reaches outside (clocks, random numbers, identifiers, time
//! formats, JSON) stands behind small functions of `clock`, `ids`, `text`, `raft::timer`,
//! `raft::storage` and `worker::executor`.

pub mod cli;
pub mod clock;
pub mod config;
pub mod dashboard;
pub mod dashboard_laws;
pub mod error;
pub mod grpc;
pub mod ids;
pub mod job_laws;
pub mod lemmas;
pub mod node;
pub mod node_laws;
pub mod proto;
pub mod raft;
pub mod scheduler;
pub mod text;
pub mod text_laws;
pub mod tls;
pub mod worker;
