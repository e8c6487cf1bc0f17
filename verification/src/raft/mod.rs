pub mod cluster;
pub mod cluster_laws;
pub mod handling_laws;
pub mod laws;
pub mod node;
pub mod progress_laws;
pub mod rpc;
pub mod safety;
pub mod saving_laws;
pub mod state;
pub mod storage;
pub mod storage_laws;
pub mod timer;
pub mod wire_laws;

pub use node::{RaftMessage, RaftNode};
pub use state::{Command, LogEntry, RaftRole, RaftState};
