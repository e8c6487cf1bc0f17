pub mod assigner;
pub mod job;
pub mod laws;
pub mod listing;
pub mod queue;

pub use assigner::JobAssigner;
pub use job::{Job, JobStatus, MAX_COMMAND_LEN};
pub use queue::JobQueue;
