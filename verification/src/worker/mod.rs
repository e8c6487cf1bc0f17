pub mod executor;
pub mod heartbeat;
pub mod laws;

pub use executor::{ExecutionResult, JobExecutor};
pub use heartbeat::HeartbeatSender;
