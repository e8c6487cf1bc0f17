use crate::proto::{
    AssignJobCommand, BatchUpdateJobStatusCommand, CancelJobCommand, RegisterWorkerCommand,
    SubmitJobCommand, UpdateJobStatusCommand,
};
use vstd::prelude::*;

verus! {

/// The kinds of command on the wire.
#[derive(Debug, Clone)]
pub enum CommandType {
    SubmitJob(SubmitJobCommand),
    UpdateJobStatus(UpdateJobStatusCommand),
    RegisterWorker(RegisterWorkerCommand),
    BatchUpdateJobStatus(BatchUpdateJobStatusCommand),
    AssignJob(AssignJobCommand),
    CancelJob(CancelJobCommand),
}

} // verus!
