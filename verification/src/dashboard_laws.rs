//! What holds of the web dashboard.

use crate::clock;
use crate::dashboard;
use crate::dashboard::{CancelJobResponse, HttpStatus, Refused, SubmitJobResponse};
use crate::grpc::client_service;
use crate::ids;
use crate::ids::JobId;
use crate::node;
use crate::node::Machine;
use crate::raft::state::{CommandView, StateView};
use crate::scheduler::job::{JobStatus, JobView};
use crate::text;
use vstd::prelude::*;

verus! {

/// Answers have the numbers of the protocol.
pub proof fn answers_have_their_numbers(status: HttpStatus)
    ensures
        status is Success ==> status.number() == 200,
        status is BadRequest ==> status.number() == 400,
        status is NotFound ==> status.number() == 404,
        status is InternalServerError ==> status.number() == 500,
        status is ServiceUnavailable ==> status.number() == 503,
{
}

/// The dashboard shows of a job all that the node knows of it.
pub proof fn dashboards_show_jobs_as_they_are(job: JobView)
    ensures
        ({
            let shown = dashboard::shown_job(job);
            &&& shown.id == ids::job_id_text(job.id)
            &&& shown.command == job.command
            &&& shown.status == (match job.status {
                JobStatus::Pending => "pending"@,
                JobStatus::Running => "running"@,
                JobStatus::Completed => "completed"@,
                JobStatus::Failed => "failed"@,
                JobStatus::Cancelled => "cancelled"@,
            })
            &&& shown.executed_by == job.executed_by
            &&& shown.output == job.output
            &&& shown.error == job.error
            &&& shown.created_at == clock::rfc3339_text(
                job.created_at.seconds,
                job.created_at.nanos,
            )
            &&& shown.completed_at is Some <==> job.completed_at is Some
            &&& job.completed_at matches Some(t) ==> shown.completed_at->0 == clock::rfc3339_text(
                t.seconds,
                t.nanos,
            )
        }),
{
}

/// The dashboard takes a job exactly where a leader that is not being drained has room for it, and
/// its command holds something other than white space and is no longer than 4096 bytes. A refusal
/// tells the first of the reasons.
pub proof fn dashboards_take_jobs_for_the_leader(
    s: StateView,
    full: bool,
    draining: bool,
    command: Seq<char>,
)
    ensures
        ({
            let refusal = dashboard::submit_refusal(s, full, draining, command);
            let says_something = exists|i: int|
                0 <= i < command.len() && !text::white_space(#[trigger] command[i]);
            let fits = vstd::utf8::encode_utf8(command).len() <= 4096;
            let leads = s.role is Leader;
            &&& refusal is None <==> !draining && says_something && fits && leads && !full
            &&& draining ==> refusal->0.status is ServiceUnavailable
            &&& !draining && !(says_something && fits && leads) ==> refusal->0.status is BadRequest
            &&& !draining && says_something && fits && leads && full ==> refusal->0.status
                is ServiceUnavailable
        }),
{
}

/// The dashboard takes no job that a client could not submit, and what it takes there is room for.
pub proof fn dashboards_are_no_less_strict_than_clients(
    s: StateView,
    id: u64,
    full: bool,
    draining: bool,
    command: Seq<char>,
)
    ensures
        dashboard::submit_refusal(s, full, draining, command) is None
            ==> client_service::submit_refusal(s, id, draining, command) is None && !full,
{
}

/// The dashboard cancels a job exactly where a leader knows it and it waits or runs; the
/// cancellation then takes effect. A refusal tells the first of the reasons.
pub proof fn dashboards_cancel_active_jobs(
    s: StateView,
    m: Machine,
    capacity: usize,
    job_id: JobId,
    now: clock::Moment,
)
    ensures
        ({
            let refusal = dashboard::cancel_refusal(s, m.jobs, Some(job_id));
            let leads = s.role is Leader;
            let known = m.jobs.contains_key(job_id);
            let status = m.jobs[job_id].status;
            let after = node::apply(m, capacity, CommandView::CancelJob { job_id }, now).jobs;
            &&& refusal is None <==> leads && known && (status is Pending || status is Running)
            &&& refusal is None ==> after.contains_key(job_id) && after[job_id].status is Cancelled
            &&& !leads ==> refusal->0.status is BadRequest
            &&& leads && !known ==> refusal->0.status is NotFound
            &&& leads && known && (status is Completed || status is Failed || status is Cancelled)
                ==> refusal->0.status is BadRequest && refusal->0.reason == "job is already "@ + (
            match status {
                JobStatus::Completed => "completed"@,
                JobStatus::Failed => "failed"@,
                _ => "cancelled"@,
            })
        }),
        dashboard::cancel_refusal(s, m.jobs, None) is Some,
        dashboard::cancel_refusal(s, m.jobs, None)->0.status is BadRequest,
{
}

/// A refusal is told with its status and reason, and nothing that would pass for success.
pub proof fn dashboards_tell_why(
    submitted: (HttpStatus, SubmitJobResponse),
    cancelled: (HttpStatus, CancelJobResponse),
    with: Refused,
)
    ensures
        dashboard::submit_refused(submitted, with) <==> {
            &&& submitted.0 == with.status
            &&& !submitted.1.success
            &&& submitted.1.job_id is None
            &&& submitted.1.error is Some
            &&& submitted.1.error->0@ == with.reason
        },
        dashboard::cancel_refused(cancelled, with) <==> {
            &&& cancelled.0 == with.status
            &&& !cancelled.1.success
            &&& cancelled.1.error is Some
            &&& cancelled.1.error->0@ == with.reason
        },
        dashboard::too_long_text() == "Command exceeds the maximum length of "@ + text::decimal(
            4096,
        ) + " bytes"@,
{
}

} // verus!
