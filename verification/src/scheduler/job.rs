use crate::clock;
use crate::clock::{wall_clock, Timestamp};
use crate::ids;
use crate::ids::{draw_job_id, JobId};
use crate::text;
use vstd::prelude::*;

verus! {

/// Length in bytes of the longest command that the dashboard takes.
pub const MAX_COMMAND_LEN: usize = 4096;

/// Where a job stands in its life.
#[derive(Debug, Clone, Copy, PartialEq, Eq, Structural)]
pub enum JobStatus {
    Pending,
    Running,
    Completed,
    Failed,
    Cancelled,
}

impl JobStatus {
    /// The status as users read it.
    pub open spec fn text(self) -> Seq<char> {
        match self {
            JobStatus::Pending => "pending"@,
            JobStatus::Running => "running"@,
            JobStatus::Completed => "completed"@,
            JobStatus::Failed => "failed"@,
            JobStatus::Cancelled => "cancelled"@,
        }
    }

    /// The job still waits or runs.
    pub open spec fn active(self) -> bool {
        self is Pending || self is Running
    }

    /// Tells whether a job in this status still waits or runs.
    pub fn is_active(&self) -> (r: bool)
        ensures
            r == self.active(),
    {
        matches!(self, JobStatus::Pending | JobStatus::Running)
    }

    /// The status as users read it.
    pub fn to_string(&self) -> (r: String)
        ensures
            r@ == self.text(),
    {
        match self {
            JobStatus::Pending => "pending".to_owned(),
            JobStatus::Running => "running".to_owned(),
            JobStatus::Completed => "completed".to_owned(),
            JobStatus::Failed => "failed".to_owned(),
            JobStatus::Cancelled => "cancelled".to_owned(),
        }
    }
}

/// A job and everything known about its execution.
#[derive(Debug)]
pub struct Job {
    pub id: JobId,
    pub command: String,
    /// Docker image for this job alone; the node's image when absent.
    pub image: Option<String>,
    pub status: JobStatus,
    pub assigned_worker: Option<u64>,
    pub executed_by: Option<u64>,
    pub exit_code: Option<i32>,
    pub output: Option<String>,
    pub error: Option<String>,
    pub created_at: Timestamp,
    pub completed_at: Option<Timestamp>,
}

impl Clone for Job {
    fn clone(&self) -> (r: Self)
        ensures
            r == *self,
    {
        Job {
            id: self.id,
            command: self.command.clone(),
            image: self.image.clone(),
            status: self.status,
            assigned_worker: self.assigned_worker,
            executed_by: self.executed_by,
            exit_code: self.exit_code,
            output: self.output.clone(),
            error: self.error.clone(),
            created_at: self.created_at,
            completed_at: self.completed_at,
        }
    }
}

/// A job as the model sees it: the texts are sequences of characters.
#[verifier::ext_equal]
pub struct JobView {
    pub id: JobId,
    pub command: Seq<char>,
    pub image: Option<Seq<char>>,
    pub status: JobStatus,
    pub assigned_worker: Option<u64>,
    pub executed_by: Option<u64>,
    pub exit_code: Option<i32>,
    pub output: Option<Seq<char>>,
    pub error: Option<Seq<char>>,
    pub created_at: Timestamp,
    pub completed_at: Option<Timestamp>,
}

impl View for Job {
    type V = JobView;

    open spec fn view(&self) -> JobView {
        JobView {
            id: self.id,
            command: self.command@,
            image: text::opt_text(self.image),
            status: self.status,
            assigned_worker: self.assigned_worker,
            executed_by: self.executed_by,
            exit_code: self.exit_code,
            output: text::opt_text(self.output),
            error: text::opt_text(self.error),
            created_at: self.created_at,
            completed_at: self.completed_at,
        }
    }
}

impl JobView {
    /// The moments in this job are moments of the calendar.
    pub open spec fn wf(self) -> bool {
        &&& self.created_at.wf()
        &&& self.completed_at is Some ==> self.completed_at->0.wf()
    }
}

/// A job that has just been submitted: it waits, and nothing has happened to it yet.
pub open spec fn fresh_job(
    id: JobId,
    command: Seq<char>,
    image: Option<Seq<char>>,
    created_at: Timestamp,
) -> JobView {
    JobView {
        id,
        command,
        image,
        status: JobStatus::Pending,
        assigned_worker: None,
        executed_by: None,
        exit_code: None,
        output: None,
        error: None,
        created_at,
        completed_at: None,
    }
}

impl Job {
    /// A fresh job for `command`, under an identifier drawn at random, created at the moment that
    /// the wall clock shows.
    pub fn new(command: String) -> (r: Self)
        ensures
            r@ == fresh_job(r.id, command@, None, r.created_at),
            r@.wf(),
            ids::drawn_at_random(r.id),
            clock::read_from_wall_clock(r.created_at),
    {
        Job::with_id(draw_job_id(), command, wall_clock())
    }

    /// A fresh job with the given identifier and moment of creation.
    pub fn with_id(id: JobId, command: String, created_at: Timestamp) -> (r: Self)
        ensures
            r@ == fresh_job(id, command@, None, created_at),
    {
        Job {
            id,
            command,
            image: None,
            status: JobStatus::Pending,
            assigned_worker: None,
            executed_by: None,
            exit_code: None,
            output: None,
            error: None,
            created_at,
            completed_at: None,
        }
    }

    /// The same job, to be run in `image`.
    pub fn with_image(self, image: Option<String>) -> (r: Self)
        ensures
            r@ == (JobView { image: text::opt_text(image), ..self@ }),
    {
        let mut job = self;
        job.image = image;
        job
    }
}

} // verus!
