use crate::proto;
use crate::proto::client;
use crate::proto::client::{JobInfoMessage, JobPage};
use crate::proto::{JobInfo, ListJobsRequest, ListJobsResponse};
use crate::text;
use crate::text::to_ascii_lowercase;
use vstd::prelude::*;
use vstd::string::*;

verus! {

/// The status that a number stands for, as the command line shows it.
pub open spec fn status_shown(status: i32) -> Seq<char> {
    match proto::JobStatus::of_number(status) {
        Some(proto::JobStatus::Pending) => "PENDING"@,
        Some(proto::JobStatus::Running) => "RUNNING"@,
        Some(proto::JobStatus::Completed) => "COMPLETED"@,
        Some(proto::JobStatus::Failed) => "FAILED"@,
        Some(proto::JobStatus::Cancelled) => "CANCELLED"@,
        _ => "UNKNOWN"@,
    }
}

/// The status that a number stands for, as the command line shows it.
pub fn job_status_to_string(status: i32) -> (r: String)
    ensures
        r@ == status_shown(status),
{
    match proto::JobStatus::from_number(status) {
        Some(proto::JobStatus::Pending) => "PENDING".to_owned(),
        Some(proto::JobStatus::Running) => "RUNNING".to_owned(),
        Some(proto::JobStatus::Completed) => "COMPLETED".to_owned(),
        Some(proto::JobStatus::Failed) => "FAILED".to_owned(),
        Some(proto::JobStatus::Cancelled) => "CANCELLED".to_owned(),
        _ => "UNKNOWN".to_owned(),
    }
}

/// The status that a word names.
pub open spec fn status_named(word: Seq<char>) -> Option<proto::JobStatus> {
    if word == "pending"@ {
        Some(proto::JobStatus::Pending)
    } else if word == "running"@ {
        Some(proto::JobStatus::Running)
    } else if word == "completed"@ {
        Some(proto::JobStatus::Completed)
    } else if word == "failed"@ {
        Some(proto::JobStatus::Failed)
    } else if word == "cancelled"@ {
        Some(proto::JobStatus::Cancelled)
    } else {
        None
    }
}

/// What is said of a word that names no status.
pub open spec fn unknown_status_text(word: Seq<char>) -> Seq<char> {
    "Unknown status '"@ + word
        + "'. Valid values: pending, running, completed, failed, cancelled"@
}

/// The filter for the status that a word names, in any case; without a word, the filter that
/// lets every job through.
pub fn parse_status_filter(word: Option<&str>) -> (r: Result<i32, String>)
    ensures
        match word {
            None => r == Ok::<i32, String>(0),
            Some(word) => match status_named(text::ascii_lowercase(word@)) {
                Some(status) => r == Ok::<i32, String>(status.number()),
                None => r matches Err(e) && e@ == unknown_status_text(
                    text::ascii_lowercase(word@),
                ),
            },
        },
{
    let word = match word {
        None => {
            return Ok(0);
        },
        Some(word) => to_ascii_lowercase(word),
    };
    if word == "pending".to_owned() {
        Ok(proto::JobStatus::Pending.to_number())
    } else if word == "running".to_owned() {
        Ok(proto::JobStatus::Running.to_number())
    } else if word == "completed".to_owned() {
        Ok(proto::JobStatus::Completed.to_number())
    } else if word == "failed".to_owned() {
        Ok(proto::JobStatus::Failed.to_number())
    } else if word == "cancelled".to_owned() {
        Ok(proto::JobStatus::Cancelled.to_number())
    } else {
        Err(
            "Unknown status '".to_owned().concat(word.as_str()).concat(
                "'. Valid values: pending, running, completed, failed, cancelled",
            ),
        )
    }
}

/// The filters of a list of jobs, as given on the command line.
#[derive(Debug)]
pub struct ListJobsFilters {
    pub worker_id: Option<u64>,
    pub command_substr: Option<String>,
    pub created_after_ms: Option<i64>,
    pub created_before_ms: Option<i64>,
}

impl ListJobsFilters {
    /// Some filter is set that a stream of jobs does not know.
    pub open spec fn beyond_stream(self) -> bool {
        self.worker_id is Some || self.command_substr is Some || self.created_after_ms is Some
            || self.created_before_ms is Some
    }

    /// Tells whether some filter is set that a stream of jobs does not know.
    pub fn ignored_by_stream(&self) -> (r: bool)
        ensures
            r == self.beyond_stream(),
    {
        self.worker_id.is_some() || self.command_substr.is_some()
            || self.created_after_ms.is_some() || self.created_before_ms.is_some()
    }
}

/// A job in a list on the command line.
#[derive(Debug)]
pub struct JobListItem {
    pub job_id: String,
    pub status: String,
    pub command: String,
    pub assigned_worker: u64,
    pub created_at_ms: i64,
}

/// A job in a list on the command line as the model sees it.
#[verifier::ext_equal]
pub struct ItemView {
    pub job_id: Seq<char>,
    pub status: Seq<char>,
    pub command: Seq<char>,
    pub assigned_worker: u64,
    pub created_at_ms: i64,
}

impl View for JobListItem {
    type V = ItemView;

    open spec fn view(&self) -> ItemView {
        ItemView {
            job_id: self.job_id@,
            status: self.status@,
            command: self.command@,
            assigned_worker: self.assigned_worker,
            created_at_ms: self.created_at_ms,
        }
    }
}

/// A job that was received, as the command line lists it.
pub open spec fn item_of(job: JobInfoMessage) -> ItemView {
    ItemView {
        job_id: job.job_id,
        status: status_shown(job.status),
        command: job.command,
        assigned_worker: job.assigned_worker,
        created_at_ms: job.created_at_ms,
    }
}

/// What the items of a list say.
pub open spec fn item_views(items: Seq<JobListItem>) -> Seq<ItemView> {
    items.map_values(|item: JobListItem| item@)
}

/// Jobs that were received, as the command line lists them.
pub open spec fn items_of(jobs: Seq<JobInfoMessage>) -> Seq<ItemView> {
    jobs.map_values(|job: JobInfoMessage| item_of(job))
}

/// A job that was received, as the command line lists it.
fn list_item(job: &JobInfo) -> (r: JobListItem)
    ensures
        r@ == item_of(job@),
{
    JobListItem {
        job_id: job.job_id.clone(),
        status: job_status_to_string(job.status),
        command: job.command.clone(),
        assigned_worker: job.assigned_worker,
        created_at_ms: job.created_at_ms,
    }
}

/// The jobs received so far, and where the next page starts.
#[derive(Debug)]
pub struct JobListOutput {
    pub jobs: Vec<JobListItem>,
    pub total_count: u32,
    pub has_more: bool,
    pub page_token: String,
}

/// A list of jobs as the model sees it.
#[verifier::ext_equal]
pub struct ListView {
    pub jobs: Seq<ItemView>,
    pub total_count: u32,
    pub has_more: bool,
    pub page_token: Seq<char>,
}

impl View for JobListOutput {
    type V = ListView;

    open spec fn view(&self) -> ListView {
        ListView {
            jobs: item_views(self.jobs@),
            total_count: self.total_count,
            has_more: self.has_more,
            page_token: self.page_token@,
        }
    }
}

/// The list with one page more; there is more to come where the page names a next one.
pub open spec fn with_page(list: ListView, page: JobPage) -> ListView {
    ListView {
        jobs: list.jobs + items_of(page.jobs),
        total_count: page.total_count,
        has_more: page.next_page_token.len() > 0,
        page_token: page.next_page_token,
    }
}

impl JobListOutput {
    /// An empty list, before the first page.
    pub fn new() -> (r: Self)
        ensures
            r@ == (ListView {
                jobs: Seq::empty(),
                total_count: 0,
                has_more: false,
                page_token: Seq::empty(),
            }),
    {
        let list = JobListOutput {
            jobs: Vec::new(),
            total_count: 0,
            has_more: false,
            page_token: String::new(),
        };
        assert(list@.jobs =~= Seq::<ItemView>::empty());
        assert(list@.page_token =~= Seq::<char>::empty());
        list
    }

    /// The request for the next page.
    pub fn next_request(&self, page_size: u32, status_filter: i32, filters: &ListJobsFilters) -> (r:
        ListJobsRequest)
        ensures
            r.page_size == page_size,
            r.page_token@ == self@.page_token,
            r.status_filter == status_filter,
            r.worker_id_filter == (match filters.worker_id {
                Some(id) => id,
                None => 0,
            }),
            r.command_filter@ == client::text_or_empty(text::opt_text(filters.command_substr)),
            r.created_after_ms == (match filters.created_after_ms {
                Some(ms) => ms,
                None => 0,
            }),
            r.created_before_ms == (match filters.created_before_ms {
                Some(ms) => ms,
                None => 0,
            }),
    {
        ListJobsRequest {
            page_size,
            page_token: self.page_token.clone(),
            status_filter,
            worker_id_filter: match filters.worker_id {
                Some(id) => id,
                None => 0,
            },
            command_filter: client::or_empty(&filters.command_substr),
            created_after_ms: match filters.created_after_ms {
                Some(ms) => ms,
                None => 0,
            },
            created_before_ms: match filters.created_before_ms {
                Some(ms) => ms,
                None => 0,
            },
        }
    }

    /// Adds received jobs to the list.
    fn add_jobs(&mut self, jobs: &Vec<JobInfo>)
        ensures
            final(self)@ == (ListView {
                jobs: old(self)@.jobs + items_of(client::job_infos(jobs@)),
                ..old(self)@
            }),
    {
        let ghost all = client::job_infos(jobs@);
        let ghost first = self@;
        for i in 0..jobs.len()
            invariant
                all == client::job_infos(jobs@),
                first == old(self)@,
                self@ =~= (ListView {
                    jobs: first.jobs + items_of(all.take(i as int)),
                    ..first
                }),
        {
            let ghost before = self.jobs@;
            let item = list_item(&jobs[i]);
            self.jobs.push(item);
            assert(item_views(self.jobs@) =~= item_views(before).push(item@));
            assert(items_of(all.take(i + 1)) =~= items_of(all.take(i as int)).push(
                item_of(all[i as int]),
            ));
        }
        assert(all.take(all.len() as int) =~= all);
    }

    /// Adds a page to the list. Returns whether the next page is to be asked for: there is one,
    /// and `all` pages are wanted.
    pub fn take_page(&mut self, page: ListJobsResponse, all: bool) -> (r: bool)
        ensures
            final(self)@ == with_page(old(self)@, page@),
            r == (all && page@.next_page_token.len() > 0),
    {
        self.add_jobs(&page.jobs);
        self.total_count = page.total_count;
        self.has_more = !page.next_page_token.as_str().is_empty();
        self.page_token = page.next_page_token;
        all && self.has_more
    }

    /// The list of jobs that came in a stream.
    pub fn of_stream(jobs: &Vec<JobInfo>) -> (r: Self)
        ensures
            r@ == (ListView {
                jobs: items_of(client::job_infos(jobs@)),
                total_count: jobs@.len() as u32,
                has_more: false,
                page_token: Seq::empty(),
            }),
    {
        let mut list = JobListOutput::new();
        list.add_jobs(jobs);
        list.total_count = jobs.len() as u32;
        assert(list@.jobs =~= items_of(client::job_infos(jobs@)));
        list
    }
}

} // verus!
