use crate::cli::jobs;
use crate::cli::jobs::{ItemView, JobListItem, JobListOutput, ListView};
use crate::proto;
use crate::proto::client;
use crate::proto::client::{JobStatusMessage, LogEntryMessage, NodeMessage};
use crate::proto::command::CommandType;
use crate::proto::{
    Command, CommandMessage, GetClusterStatusResponse, GetJobStatusResponse,
    GetRaftLogEntriesResponse, NodeInfo, RaftLogEntryInfo,
};
use crate::text;
use crate::text::{decimal_text, lines_of, pad, repeat, shorten, signed_decimal_text};
use vstd::prelude::*;
use vstd::string::*;

verus! {

/// Adds a line.
fn add_line(lines: &mut Vec<String>, line: String)
    ensures
        text::texts(final(lines)@) == text::texts(old(lines)@).push(line@),
{
    let ghost before = lines@;
    lines.push(line);
    assert(text::texts(lines@) =~= text::texts(before).push(line@));
}

// ---------------------------------------------------------------------------
// Lists of jobs
// ---------------------------------------------------------------------------

/// A row of a list of jobs.
pub open spec fn job_row(id: Seq<char>, status: Seq<char>, worker: Seq<char>, command: Seq<char>) ->
    Seq<char> {
    text::padded(id, 38) + " "@ + text::padded(status, 12) + " "@ + text::padded(worker, 8) + " "@
        + command
}

/// The worker of a job; a dash where there is none.
pub open spec fn worker_shown(worker: u64) -> Seq<char> {
    if worker > 0 {
        text::decimal(worker as nat)
    } else {
        "-"@
    }
}

/// The row of a job. A long command is cut.
pub open spec fn item_row(item: ItemView) -> Seq<char> {
    job_row(
        item.job_id,
        item.status,
        worker_shown(item.assigned_worker),
        text::shortened(item.command, 20, 17),
    )
}

/// What is shown of a list of jobs.
pub open spec fn job_lines(list: ListView) -> Seq<Seq<char>> {
    if list.jobs.len() == 0 {
        seq!["No jobs found."@]
    } else {
        seq![
            job_row("JOB ID"@, "STATUS"@, "WORKER"@, "COMMAND"@),
            text::repeated('-', 78),
        ] + list.jobs.map_values(|item: ItemView| item_row(item)) + seq![
            ""@,
            "Showing "@ + text::decimal(list.jobs.len()) + " of "@ + text::decimal(
                list.total_count as nat,
            ) + " jobs"@,
        ] + (if list.has_more {
            seq!["(Use --all to fetch all pages)"@]
        } else {
            Seq::empty()
        })
    }
}

/// A row of a list of jobs.
fn job_columns(id: &str, status: &str, worker: &str, command: &str) -> (r: String)
    ensures
        r@ == job_row(id@, status@, worker@, command@),
{
    pad(id, 38).concat(" ").concat(pad(status, 12).as_str()).concat(" ").concat(
        pad(worker, 8).as_str(),
    ).concat(" ").concat(command)
}

/// The row of a job.
fn item_line(item: &JobListItem) -> (r: String)
    ensures
        r@ == item_row(item@),
{
    let worker = if item.assigned_worker > 0 {
        decimal_text(item.assigned_worker)
    } else {
        "-".to_owned()
    };
    let command = shorten(item.command.as_str(), 20, 17);
    job_columns(
        item.job_id.as_str(),
        item.status.as_str(),
        worker.as_str(),
        command.as_str(),
    )
}

/// What is shown of a list of jobs. Of a long command the characters within its first seventeen
/// bytes are shown.
pub fn job_table(list: &JobListOutput) -> (r: Vec<String>)
    ensures
        text::texts(r@) == job_lines(list@),
{
    let mut lines: Vec<String> = Vec::new();
    assert(text::texts(lines@) =~= Seq::<Seq<char>>::empty());
    if list.jobs.len() == 0 {
        add_line(&mut lines, "No jobs found.".to_owned());
        assert(text::texts(lines@) =~= job_lines(list@));
        return lines;
    }
    proof {
        reveal_strlit("-");
    }
    add_line(&mut lines, job_columns("JOB ID", "STATUS", "WORKER", "COMMAND"));
    add_line(&mut lines, repeat("-", 78));
    let ghost head = text::texts(lines@);
    assert(head =~= seq![
        job_row("JOB ID"@, "STATUS"@, "WORKER"@, "COMMAND"@),
        text::repeated('-', 78),
    ]);
    for i in 0..list.jobs.len()
        invariant
            text::texts(lines@) =~= head + list@.jobs.take(i as int).map_values(
                |item: ItemView| item_row(item),
            ),
    {
        assert(list@.jobs[i as int] == list.jobs@[i as int]@);
        add_line(&mut lines, item_line(&list.jobs[i]));
    }
    assert(list@.jobs.take(list.jobs@.len() as int) =~= list@.jobs);
    add_line(&mut lines, "".to_owned());
    add_line(
        &mut lines,
        "Showing ".to_owned().concat(decimal_text(list.jobs.len() as u64).as_str()).concat(
            " of ",
        ).concat(decimal_text(list.total_count as u64).as_str()).concat(" jobs"),
    );
    if list.has_more {
        add_line(&mut lines, "(Use --all to fetch all pages)".to_owned());
    }
    assert(text::texts(lines@) =~= job_lines(list@));
    lines
}

// ---------------------------------------------------------------------------
// The state of a job
// ---------------------------------------------------------------------------

/// A title and the lines of a text, indented; nothing where the text is empty.
pub open spec fn block(title: Seq<char>, content: Seq<char>) -> Seq<Seq<char>> {
    if content.len() == 0 {
        Seq::empty()
    } else {
        seq![title] + text::lines(content).map_values(|line: Seq<char>| "  "@ + line)
    }
}

/// A line about a worker; none where there is no worker.
pub open spec fn worker_line(label: Seq<char>, worker: u64) -> Seq<Seq<char>> {
    if worker > 0 {
        seq![label + text::decimal(worker as nat)]
    } else {
        Seq::empty()
    }
}

/// What is shown of the state of a job.
pub open spec fn status_lines(job: JobStatusMessage) -> Seq<Seq<char>> {
    seq![
        "Job ID:          "@ + job.job_id,
        "Status:          "@ + jobs::status_shown(job.status),
    ] + (match job.exit_code {
        Some(code) => seq!["Exit Code:       "@ + text::signed_decimal(code as int)],
        None => Seq::empty(),
    }) + worker_line("Assigned Worker: "@, job.assigned_worker) + worker_line(
        "Executed By:     "@,
        job.executed_by,
    ) + block("Output:"@, job.output) + block("Error:"@, job.error)
}

/// Adds a title and the lines of a text, indented; nothing where the text is empty.
fn add_block(lines: &mut Vec<String>, title: &str, content: &str)
    ensures
        text::texts(final(lines)@) == text::texts(old(lines)@) + block(title@, content@),
{
    let ghost before = text::texts(lines@);
    if content.is_empty() {
        assert(before =~= before + block(title@, content@));
        return;
    }
    add_line(lines, title.to_owned());
    let parts = lines_of(content);
    let ghost all = text::lines(content@);
    for i in 0..parts.len()
        invariant
            all == text::str_texts(parts@),
            text::texts(lines@) =~= before.push(title@) + all.take(i as int).map_values(
                |line: Seq<char>| "  "@ + line,
            ),
    {
        assert(all[i as int] == parts@[i as int]@);
        add_line(lines, "  ".to_owned().concat(parts[i]));
    }
    assert(all.take(all.len() as int) =~= all);
    assert(text::texts(lines@) =~= before + block(title@, content@));
}

/// Adds a line about a worker; none where there is no worker.
fn add_worker(lines: &mut Vec<String>, label: &str, worker: u64)
    ensures
        text::texts(final(lines)@) == text::texts(old(lines)@) + worker_line(label@, worker),
{
    let ghost before = text::texts(lines@);
    if worker > 0 {
        add_line(lines, label.to_owned().concat(decimal_text(worker).as_str()));
    }
    assert(text::texts(lines@) =~= before + worker_line(label@, worker));
}

/// What is shown of the state of a job.
pub fn job_status_table(job: &GetJobStatusResponse) -> (r: Vec<String>)
    ensures
        text::texts(r@) == status_lines(job@),
{
    let mut lines: Vec<String> = Vec::new();
    assert(text::texts(lines@) =~= Seq::<Seq<char>>::empty());
    add_line(&mut lines, "Job ID:          ".to_owned().concat(job.job_id.as_str()));
    add_line(
        &mut lines,
        "Status:          ".to_owned().concat(jobs::job_status_to_string(job.status).as_str()),
    );
    let ghost head = text::texts(lines@);
    assert(head =~= seq![
        "Job ID:          "@ + job.job_id@,
        "Status:          "@ + jobs::status_shown(job.status),
    ]);
    match job.exit_code {
        Some(code) => add_line(
            &mut lines,
            "Exit Code:       ".to_owned().concat(signed_decimal_text(code).as_str()),
        ),
        None => {},
    }
    assert(text::texts(lines@) =~= head + (match job.exit_code {
        Some(code) => seq!["Exit Code:       "@ + text::signed_decimal(code as int)],
        None => Seq::empty(),
    }));
    add_worker(&mut lines, "Assigned Worker: ", job.assigned_worker);
    add_worker(&mut lines, "Executed By:     ", job.executed_by);
    add_block(&mut lines, "Output:", job.output.as_str());
    add_block(&mut lines, "Error:", job.error.as_str());
    lines
}

// ---------------------------------------------------------------------------
// The cluster
// ---------------------------------------------------------------------------

/// A row of a list of nodes.
pub open spec fn node_row(id: Seq<char>, address: Seq<char>, status: Seq<char>) -> Seq<char> {
    text::padded(id, 8) + " "@ + text::padded(address, 25) + " "@ + status
}

/// The row of a node.
pub open spec fn node_line(n: NodeMessage) -> Seq<char> {
    node_row(
        text::decimal(n.node_id as nat),
        n.address,
        if n.is_alive {
            "[+] alive"@
        } else {
            "[-] dead"@
        },
    )
}

/// What is shown of the state of the cluster.
pub open spec fn cluster_lines(term: u64, leader: u64, nodes: Seq<NodeMessage>) -> Seq<Seq<char>> {
    seq![
        "Cluster Status"@,
        text::repeated('=', 40),
        "Term:   "@ + text::decimal(term as nat),
        "Leader: Node "@ + text::decimal(leader as nat),
        ""@,
        "Nodes:"@,
        node_row("ID"@, "ADDRESS"@, "STATUS"@),
        text::repeated('-', 45),
    ] + nodes.map_values(|n: NodeMessage| node_line(n))
}

/// A row of a list of nodes.
fn node_columns(id: &str, address: &str, status: &str) -> (r: String)
    ensures
        r@ == node_row(id@, address@, status@),
{
    pad(id, 8).concat(" ").concat(pad(address, 25).as_str()).concat(" ").concat(status)
}

/// The row of a node.
fn line_of_node(n: &NodeInfo) -> (r: String)
    ensures
        r@ == node_line(n@),
{
    let status = if n.is_alive {
        "[+] alive"
    } else {
        "[-] dead"
    };
    node_columns(decimal_text(n.node_id).as_str(), n.address.as_str(), status)
}

/// What is shown of the state of the cluster.
pub fn cluster_table(status: &GetClusterStatusResponse) -> (r: Vec<String>)
    ensures
        text::texts(r@) == cluster_lines(
            status.current_term,
            status.leader_id,
            client::node_messages(status.nodes@),
        ),
{
    let mut lines: Vec<String> = Vec::new();
    assert(text::texts(lines@) =~= Seq::<Seq<char>>::empty());
    proof {
        reveal_strlit("-");
        reveal_strlit("=");
    }
    add_line(&mut lines, "Cluster Status".to_owned());
    add_line(&mut lines, repeat("=", 40));
    add_line(&mut lines, "Term:   ".to_owned().concat(decimal_text(status.current_term).as_str()));
    add_line(
        &mut lines,
        "Leader: Node ".to_owned().concat(decimal_text(status.leader_id).as_str()),
    );
    add_line(&mut lines, "".to_owned());
    add_line(&mut lines, "Nodes:".to_owned());
    add_line(&mut lines, node_columns("ID", "ADDRESS", "STATUS"));
    add_line(&mut lines, repeat("-", 45));
    let ghost head = text::texts(lines@);
    let ghost all = client::node_messages(status.nodes@);
    for i in 0..status.nodes.len()
        invariant
            all == client::node_messages(status.nodes@),
            text::texts(lines@) =~= head + all.take(i as int).map_values(
                |n: NodeMessage| node_line(n),
            ),
    {
        assert(all[i as int] == status.nodes@[i as int]@);
        add_line(&mut lines, line_of_node(&status.nodes[i]));
    }
    assert(all.take(all.len() as int) =~= all);
    assert(text::texts(lines@) =~= cluster_lines(status.current_term, status.leader_id, all));
    lines
}

// ---------------------------------------------------------------------------
// The log
// ---------------------------------------------------------------------------

/// The name of the status that a number stands for.
pub open spec fn status_name(status: i32) -> Seq<char> {
    match proto::JobStatus::of_number(status) {
        Some(proto::JobStatus::Unspecified) => "Unspecified"@,
        Some(proto::JobStatus::Pending) => "Pending"@,
        Some(proto::JobStatus::Running) => "Running"@,
        Some(proto::JobStatus::Completed) => "Completed"@,
        Some(proto::JobStatus::Failed) => "Failed"@,
        Some(proto::JobStatus::Cancelled) => "Cancelled"@,
        None => "Unknown"@,
    }
}

/// What kind of command it is, and its details.
pub open spec fn command_shown(command: CommandMessage) -> (Seq<char>, Seq<char>) {
    match command {
        CommandMessage::SubmitJob { job_id, command, .. } => (
            "SubmitJob"@,
            "job_id="@ + job_id + ", cmd="@ + command,
        ),
        CommandMessage::UpdateJobStatus { update } => (
            "UpdateJobStatus"@,
            "job_id="@ + update.job_id + ", status="@ + status_name(update.status),
        ),
        CommandMessage::BatchUpdateJobStatus { updates } => (
            "BatchUpdateJobStatus"@,
            text::decimal(updates.len()) + " updates"@,
        ),
        CommandMessage::AssignJob { job_id, worker_id } => (
            "AssignJob"@,
            "job_id="@ + job_id + ", worker_id="@ + text::decimal(worker_id as nat),
        ),
        CommandMessage::CancelJob { job_id } => ("CancelJob"@, job_id),
        CommandMessage::RegisterWorker { worker_id } => (
            "RegisterWorker"@,
            "worker_id="@ + text::decimal(worker_id as nat),
        ),
        CommandMessage::Nothing => ("Noop"@, Seq::empty()),
    }
}

/// The name of the status that a number stands for.
fn name_of_status(status: i32) -> (r: &'static str)
    ensures
        r@ == status_name(status),
{
    match proto::JobStatus::from_number(status) {
        Some(proto::JobStatus::Unspecified) => "Unspecified",
        Some(proto::JobStatus::Pending) => "Pending",
        Some(proto::JobStatus::Running) => "Running",
        Some(proto::JobStatus::Completed) => "Completed",
        Some(proto::JobStatus::Failed) => "Failed",
        Some(proto::JobStatus::Cancelled) => "Cancelled",
        None => "Unknown",
    }
}

/// A command without effect, as it is shown.
fn noop_shown() -> (r: (String, String))
    ensures
        r.0@ == "Noop"@,
        r.1@ == Seq::<char>::empty(),
{
    let empty = String::new();
    assert(empty@ =~= Seq::<char>::empty());
    ("Noop".to_owned(), empty)
}

/// What kind of command it is, and its details.
pub fn format_command(command: &Option<Command>) -> (r: (String, String))
    ensures
        (r.0@, r.1@) == command_shown(proto::command_message(*command)),
{
    let command = match command {
        None => {
            return noop_shown();
        },
        Some(command) => command,
    };
    match &command.command_type {
        Some(CommandType::SubmitJob(c)) => (
            "SubmitJob".to_owned(),
            "job_id=".to_owned().concat(c.job_id.as_str()).concat(", cmd=").concat(
                c.command.as_str(),
            ),
        ),
        Some(CommandType::UpdateJobStatus(c)) => (
            "UpdateJobStatus".to_owned(),
            "job_id=".to_owned().concat(c.job_id.as_str()).concat(", status=").concat(
                name_of_status(c.status),
            ),
        ),
        Some(CommandType::BatchUpdateJobStatus(c)) => (
            "BatchUpdateJobStatus".to_owned(),
            decimal_text(c.updates.len() as u64).concat(" updates"),
        ),
        Some(CommandType::AssignJob(c)) => (
            "AssignJob".to_owned(),
            "job_id=".to_owned().concat(c.job_id.as_str()).concat(", worker_id=").concat(
                decimal_text(c.worker_id).as_str(),
            ),
        ),
        Some(CommandType::CancelJob(c)) => ("CancelJob".to_owned(), c.job_id.clone()),
        Some(CommandType::RegisterWorker(c)) => (
            "RegisterWorker".to_owned(),
            "worker_id=".to_owned().concat(decimal_text(c.worker_id).as_str()),
        ),
        None => noop_shown(),
    }
}

/// A row of a list of log entries.
pub open spec fn entry_row(
    index: Seq<char>,
    term: Seq<char>,
    committed: Seq<char>,
    kind: Seq<char>,
    details: Seq<char>,
) -> Seq<char> {
    text::padded(index, 6) + " "@ + text::padded(term, 6) + " "@ + text::padded(committed, 10)
        + " "@ + text::padded(kind, 20) + " "@ + details
}

/// The row of a log entry. Long details are cut.
pub open spec fn entry_line(entry: LogEntryMessage) -> Seq<char> {
    let shown = command_shown(entry.command);
    entry_row(
        text::decimal(entry.index as nat),
        text::decimal(entry.term as nat),
        if entry.is_committed {
            "yes"@
        } else {
            "no"@
        },
        shown.0,
        text::shortened(shown.1, 30, 27),
    )
}

/// The line on how far the log reaches, and one on the entries that are compacted, where there
/// are some.
pub open spec fn extent_lines(first: u64, commit: u64, last: u64) -> Seq<Seq<char>> {
    let extent = "Commit Index: "@ + text::decimal(commit as nat) + "  |  Last Log Index: "@
        + text::decimal(last as nat);
    if first > 1 {
        seq![
            "First Available: "@ + text::decimal(first as nat) + "  |  "@ + extent,
            "(Entries 1-"@ + text::decimal((first - 1) as nat)
                + " were compacted into a snapshot)"@,
        ]
    } else {
        seq![extent]
    }
}

/// What is shown of a part of the log.
pub open spec fn log_lines(
    entries: Seq<LogEntryMessage>,
    first: u64,
    commit: u64,
    last: u64,
) -> Seq<Seq<char>> {
    if entries.len() == 0 {
        seq!["No log entries found."@]
    } else {
        seq!["Raft Log Entries"@, text::repeated('=', 80)] + extent_lines(first, commit, last)
            + seq![
            ""@,
            entry_row("INDEX"@, "TERM"@, "COMMITTED"@, "TYPE"@, "DETAILS"@),
            text::repeated('-', 80),
        ] + entries.map_values(|e: LogEntryMessage| entry_line(e)) + seq![
            ""@,
            "Showing "@ + text::decimal(entries.len()) + " entries"@,
        ]
    }
}

/// A row of a list of log entries.
fn entry_columns(index: &str, term: &str, committed: &str, kind: &str, details: &str) -> (r: String)
    ensures
        r@ == entry_row(index@, term@, committed@, kind@, details@),
{
    pad(index, 6).concat(" ").concat(pad(term, 6).as_str()).concat(" ").concat(
        pad(committed, 10).as_str(),
    ).concat(" ").concat(pad(kind, 20).as_str()).concat(" ").concat(details)
}

/// The row of a log entry.
fn line_of_entry(entry: &RaftLogEntryInfo) -> (r: String)
    ensures
        r@ == entry_line(entry@),
{
    let committed = if entry.is_committed {
        "yes"
    } else {
        "no"
    };
    let (kind, details) = format_command(&entry.command);
    entry_columns(
        decimal_text(entry.index).as_str(),
        decimal_text(entry.term).as_str(),
        committed,
        kind.as_str(),
        shorten(details.as_str(), 30, 27).as_str(),
    )
}

/// Adds the lines on how far the log reaches.
fn add_extent(lines: &mut Vec<String>, first: u64, commit: u64, last: u64)
    ensures
        text::texts(final(lines)@) == text::texts(old(lines)@) + extent_lines(first, commit, last),
{
    let ghost before = text::texts(lines@);
    let extent = "Commit Index: ".to_owned().concat(decimal_text(commit).as_str()).concat(
        "  |  Last Log Index: ",
    ).concat(decimal_text(last).as_str());
    if first > 1 {
        add_line(
            lines,
            "First Available: ".to_owned().concat(decimal_text(first).as_str()).concat(
                "  |  ",
            ).concat(extent.as_str()),
        );
        add_line(
            lines,
            "(Entries 1-".to_owned().concat(decimal_text(first - 1).as_str()).concat(
                " were compacted into a snapshot)",
            ),
        );
    } else {
        add_line(lines, extent);
    }
    assert(text::texts(lines@) =~= before + extent_lines(first, commit, last));
}

/// What is shown of a part of the log. Of long details the characters within their first
/// twenty-seven bytes are shown.
pub fn log_table(log: &GetRaftLogEntriesResponse) -> (r: Vec<String>)
    ensures
        text::texts(r@) == log_lines(
            client::log_entry_messages(log.entries@),
            log.first_available_index,
            log.commit_index,
            log.last_log_index,
        ),
{
    let ghost all = client::log_entry_messages(log.entries@);
    let mut lines: Vec<String> = Vec::new();
    assert(text::texts(lines@) =~= Seq::<Seq<char>>::empty());
    if log.entries.len() == 0 {
        add_line(&mut lines, "No log entries found.".to_owned());
        assert(text::texts(lines@) =~= seq!["No log entries found."@]);
        return lines;
    }
    proof {
        reveal_strlit("-");
        reveal_strlit("=");
    }
    add_line(&mut lines, "Raft Log Entries".to_owned());
    add_line(&mut lines, repeat("=", 80));
    assert(text::texts(lines@) =~= seq!["Raft Log Entries"@, text::repeated('=', 80)]);
    add_extent(&mut lines, log.first_available_index, log.commit_index, log.last_log_index);
    add_line(&mut lines, "".to_owned());
    add_line(&mut lines, entry_columns("INDEX", "TERM", "COMMITTED", "TYPE", "DETAILS"));
    add_line(&mut lines, repeat("-", 80));
    let ghost head = text::texts(lines@);
    assert(head =~= seq!["Raft Log Entries"@, text::repeated('=', 80)] + extent_lines(
        log.first_available_index,
        log.commit_index,
        log.last_log_index,
    ) + seq![
        ""@,
        entry_row("INDEX"@, "TERM"@, "COMMITTED"@, "TYPE"@, "DETAILS"@),
        text::repeated('-', 80),
    ]);
    for i in 0..log.entries.len()
        invariant
            all == client::log_entry_messages(log.entries@),
            text::texts(lines@) =~= head + all.take(i as int).map_values(
                |e: LogEntryMessage| entry_line(e),
            ),
    {
        assert(all[i as int] == log.entries@[i as int]@);
        add_line(&mut lines, line_of_entry(&log.entries[i]));
    }
    assert(all.take(all.len() as int) =~= all);
    add_line(&mut lines, "".to_owned());
    add_line(
        &mut lines,
        "Showing ".to_owned().concat(decimal_text(log.entries.len() as u64).as_str()).concat(
            " entries",
        ),
    );
    assert(text::texts(lines@) =~= log_lines(
        all,
        log.first_available_index,
        log.commit_index,
        log.last_log_index,
    ));
    lines
}

} // verus!
