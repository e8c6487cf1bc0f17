//! What the command line reads and shows.

use crate::cli::jobs;
use crate::cli::jobs::{ItemView, ListJobsFilters, ListView};
use crate::cli::peers;
use crate::cli::peers::PeerView;
use crate::cli::redirect;
use crate::cli::server;
use crate::cli::tables;
use crate::config;
use crate::config::{NodeConfig, TlsConfig};
use crate::proto::client::{
    JobInfoMessage, JobPage, JobStatusMessage, LogEntryMessage, NodeMessage,
};
use crate::proto::CommandMessage;
use crate::text;
use crate::text_laws;
use crate::tls;
use crate::tls::{TlsError, TlsPaths};
use vstd::prelude::*;

verus! {

// ---------------------------------------------------------------------------
// Statuses
// ---------------------------------------------------------------------------

/// Each status is shown under its own name, and any other number as unknown.
pub proof fn statuses_are_shown_by_name(number: i32)
    ensures
        number == 1 ==> jobs::status_shown(number) == "PENDING"@,
        number == 2 ==> jobs::status_shown(number) == "RUNNING"@,
        number == 3 ==> jobs::status_shown(number) == "COMPLETED"@,
        number == 4 ==> jobs::status_shown(number) == "FAILED"@,
        number == 5 ==> jobs::status_shown(number) == "CANCELLED"@,
        number < 1 || number > 5 ==> jobs::status_shown(number) == "UNKNOWN"@,
        number == 0 ==> tables::status_name(number) == "Unspecified"@,
        number == 1 ==> tables::status_name(number) == "Pending"@,
        number == 2 ==> tables::status_name(number) == "Running"@,
        number == 3 ==> tables::status_name(number) == "Completed"@,
        number == 4 ==> tables::status_name(number) == "Failed"@,
        number == 5 ==> tables::status_name(number) == "Cancelled"@,
        number < 0 || number > 5 ==> tables::status_name(number) == "Unknown"@,
{
}

/// A word names the status whose number is then asked for; no two words name the same, and no
/// other word names one.
pub proof fn words_name_their_status(word: Seq<char>)
    ensures
        word == "pending"@ ==> jobs::status_named(word) is Some && jobs::status_named(
            word,
        )->0.number() == 1,
        word == "running"@ ==> jobs::status_named(word) is Some && jobs::status_named(
            word,
        )->0.number() == 2,
        word == "completed"@ ==> jobs::status_named(word) is Some && jobs::status_named(
            word,
        )->0.number() == 3,
        word == "failed"@ ==> jobs::status_named(word) is Some && jobs::status_named(
            word,
        )->0.number() == 4,
        word == "cancelled"@ ==> jobs::status_named(word) is Some && jobs::status_named(
            word,
        )->0.number() == 5,
        word != "pending"@ && word != "running"@ && word != "completed"@ && word != "failed"@
            && word != "cancelled"@ ==> jobs::status_named(word) is None,
{
    reveal_strlit("pending");
    reveal_strlit("running");
    reveal_strlit("completed");
    reveal_strlit("failed");
    reveal_strlit("cancelled");
    assert("pending"@[0] == 'p');
    assert("running"@[0] == 'r');
    assert("completed"@[1] == 'o');
    assert("failed"@[0] == 'f');
    assert("cancelled"@[1] == 'a');
    assert("completed"@[0] == 'c');
    assert("cancelled"@[0] == 'c');
}

// ---------------------------------------------------------------------------
// Lists of jobs
// ---------------------------------------------------------------------------

/// A job is listed with what was received of it.
pub proof fn received_jobs_are_listed(job: JobInfoMessage)
    ensures
        jobs::item_of(job).job_id == job.job_id,
        jobs::item_of(job).status == jobs::status_shown(job.status),
        jobs::item_of(job).command == job.command,
        jobs::item_of(job).assigned_worker == job.assigned_worker,
        jobs::item_of(job).created_at_ms == job.created_at_ms,
{
}

/// A page goes behind what the list holds; there is more exactly when the page names a next one.
pub proof fn pages_go_to_the_end(list: ListView, page: JobPage)
    ensures
        ({
            let after = jobs::with_page(list, page);
            &&& after.jobs.len() == list.jobs.len() + page.jobs.len()
            &&& forall|i: int|
                0 <= i < list.jobs.len() ==> #[trigger] after.jobs[i] == list.jobs[i]
            &&& forall|i: int|
                list.jobs.len() <= i < after.jobs.len() ==> #[trigger] after.jobs[i]
                    == jobs::item_of(page.jobs[i - list.jobs.len()])
            &&& after.total_count == page.total_count
            &&& after.has_more <==> page.next_page_token.len() > 0
            &&& after.page_token == page.next_page_token
        }),
{
}

/// Every job of a list has a row of its own, in order, below two lines of heading, and below them
/// stands how many there are. Without jobs there is one line that says so.
pub proof fn every_job_has_a_row(list: ListView, i: int)
    requires
        0 <= i < list.jobs.len(),
    ensures
        ({
            let lines = tables::job_lines(list);
            let n = list.jobs.len() as int;
            &&& lines.len() == n + 4 + (if list.has_more {
                1int
            } else {
                0int
            })
            &&& shows_job(lines[i + 2], list.jobs[i])
            &&& lines[n + 3] == "Showing "@ + text::decimal(list.jobs.len()) + " of "@
                + text::decimal(list.total_count as nat) + " jobs"@
        }),
{
    row_shows_job(list.jobs[i]);
    assert(tables::job_lines(list)[i + 2] == tables::item_row(list.jobs[i]));
}

/// The row holds identifier, status, worker and command of the job, a long command cut.
pub open spec fn shows_job(row: Seq<char>, item: ItemView) -> bool {
    &&& text::stands_at(row, item.job_id, 0)
    &&& text::occurs_in(row, item.status)
    &&& text::occurs_in(
        row,
        if item.assigned_worker > 0 {
            text::decimal(item.assigned_worker as nat)
        } else {
            "-"@
        },
    )
    &&& text::occurs_in(row, text::shortened(item.command, 20, 17))
}

proof fn row_shows_job(item: ItemView)
    ensures
        shows_job(tables::item_row(item), item),
{
    let row = tables::item_row(item);
    let worker = tables::worker_shown(item.assigned_worker);
    let command = text::shortened(item.command, 20, 17);
    let id = text::padded(item.job_id, 38);
    let status = text::padded(item.status, 12);
    let cell = text::padded(worker, 8);
    text_laws::padding_fills_with_spaces(item.job_id, 38);
    text_laws::padding_fills_with_spaces(item.status, 12);
    text_laws::padding_fills_with_spaces(worker, 8);
    assert(row.subrange(0, item.job_id.len() as int) =~= id.take(item.job_id.len() as int));
    let a = id.len() + " "@.len();
    assert(row.subrange(a as int, (a + item.status.len()) as int) =~= status.take(
        item.status.len() as int,
    ));
    assert(text::stands_at(row, item.status, a as int));
    let b = a + status.len() + " "@.len();
    assert(row.subrange(b as int, (b + worker.len()) as int) =~= cell.take(worker.len() as int));
    assert(text::stands_at(row, worker, b as int));
    let c = b + cell.len() + " "@.len();
    assert(row.subrange(c as int, (c + command.len()) as int) =~= command);
    assert(text::stands_at(row, command, c as int));
}

/// The state of a job is shown with its identifier and status first. Exit code, workers, output
/// and error are shown where they are known.
pub proof fn known_parts_are_shown(job: JobStatusMessage)
    ensures
        ({
            let lines = tables::status_lines(job);
            let code: int = if job.exit_code is Some {
                1
            } else {
                0
            };
            let worker: int = if job.assigned_worker > 0 {
                1
            } else {
                0
            };
            let by: int = if job.executed_by > 0 {
                1
            } else {
                0
            };
            let output: int = if job.output.len() > 0 {
                1 + text::lines(job.output).len() as int
            } else {
                0
            };
            let error: int = if job.error.len() > 0 {
                1 + text::lines(job.error).len() as int
            } else {
                0
            };
            &&& lines.len() == 2 + code + worker + by + output + error
            &&& lines[0] == "Job ID:          "@ + job.job_id
            &&& lines[1] == "Status:          "@ + jobs::status_shown(job.status)
            &&& job.exit_code matches Some(n) ==> lines[2] == "Exit Code:       "@
                + text::signed_decimal(n as int)
            &&& job.assigned_worker > 0 ==> lines[2 + code] == "Assigned Worker: "@ + text::decimal(
                job.assigned_worker as nat,
            )
            &&& job.executed_by > 0 ==> lines[2 + code + worker] == "Executed By:     "@
                + text::decimal(job.executed_by as nat)
            &&& job.output.len() > 0 ==> lines[2 + code + worker + by] == "Output:"@
            &&& forall|i: int|
                job.output.len() > 0 && 0 <= i < text::lines(job.output).len()
                    ==> lines[#[trigger] (2 + code + worker + by + 1 + i)] == "  "@ + text::lines(
                    job.output,
                )[i]
            &&& job.error.len() > 0 ==> lines[2 + code + worker + by + output] == "Error:"@
            &&& forall|i: int|
                job.error.len() > 0 && 0 <= i < text::lines(job.error).len()
                    ==> lines[#[trigger] (2 + code + worker + by + output + 1 + i)] == "  "@
                    + text::lines(job.error)[i]
        }),
{
}

/// Every node of a cluster has a line, in order, with its number, its address and whether it is
/// alive.
pub proof fn every_node_has_a_line(term: u64, leader: u64, nodes: Seq<NodeMessage>, i: int)
    requires
        0 <= i < nodes.len(),
    ensures
        ({
            let lines = tables::cluster_lines(term, leader, nodes);
            let row = lines[i + 8];
            &&& lines.len() == nodes.len() + 8
            &&& lines[2] == "Term:   "@ + text::decimal(term as nat)
            &&& lines[3] == "Leader: Node "@ + text::decimal(leader as nat)
            &&& text::stands_at(row, text::decimal(nodes[i].node_id as nat), 0)
            &&& text::occurs_in(row, nodes[i].address)
            &&& nodes[i].is_alive ==> text::occurs_in(row, "[+] alive"@)
            &&& !nodes[i].is_alive ==> text::occurs_in(row, "[-] dead"@)
        }),
{
    let n = nodes[i];
    let id = text::decimal(n.node_id as nat);
    let status = if n.is_alive {
        "[+] alive"@
    } else {
        "[-] dead"@
    };
    let row = tables::node_line(n);
    assert(tables::cluster_lines(term, leader, nodes)[i + 8] == row);
    text_laws::padding_fills_with_spaces(id, 8);
    text_laws::padding_fills_with_spaces(n.address, 25);
    assert(row.subrange(0, id.len() as int) =~= text::padded(id, 8).take(id.len() as int));
    let a = text::padded(id, 8).len() + " "@.len();
    assert(row.subrange(a as int, (a + n.address.len()) as int) =~= text::padded(
        n.address,
        25,
    ).take(n.address.len() as int));
    assert(text::stands_at(row, n.address, a as int));
    let b = a + text::padded(n.address, 25).len() + " "@.len();
    assert(row.subrange(b as int, (b + status.len()) as int) =~= status);
    assert(text::stands_at(row, status, b as int));
}

/// Commands are shown under their kind, with what they name.
pub proof fn commands_are_shown_by_kind(command: CommandMessage)
    ensures
        ({
            let shown = tables::command_shown(command);
            match command {
                CommandMessage::SubmitJob { job_id, command, .. } => shown.0 == "SubmitJob"@
                    && shown.1 == "job_id="@ + job_id + ", cmd="@ + command,
                CommandMessage::UpdateJobStatus { update } => shown.0 == "UpdateJobStatus"@
                    && shown.1 == "job_id="@ + update.job_id + ", status="@ + tables::status_name(
                    update.status,
                ),
                CommandMessage::BatchUpdateJobStatus { updates } => shown.0
                    == "BatchUpdateJobStatus"@ && shown.1 == text::decimal(updates.len())
                    + " updates"@,
                CommandMessage::AssignJob { job_id, worker_id } => shown.0 == "AssignJob"@
                    && shown.1 == "job_id="@ + job_id + ", worker_id="@ + text::decimal(
                    worker_id as nat,
                ),
                CommandMessage::CancelJob { job_id } => shown.0 == "CancelJob"@ && shown.1
                    == job_id,
                CommandMessage::RegisterWorker { worker_id } => shown.0 == "RegisterWorker"@
                    && shown.1 == "worker_id="@ + text::decimal(worker_id as nat),
                CommandMessage::Nothing => shown.0 == "Noop"@ && shown.1.len() == 0,
            }
        }),
{
}

/// Every entry of the log has a line, in order, that starts with its index and tells whether it is
/// committed. What was compacted is told of exactly when something was.
pub proof fn every_entry_has_a_line(
    entries: Seq<LogEntryMessage>,
    first: u64,
    commit: u64,
    last: u64,
    i: int,
)
    requires
        0 <= i < entries.len(),
    ensures
        ({
            let lines = tables::log_lines(entries, first, commit, last);
            let head: int = if first > 1 {
                7
            } else {
                6
            };
            let row = lines[head + i];
            &&& lines.len() == head + entries.len() + 2
            &&& text::stands_at(row, text::decimal(entries[i].index as nat), 0)
            &&& text::occurs_in(row, text::decimal(entries[i].term as nat))
            &&& entries[i].is_committed ==> text::occurs_in(row, "yes"@)
            &&& !entries[i].is_committed ==> text::occurs_in(row, "no"@)
            &&& text::occurs_in(row, tables::command_shown(entries[i].command).0)
            &&& text::occurs_in(
                row,
                text::shortened(tables::command_shown(entries[i].command).1, 30, 27),
            )
            &&& first > 1 ==> lines[3] == "(Entries 1-"@ + text::decimal((first - 1) as nat)
                + " were compacted into a snapshot)"@
            &&& first <= 1 ==> lines[2] == "Commit Index: "@ + text::decimal(commit as nat)
                + "  |  Last Log Index: "@ + text::decimal(last as nat)
        }),
{
    let e = entries[i];
    let lines = tables::log_lines(entries, first, commit, last);
    let head: int = if first > 1 {
        7
    } else {
        6
    };
    let row = tables::entry_line(e);
    assert(lines[head + i] == row);
    let index = text::decimal(e.index as nat);
    let term = text::decimal(e.term as nat);
    let committed = if e.is_committed {
        "yes"@
    } else {
        "no"@
    };
    let kind = tables::command_shown(e.command).0;
    let details = text::shortened(tables::command_shown(e.command).1, 30, 27);
    text_laws::padding_fills_with_spaces(index, 6);
    text_laws::padding_fills_with_spaces(term, 6);
    text_laws::padding_fills_with_spaces(committed, 10);
    text_laws::padding_fills_with_spaces(kind, 20);
    assert(row.subrange(0, index.len() as int) =~= text::padded(index, 6).take(
        index.len() as int,
    ));
    let a = text::padded(index, 6).len() + " "@.len();
    assert(row.subrange(a as int, (a + term.len()) as int) =~= text::padded(term, 6).take(
        term.len() as int,
    ));
    assert(text::stands_at(row, term, a as int));
    let b = a + text::padded(term, 6).len() + " "@.len();
    assert(row.subrange(b as int, (b + committed.len()) as int) =~= text::padded(
        committed,
        10,
    ).take(committed.len() as int));
    assert(text::stands_at(row, committed, b as int));
    let c = b + text::padded(committed, 10).len() + " "@.len();
    assert(row.subrange(c as int, (c + kind.len()) as int) =~= text::padded(kind, 20).take(
        kind.len() as int,
    ));
    assert(text::stands_at(row, kind, c as int));
    let d = c + text::padded(kind, 20).len() + " "@.len();
    assert(row.subrange(d as int, (d + details.len()) as int) =~= details);
    assert(text::stands_at(row, details, d as int));
}

// ---------------------------------------------------------------------------
// Peers and addresses
// ---------------------------------------------------------------------------

/// The text is made of characters that neither separate nor pad.
pub open spec fn plain(t: Seq<char>) -> bool {
    forall|i: int|
        0 <= i < t.len() ==> #[trigger] t[i] != ':' && t[i] != ',' && !text::white_space(t[i])
}

/// A peer is read from its number, host and port.
pub proof fn peers_are_read_back(id: u64, host: Seq<char>, port: Seq<char>)
    requires
        plain(host),
        plain(port),
    ensures
        peers::peer_of(text::decimal(id as nat) + seq![':'] + host + seq![':'] + port) == Some(
            (id, host + seq![':'] + port),
        ),
{
    let number = text::decimal(id as nat);
    let whole = number + seq![':'] + host + seq![':'] + port;
    text::decimal_is_read_back(id as nat, u64::MAX as nat);
    assert forall|i: int| 0 <= i < number.len() implies #[trigger] number[i] != ':'
        && !text::white_space(number[i]) by {
        assert('0' <= number[i] <= '9');
        text_laws::white_space_shows_nothing(number[i]);
    }
    text_laws::white_space_shows_nothing(':');
    assert forall|i: int| 0 <= i < whole.len() implies !text::white_space(#[trigger] whole[i]) by {
        let a = number.len();
        let b = a + 1 + host.len();
        if i < a {
            assert(whole[i] == number[i]);
        } else if i == a {
        } else if i < b {
            assert(whole[i] == host[i - a - 1]);
        } else if i == b {
        } else {
            assert(whole[i] == port[i - b - 1]);
        }
    }
    text_laws::trimming_leaves_words_alone(whole);
    assert(!number.contains(':'));
    assert(!host.contains(':'));
    assert(!port.contains(':'));
    text_laws::whole_texts_are_one_part(number, ':');
    text_laws::whole_texts_are_one_part(host, ':');
    text_laws::whole_texts_are_one_part(port, ':');
    text_laws::parts_stand_side_by_side(number + seq![':'] + host, port, ':');
    text_laws::parts_stand_side_by_side(number, host, ':');
    let fields = text::split(whole, ':');
    assert(fields =~= seq![number, host, port]);
    reveal_strlit(":");
    assert(":"@ =~= seq![':']);
}

/// A list of peers holds those of its parts, in order, and passes over what is no peer.
pub proof fn lists_of_peers_are_read_in_order(a: Seq<char>, b: Seq<char>)
    ensures
        peers::peers_of(text::split(a + seq![','] + b, ',')) == peers::peers_of(
            text::split(a, ','),
        ) + peers::peers_of(text::split(b, ',')),
        !a.contains(',') ==> peers::peers_of(text::split(a, ',')) == (match peers::peer_of(a) {
            Some(peer) => seq![peer],
            None => Seq::<PeerView>::empty(),
        }),
{
    text_laws::parts_stand_side_by_side(a, b, ',');
    peers_side_by_side(text::split(a, ','), text::split(b, ','));
    if !a.contains(',') {
        text_laws::whole_texts_are_one_part(a, ',');
        let parts = text::split(a, ',');
        assert(parts.drop_last() =~= Seq::<Seq<char>>::empty());
        assert(peers::peers_of(parts.drop_last()) =~= Seq::<PeerView>::empty());
        assert(parts.last() == a);
        assert(peers::peers_of(parts) =~= (match peers::peer_of(a) {
            Some(peer) => seq![peer],
            None => Seq::<PeerView>::empty(),
        }));
    }
}

proof fn peers_side_by_side(a: Seq<Seq<char>>, b: Seq<Seq<char>>)
    ensures
        peers::peers_of(a + b) == peers::peers_of(a) + peers::peers_of(b),
    decreases b.len(),
{
    if b.len() == 0 {
        assert(a + b =~= a);
        assert(peers::peers_of(a) + peers::peers_of(b) =~= peers::peers_of(a));
    } else {
        peers_side_by_side(a, b.drop_last());
        assert((a + b).drop_last() =~= a + b.drop_last());
        assert((a + b).last() == b.last());
        assert(peers::peers_of(a + b) =~= peers::peers_of(a) + peers::peers_of(b));
    }
}

/// What is no peer has not three parts, or no number first.
pub proof fn malformed_peers_are_passed_over(part: Seq<char>)
    ensures
        peers::peer_of(part) is Some <==> {
            let fields = text::split(text::trimmed(part), ':');
            fields.len() == 3 && text::parsed_number(fields[0], u64::MAX as nat) is Some
        },
{
}

/// A client reaches the leader the way it reached its node: over TLS exactly where that was.
pub proof fn redirects_keep_the_scheme(rest: Seq<char>, addr: Seq<char>)
    ensures
        redirect::url_of_leader("https://"@ + rest, addr) == "https://"@ + addr,
        redirect::url_of_leader("http://"@ + rest, addr) == "http://"@ + addr,
{
    let secure = "https://"@ + rest;
    let open = "http://"@ + rest;
    assert(secure.subrange(0, "https://"@.len() as int) =~= "https://"@);
    reveal_strlit("https://");
    reveal_strlit("http://");
    if text::stands_at(open, "https://"@, 0) {
        assert(open.subrange(0, "https://"@.len() as int)[4] == open[4]);
        assert(open[4] == ':');
        assert("https://"@[4] == 's');
    }
}

/// The address found for a node is that of the first node with its number; none is found exactly
/// where there is no such node.
pub proof fn addresses_are_found_by_number(nodes: Seq<NodeMessage>, id: u64)
    ensures
        redirect::first_addr(nodes, id) is None <==> forall|i: int|
            0 <= i < nodes.len() ==> (#[trigger] nodes[i]).node_id != id,
        redirect::first_addr(nodes, id) matches Some(addr) ==> exists|i: int|
            {
                &&& 0 <= i < nodes.len()
                &&& (#[trigger] nodes[i]).node_id == id
                &&& nodes[i].address == addr
                &&& forall|k: int| 0 <= k < i ==> (#[trigger] nodes[k]).node_id != id
            },
    decreases nodes.len(),
{
    if nodes.len() > 0 && nodes[0].node_id != id {
        let rest = nodes.skip(1);
        addresses_are_found_by_number(rest, id);
        match redirect::first_addr(rest, id) {
            None => {
                assert forall|i: int| 0 <= i < nodes.len() implies (#[trigger] nodes[i]).node_id
                    != id by {
                    if i > 0 {
                        assert(rest[i - 1].node_id != id);
                    }
                }
            },
            Some(addr) => {
                let i = choose|i: int|
                    {
                        &&& 0 <= i < rest.len()
                        &&& (#[trigger] rest[i]).node_id == id
                        &&& rest[i].address == addr
                        &&& forall|k: int| 0 <= k < i ==> (#[trigger] rest[k]).node_id != id
                    };
                assert(nodes[i + 1].node_id == id);
                assert forall|k: int| 0 <= k < i + 1 implies (#[trigger] nodes[k]).node_id
                    != id by {
                    if k > 0 {
                        assert(rest[k - 1].node_id != id);
                    }
                }
            },
        }
    } else if nodes.len() > 0 {
        assert(nodes[0].node_id == id);
    }
}

/// A port is listened on at all interfaces.
pub proof fn servers_listen_everywhere(port: u16)
    ensures
        server::any_interface(port) == "0.0.0.0:"@ + text::decimal(port as nat),
{
}

// ---------------------------------------------------------------------------
// Certificates
// ---------------------------------------------------------------------------

/// Certificates are used only where all three files are named and exist; otherwise the first that
/// is missing is told of.
pub proof fn certificates_need_all_files(
    config: TlsConfig,
    paths: TlsPaths,
    ca: bool,
    cert: bool,
    key: bool,
)
    ensures
        tls::missing_setting(config) is None <==> config.ca_cert_path is Some && config.cert_path
            is Some && config.key_path is Some,
        config.ca_cert_path is None ==> tls::missing_setting(config) == Some(
            TlsError::MissingCaCert,
        ),
        config.ca_cert_path is Some && config.cert_path is None ==> tls::missing_setting(config)
            == Some(TlsError::MissingCert),
        config.ca_cert_path is Some && config.cert_path is Some && config.key_path is None
            ==> tls::missing_setting(config) == Some(TlsError::MissingKey),
        tls::missing_file(paths, ca, cert, key) is None <==> ca && cert && key,
        !ca ==> tls::missing_file(paths, ca, cert, key) == Some(
            TlsError::CaCertNotFound(paths.ca_cert),
        ),
        ca && !cert ==> tls::missing_file(paths, ca, cert, key) == Some(
            TlsError::CertNotFound(paths.cert),
        ),
        ca && cert && !key ==> tls::missing_file(paths, ca, cert, key) == Some(
            TlsError::KeyNotFound(paths.key),
        ),
{
}

/// What is said of arguments that cannot be used.
pub proof fn arguments_are_refused_with_a_reason(word: Seq<char>, filters: ListJobsFilters)
    ensures
        jobs::unknown_status_text(word) == "Unknown status '"@ + word
            + "'. Valid values: pending, running, completed, failed, cancelled"@,
        server::missing_paths_text()
            == "TLS enabled but missing required paths (--ca-cert, --cert, --key)"@,
        !filters.beyond_stream() <==> filters.worker_id is None && filters.command_substr is None
            && filters.created_after_ms is None && filters.created_before_ms is None,
{
}

/// The settings that hold unless told otherwise.
pub proof fn usual_settings(c: NodeConfig, node_id: u64, addr: Seq<char>)
    requires
        config::default_node(c, node_id, addr),
    ensures
        c.node_id == node_id,
        c.listen_addr@ == addr,
        c.advertise_addr@ == addr,
        c.peers@.len() == 0,
        c.election_timeout_min_ms == 150,
        c.election_timeout_max_ms == 300,
        c.heartbeat_interval_ms == 50,
        c.sandbox.image@ == "alpine:latest"@,
        c.sandbox.network_disabled,
        c.sandbox.memory_limit matches Some(limit) && limit@ == "256m"@,
        c.sandbox.cpu_limit matches Some(limit) && limit@ == "0.5"@,
        c.sandbox.timeout_secs == 30,
        !c.tls.enabled,
        !c.tls.allow_insecure,
        c.data_dir is None,
{
}

} // verus!
