use nomad_lite::cli::jobs::{
    job_status_to_string, parse_status_filter, JobListOutput, ListJobsFilters,
};
use nomad_lite::cli::peers::parse_peers;
use nomad_lite::cli::redirect::{
    find_leader_addr, leader_addr_from_error, leader_url, redirect, redirect_by_cluster, uses_tls,
    Redirect,
};
use nomad_lite::cli::server::{
    dashboard_addr, server_config, tls_after_load, tls_plan, tls_settings, ServerArgs, TlsPlan,
};
use nomad_lite::cli::tables::{
    cluster_table, format_command, job_status_table, job_table, log_table,
};
use nomad_lite::error::NomadError;
use nomad_lite::proto::command::CommandType;
use nomad_lite::proto::{
    AssignJobCommand, BatchUpdateJobStatusCommand, CancelJobCommand, Command,
    GetClusterStatusResponse, GetJobStatusResponse, GetRaftLogEntriesResponse, JobInfo,
    ListJobsResponse, NodeInfo, RaftLogEntryInfo, RegisterWorkerCommand, SubmitJobCommand,
    UpdateJobStatusCommand,
};
use std::path::PathBuf;

#[test]
fn peers_are_read_from_a_list() {
    assert!(parse_peers("").is_empty());
    let peers = parse_peers("2:127.0.0.1:50052, 3:node3:50053 ,bad,x:h:1,4:a:b:c,+5::");
    let shown: Vec<(u64, &str)> = peers.iter().map(|p| (p.node_id, p.addr.as_str())).collect();
    assert_eq!(
        shown,
        vec![(2, "127.0.0.1:50052"), (3, "node3:50053"), (5, ":")]
    );
}

#[test]
fn statuses_are_shown_in_capitals() {
    let shown: Vec<String> = (0..7).map(job_status_to_string).collect();
    assert_eq!(
        shown,
        vec!["UNKNOWN", "PENDING", "RUNNING", "COMPLETED", "FAILED", "CANCELLED", "UNKNOWN"]
    );
}

#[test]
fn status_filters_are_words() {
    assert_eq!(parse_status_filter(None), Ok(0));
    assert_eq!(parse_status_filter(Some("Pending")), Ok(1));
    assert_eq!(parse_status_filter(Some("RUNNING")), Ok(2));
    assert_eq!(parse_status_filter(Some("completed")), Ok(3));
    assert_eq!(parse_status_filter(Some("failed")), Ok(4));
    assert_eq!(parse_status_filter(Some("cancelled")), Ok(5));
    assert_eq!(
        parse_status_filter(Some("Done")),
        Err(
            "Unknown status 'done'. Valid values: pending, running, completed, failed, cancelled"
                .to_string()
        )
    );
}

#[test]
fn clients_are_redirected() {
    assert_eq!(
        leader_addr_from_error("Not the leader. Try 10.0.0.1:50051"),
        Some("10.0.0.1:50051")
    );
    assert_eq!(leader_addr_from_error("Not the leader."), None);
    match redirect("Not the leader. Try a:1", "https://b:1") {
        Redirect::To(url) => assert_eq!(url, "https://a:1"),
        _ => panic!("the address is in the message"),
    }
    assert!(matches!(
        redirect("Not the leader. Redirect to node 3", "http://b:1"),
        Redirect::AskCluster
    ));
    assert!(matches!(
        redirect("Not the leader. Leader unknown, retry later", "http://b:1"),
        Redirect::AskCluster
    ));
    assert!(matches!(redirect("Job not found", "http://b:1"), Redirect::No));
    assert_eq!(leader_url("http://x", "y:2"), "http://y:2");
    assert!(uses_tls("https://x", false));
    assert!(uses_tls("http://x", true));
    assert!(!uses_tls("http://x", false));
}

fn node(node_id: u64, address: &str, is_alive: bool) -> NodeInfo {
    NodeInfo {
        node_id,
        address: address.to_string(),
        is_alive,
    }
}

#[test]
fn the_cluster_names_the_leader() {
    let mut status = GetClusterStatusResponse {
        current_term: 5,
        leader_id: 2,
        nodes: vec![node(1, "a:1", true), node(2, "b:1", true)],
    };
    assert_eq!(find_leader_addr(&status).as_deref(), Some("b:1"));
    assert_eq!(
        redirect_by_cluster(&status, "https://a:1").as_deref(),
        Some("https://b:1")
    );
    status.leader_id = 7;
    assert_eq!(find_leader_addr(&status), None);
    assert_eq!(redirect_by_cluster(&status, "a:1"), None);
}

#[test]
fn the_cluster_is_shown_as_a_table() {
    let status = GetClusterStatusResponse {
        current_term: 5,
        leader_id: 1,
        nodes: vec![node(1, "0.0.0.0:50051", true), node(2, "127.0.0.1:50052", false)],
    };
    assert_eq!(
        cluster_table(&status),
        vec![
            "Cluster Status",
            "========================================",
            "Term:   5",
            "Leader: Node 1",
            "",
            "Nodes:",
            "ID       ADDRESS                   STATUS",
            "---------------------------------------------",
            "1        0.0.0.0:50051             [+] alive",
            "2        127.0.0.1:50052           [-] dead",
        ]
    );
}

fn info(job_id: &str, command: &str, worker: u64) -> JobInfo {
    JobInfo {
        job_id: job_id.to_string(),
        command: command.to_string(),
        status: 3,
        assigned_worker: worker,
        created_at_ms: 1,
        completed_at_ms: None,
    }
}

#[test]
fn jobs_are_shown_as_a_table() {
    let id = "ef319e40-c888-490d-8349-e9c05f78cf5a";
    let mut list = JobListOutput::new();
    assert_eq!(job_table(&list), vec!["No jobs found."]);
    let more = list.take_page(
        ListJobsResponse {
            jobs: vec![
                info(id, "echo hello", 1),
                info("b", "a command of 24 letters!", 0),
            ],
            next_page_token: "2".to_string(),
            total_count: 9,
        },
        false,
    );
    assert!(!more);
    assert!(list.has_more);
    assert_eq!(
        job_table(&list),
        vec![
            "JOB ID                                 STATUS       WORKER   COMMAND".to_string(),
            "-".repeat(78),
            format!("{}   COMPLETED    1        echo hello", id),
            format!("{:<38} COMPLETED    -        a command of 24 l...", "b"),
            "".to_string(),
            "Showing 2 of 9 jobs".to_string(),
            "(Use --all to fetch all pages)".to_string(),
        ]
    );
}

#[test]
fn long_texts_are_cut_between_letters() {
    let command_text = "\u{e9}".repeat(11);
    let mut list = JobListOutput::new();
    list.take_page(
        ListJobsResponse {
            jobs: vec![info("b", &command_text, 0)],
            next_page_token: String::new(),
            total_count: 1,
        },
        false,
    );
    assert_eq!(
        job_table(&list)[2],
        format!(
            "{:<38} COMPLETED    -        {}...",
            "b",
            "\u{e9}".repeat(8)
        )
    );
    let log = GetRaftLogEntriesResponse {
        entries: vec![RaftLogEntryInfo {
            index: 1,
            term: 1,
            command: command(CommandType::SubmitJob(SubmitJobCommand {
                job_id: "bd764021".to_string(),
                command: command_text,
                image: None,
                created_at_ms: 0,
            })),
            is_committed: true,
        }],
        commit_index: 1,
        last_log_index: 1,
        first_available_index: 1,
    };
    let line = log_table(&log)
        .into_iter()
        .find(|line| line.contains("SubmitJob"))
        .unwrap();
    assert!(line.ends_with("job_id=bd764021, cmd=\u{e9}\u{e9}\u{e9}..."));
}

#[test]
fn all_pages_are_collected() {
    let filters = ListJobsFilters {
        worker_id: Some(4),
        command_substr: None,
        created_after_ms: None,
        created_before_ms: Some(9),
    };
    assert!(filters.ignored_by_stream());
    let mut list = JobListOutput::new();
    let first = list.next_request(3, 2, &filters);
    assert_eq!(first.page_token, "");
    assert_eq!(first.page_size, 3);
    assert_eq!(first.status_filter, 2);
    assert_eq!(first.worker_id_filter, 4);
    assert_eq!(first.command_filter, "");
    assert_eq!(first.created_after_ms, 0);
    assert_eq!(first.created_before_ms, 9);
    let page = |id: &str, token: &str| ListJobsResponse {
        jobs: vec![info(id, "c", 1)],
        next_page_token: token.to_string(),
        total_count: 2,
    };
    assert!(list.take_page(page("a", "1"), true));
    assert_eq!(list.next_request(3, 2, &filters).page_token, "1");
    assert!(!list.take_page(page("b", ""), true));
    assert!(!list.has_more);
    assert_eq!(list.jobs.len(), 2);
    assert_eq!(list.jobs[1].job_id, "b");
    assert_eq!(list.jobs[1].status, "COMPLETED");
    let streamed = JobListOutput::of_stream(&vec![info("a", "c", 1), info("b", "c", 1)]);
    assert_eq!(streamed.total_count, 2);
    assert!(!streamed.has_more);
}

#[test]
fn the_state_of_a_job_is_shown() {
    let mut job = GetJobStatusResponse {
        job_id: "id".to_string(),
        status: 3,
        output: "hello\r\nworld\n".to_string(),
        error: String::new(),
        assigned_worker: 1,
        executed_by: 1,
        exit_code: Some(0),
        created_at_ms: 0,
        completed_at_ms: None,
    };
    assert_eq!(
        job_status_table(&job),
        vec![
            "Job ID:          id",
            "Status:          COMPLETED",
            "Exit Code:       0",
            "Assigned Worker: 1",
            "Executed By:     1",
            "Output:",
            "  hello",
            "  world",
        ]
    );
    job.output = String::new();
    job.error = "a\n\nb\r".to_string();
    job.exit_code = Some(-1);
    job.assigned_worker = 0;
    job.executed_by = 0;
    assert_eq!(
        job_status_table(&job),
        vec![
            "Job ID:          id",
            "Status:          COMPLETED",
            "Exit Code:       -1",
            "Error:",
            "  a",
            "  ",
            "  b\r",
        ]
    );
}

fn command(command_type: CommandType) -> Option<Command> {
    Some(Command {
        command_type: Some(command_type),
    })
}

fn update(status: i32) -> UpdateJobStatusCommand {
    UpdateJobStatusCommand {
        job_id: "u".to_string(),
        status,
        executed_by: 1,
        exit_code: None,
        completed_at_ms: None,
    }
}

#[test]
fn commands_are_shown_with_details() {
    let shown = |c: Option<Command>| {
        let (kind, details) = format_command(&c);
        format!("{}|{}", kind, details)
    };
    assert_eq!(shown(None), "Noop|");
    assert_eq!(shown(Some(Command { command_type: None })), "Noop|");
    assert_eq!(
        shown(command(CommandType::SubmitJob(SubmitJobCommand {
            job_id: "j".to_string(),
            command: "echo".to_string(),
            image: None,
            created_at_ms: 0,
        }))),
        "SubmitJob|job_id=j, cmd=echo"
    );
    assert_eq!(
        shown(command(CommandType::UpdateJobStatus(update(3)))),
        "UpdateJobStatus|job_id=u, status=Completed"
    );
    assert_eq!(
        shown(command(CommandType::UpdateJobStatus(update(9)))),
        "UpdateJobStatus|job_id=u, status=Unknown"
    );
    assert_eq!(
        shown(command(CommandType::BatchUpdateJobStatus(
            BatchUpdateJobStatusCommand {
                updates: vec![update(1), update(2), update(3)],
            }
        ))),
        "BatchUpdateJobStatus|3 updates"
    );
    assert_eq!(
        shown(command(CommandType::AssignJob(AssignJobCommand {
            job_id: "a".to_string(),
            worker_id: 7,
        }))),
        "AssignJob|job_id=a, worker_id=7"
    );
    assert_eq!(
        shown(command(CommandType::CancelJob(CancelJobCommand {
            job_id: "c".to_string(),
        }))),
        "CancelJob|c"
    );
    assert_eq!(
        shown(command(CommandType::RegisterWorker(RegisterWorkerCommand {
            worker_id: 3,
        }))),
        "RegisterWorker|worker_id=3"
    );
}

#[test]
fn the_log_is_shown_as_a_table() {
    let mut log = GetRaftLogEntriesResponse {
        entries: vec![],
        commit_index: 1050,
        last_log_index: 1051,
        first_available_index: 1001,
    };
    assert_eq!(log_table(&log), vec!["No log entries found."]);
    log.entries = vec![
        RaftLogEntryInfo {
            index: 1001,
            term: 2,
            command: None,
            is_committed: true,
        },
        RaftLogEntryInfo {
            index: 1051,
            term: 2,
            command: command(CommandType::SubmitJob(SubmitJobCommand {
                job_id: "bd764021".to_string(),
                command: "echo something long".to_string(),
                image: None,
                created_at_ms: 0,
            })),
            is_committed: false,
        },
    ];
    let lines = log_table(&log);
    assert_eq!(lines[0], "Raft Log Entries");
    assert_eq!(lines[1], "=".repeat(80));
    assert_eq!(
        lines[2],
        "First Available: 1001  |  Commit Index: 1050  |  Last Log Index: 1051"
    );
    assert_eq!(lines[3], "(Entries 1-1000 were compacted into a snapshot)");
    assert_eq!(lines[4], "");
    assert_eq!(lines[5], "INDEX  TERM   COMMITTED  TYPE                 DETAILS");
    assert_eq!(lines[6], "-".repeat(80));
    assert_eq!(lines[7], "1001   2      yes        Noop                 ");
    assert_eq!(
        lines[8],
        "1051   2      no         SubmitJob            job_id=bd764021, cmd=echo s..."
    );
    assert_eq!(lines[9], "");
    assert_eq!(lines[10], "Showing 2 entries");
    log.first_available_index = 1;
    assert_eq!(
        log_table(&log)[2],
        "Commit Index: 1050  |  Last Log Index: 1051"
    );
}

fn args() -> ServerArgs {
    ServerArgs {
        node_id: 3,
        port: 50053,
        dashboard_port: Some(8083),
        peers: "1:a:1,2:b:2".to_string(),
        image: "busybox".to_string(),
        tls: true,
        ca_cert: Some(PathBuf::from("/ca")),
        cert: Some(PathBuf::from("/cert")),
        key: None,
        allow_insecure: false,
        data_dir: Some(PathBuf::from("/data")),
        advertise_addr: None,
    }
}

#[test]
fn servers_are_set_up_by_their_arguments() {
    let mut args = args();
    let config = server_config(&args);
    assert_eq!(config.node_id, 3);
    assert_eq!(config.listen_addr, "0.0.0.0:50053");
    assert_eq!(config.advertise_addr, "127.0.0.1:50053");
    assert_eq!(config.peers.len(), 2);
    assert_eq!(config.sandbox.image, "busybox");
    assert!(config.sandbox.network_disabled);
    assert_eq!(config.election_timeout_min_ms, 150);
    assert_eq!(config.data_dir, Some(PathBuf::from("/data")));
    assert_eq!(config.tls.cert_path, Some(PathBuf::from("/cert")));
    assert_eq!(dashboard_addr(args.dashboard_port).as_deref(), Some("0.0.0.0:8083"));
    assert_eq!(dashboard_addr(None), None);
    args.advertise_addr = Some("192.168.1.10:50051".to_string());
    assert_eq!(server_config(&args).advertise_addr, "192.168.1.10:50051");
}

#[test]
fn tls_is_planned_by_the_settings() {
    let mut args = args();
    assert_eq!(
        tls_plan(&tls_settings(&args), &args.peers),
        Err("TLS enabled but missing required paths (--ca-cert, --cert, --key)".to_string())
    );
    args.allow_insecure = true;
    assert_eq!(
        tls_plan(&tls_settings(&args), &args.peers),
        Ok(TlsPlan::Incomplete)
    );
    args.key = Some(PathBuf::from("/key"));
    assert_eq!(tls_plan(&tls_settings(&args), &args.peers), Ok(TlsPlan::Load));
    args.tls = false;
    assert_eq!(
        tls_plan(&tls_settings(&args), &args.peers),
        Ok(TlsPlan::PlainCluster)
    );
    assert_eq!(tls_plan(&tls_settings(&args), ""), Ok(TlsPlan::Plain));
    assert_eq!(tls_after_load(Ok(()), false), Ok(true));
    assert_eq!(tls_after_load(Err("e".to_string()), true), Ok(false));
    assert_eq!(
        tls_after_load(Err("e".to_string()), false),
        Err("TLS certificate loading failed: e".to_string())
    );
}

#[test]
fn errors_are_worded() {
    let worded = |e: NomadError| e.to_string();
    assert_eq!(
        worded(NomadError::NotLeader(Some(2))),
        "Not the leader, current leader is node Some(2)"
    );
    assert_eq!(
        worded(NomadError::NotLeader(None)),
        "Not the leader, current leader is node None"
    );
    assert_eq!(worded(NomadError::JobNotFound("x".to_string())), "Job not found: x");
    assert_eq!(worded(NomadError::WorkerNotFound(4)), "Worker not found: 4");
    assert_eq!(worded(NomadError::NoWorkersAvailable), "No workers available");
    assert_eq!(worded(NomadError::RaftError("x".to_string())), "Raft error: x");
    assert_eq!(worded(NomadError::GrpcError("x".to_string())), "gRPC error: x");
    assert_eq!(
        worded(NomadError::TransportError("x".to_string())),
        "Transport error: x"
    );
    assert_eq!(worded(NomadError::Internal("x".to_string())), "Internal error: x");
}
