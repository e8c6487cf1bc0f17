use nomad_lite::clock::Timestamp;
use nomad_lite::config::NodeConfig;
use nomad_lite::grpc::client_service::{
    proposal_answer, ClientService, DrainStep, ProposalOutcome, PROPOSAL_QUEUE_LEN,
    PROPOSAL_TIMEOUT_MS,
};
use nomad_lite::grpc::cluster_service::{handler_answer, handler_panicked, ClusterService};
use nomad_lite::grpc::status::Code;
use nomad_lite::proto::{
    AppendEntriesRequest, CancelJobRequest, GetJobOutputResponse, GetJobStatusRequest,
    GetRaftLogEntriesRequest, InstallSnapshotRequest, JobStatus as ProtoJobStatus,
    ListJobsRequest, StreamJobsRequest, SubmitJobRequest, TransferLeadershipRequest, VoteRequest,
};
use nomad_lite::raft::node::RaftMessage;
use nomad_lite::raft::state::{Command, RaftRole};
use nomad_lite::raft::RaftNode;
use nomad_lite::scheduler::{Job, JobQueue, JobStatus};
use uuid::Uuid;

fn make_service() -> ClientService {
    let config = NodeConfig::new(1, "127.0.0.1:0".to_string());
    ClientService::new(config, false)
}

fn make_leader() -> RaftNode {
    let mut node = RaftNode::new(NodeConfig::new(1, "127.0.0.1:0".to_string()));
    node.state.role = RaftRole::Leader;
    node
}

fn request(command: &str) -> SubmitJobRequest {
    SubmitJobRequest {
        command: command.to_string(),
        image: None,
    }
}

/// Submits a command to a leader whose Raft loop has this outcome.
fn submit(outcome: ProposalOutcome) -> Result<(), nomad_lite::grpc::status::Status> {
    let service = make_service();
    let node = make_leader();
    let mut queue = JobQueue::new();
    let (job, _) = service.submit_job(&node, false, request("echo overload"))?;
    service.finish_submission(&mut queue, job, outcome)?;
    Ok(())
}

// ── backpressure ─────────────────────────────────────────────────────────────

/// A full proposal channel is told as RESOURCE_EXHAUSTED.
#[test]
fn test_resource_exhausted_when_channel_full() {
    assert_eq!(PROPOSAL_QUEUE_LEN, 256, "channel capacity should be exactly 256");
    let result = submit(ProposalOutcome::QueueFull);
    assert!(result.is_err(), "should have been rejected");
    assert_eq!(
        result.unwrap_err().code,
        Code::ResourceExhausted,
        "should be RESOURCE_EXHAUSTED"
    );
}

/// A stalled Raft loop is told as DEADLINE_EXCEEDED after 5 s.
#[test]
fn test_deadline_exceeded_when_raft_stalled() {
    assert_eq!(PROPOSAL_TIMEOUT_MS, 5000);
    let result = submit(ProposalOutcome::TimedOut);
    assert!(result.is_err(), "should have timed out");
    assert_eq!(
        result.unwrap_err().code,
        Code::DeadlineExceeded,
        "should be DEADLINE_EXCEEDED"
    );
}

#[test]
fn other_outcomes_of_proposals_are_told() {
    let refused = submit(ProposalOutcome::Rejected("busy".to_string())).unwrap_err();
    assert_eq!(refused.code, Code::Internal);
    assert_eq!(refused.message, "Raft error: busy");
    let stopped = submit(ProposalOutcome::Stopped).unwrap_err();
    assert_eq!(stopped.code, Code::Unavailable);
    assert_eq!(stopped.message, "Failed to send command to Raft");
    let dropped = submit(ProposalOutcome::Unanswered).unwrap_err();
    assert_eq!(dropped.code, Code::Internal);
    assert_eq!(dropped.message, "Failed to receive Raft response");
    assert_eq!(proposal_answer(ProposalOutcome::Accepted(8)).unwrap(), 8);
}

// ── submitting ───────────────────────────────────────────────────────────────

/// Test that a drained node rejects new job submissions.
#[test]
fn test_drain_rejects_new_jobs() {
    let refused = make_service()
        .submit_job(&make_leader(), true, request("echo test"))
        .unwrap_err();
    assert_eq!(refused.code, Code::Unavailable, "Should return UNAVAILABLE");
    assert!(
        refused.message.contains("draining"),
        "Error should mention draining: {}",
        refused.message
    );
}

/// A follower does not take jobs and says who does.
#[test]
fn test_follower_rejects_writes() {
    let service = make_service();
    let mut node = RaftNode::new(NodeConfig::default());
    let refused = service
        .submit_job(&node, false, request("echo should_fail"))
        .unwrap_err();
    assert_eq!(refused.code, Code::FailedPrecondition);
    assert_eq!(refused.message, "Not the leader. Leader unknown, retry later");
    node.state.leader_id = Some(3);
    let refused = service
        .submit_job(&node, false, request("echo should_fail"))
        .unwrap_err();
    assert_eq!(refused.message, "Not the leader. Redirect to node 3");
    // The log refuses commands too
    assert_eq!(
        node.handle_append_command(Command::Noop).unwrap_err(),
        "Not leader. Current leader: Some(3)"
    );
}

#[test]
fn blank_commands_are_refused() {
    for command in ["", "   ", "\t\n", "\u{a0}\u{3000}"] {
        let refused = make_service()
            .submit_job(&make_leader(), false, request(command))
            .unwrap_err();
        assert_eq!(refused.code, Code::InvalidArgument);
        assert_eq!(refused.message, "Command cannot be empty");
    }
}

#[test]
fn accepted_jobs_are_queued_and_replicated() {
    let service = make_service();
    let mut queue = JobQueue::with_capacity(1);
    let (job, command) = service
        .submit_job(
            &make_leader(),
            false,
            SubmitJobRequest {
                command: "echo hi".to_string(),
                image: Some("python:3.12-alpine".to_string()),
            },
        )
        .unwrap();
    let id = job.id;
    let created = job.created_at;
    match command {
        Command::SubmitJob {
            job_id,
            command,
            image,
            created_at,
        } => {
            assert_eq!(job_id, id);
            assert_eq!(command, "echo hi");
            assert_eq!(image.as_deref(), Some("python:3.12-alpine"));
            assert_eq!(created_at, created);
        }
        _ => panic!("expected a submission"),
    }
    let answer = service
        .finish_submission(&mut queue, job, ProposalOutcome::Accepted(1))
        .unwrap();
    assert_eq!(answer.job_id, Uuid::from_u128(id).to_string());
    assert_eq!(
        answer.created_at_ms,
        created.seconds * 1000 + (created.nanos / 1_000_000) as i64
    );
    assert_eq!(queue.get_job(&id).unwrap().status, JobStatus::Pending);
    let full = service
        .finish_submission(
            &mut queue,
            Job::new("x".to_string()),
            ProposalOutcome::Accepted(2),
        )
        .unwrap_err();
    assert_eq!(full.code, Code::ResourceExhausted);
    assert_eq!(full.message, "Job queue is at capacity");
}

#[test]
fn a_submitted_job_is_pending() {
    let service = make_service();
    let mut queue = JobQueue::with_capacity(2);
    let (job, _) = service
        .submit_job(&make_leader(), false, request("echo hi"))
        .unwrap();
    let id = job.id;
    queue.add_job(job.clone());
    queue.assign_job(&id, 4);
    let answer = service
        .finish_submission(&mut queue, job, ProposalOutcome::Accepted(1))
        .unwrap();
    assert_eq!(answer.job_id, Uuid::from_u128(id).to_string());
    assert_eq!(queue.len(), 1);
    assert_eq!(queue.get_job(&id).unwrap().status, JobStatus::Pending);
    assert_eq!(queue.get_job(&id).unwrap().assigned_worker, None);
}

// ── cancelling ───────────────────────────────────────────────────────────────

#[test]
fn cancellations_are_checked() {
    let service = make_service();
    let leader = make_leader();
    let follower = RaftNode::new(NodeConfig::default());
    let mut queue = JobQueue::new();
    let job = Job::new("x".to_string());
    let id = job.id;
    let text = Uuid::from_u128(id).to_string();
    queue.add_job(job);
    let ask = |node: &RaftNode, queue: &JobQueue, job_id: &str| {
        service.cancel_job(
            node,
            queue,
            &CancelJobRequest {
                job_id: job_id.to_string(),
            },
        )
    };
    assert_eq!(
        ask(&leader, &queue, "nonsense").unwrap_err().code,
        Code::InvalidArgument
    );
    assert_eq!(
        ask(&follower, &queue, &text).unwrap_err().code,
        Code::FailedPrecondition
    );
    assert_eq!(
        ask(&leader, &queue, &Uuid::from_u128(0).to_string())
            .unwrap_err()
            .code,
        Code::NotFound
    );
    match ask(&leader, &queue, &text).unwrap() {
        Command::CancelJob { job_id } => assert_eq!(job_id, id),
        _ => panic!("expected a cancellation"),
    }
    let done = service
        .finish_cancellation(id, ProposalOutcome::Accepted(1))
        .unwrap();
    assert!(done.success);
    assert_eq!(done.message, format!("job {} cancelled", text));
    queue.cancel_job(&id);
    let again = ask(&leader, &queue, &text).unwrap_err();
    assert_eq!(again.code, Code::FailedPrecondition);
    assert_eq!(again.message, "job is already cancelled");
}

// ── the state of a job ───────────────────────────────────────────────────────

#[test]
fn output_comes_from_the_node_that_ran_the_job() {
    let service = make_service();
    let mut queue = JobQueue::new();
    let at = Timestamp {
        seconds: 10,
        nanos: 7_000_000,
    };
    for (id, by) in [(1u128, 1u64), (2, 2)] {
        queue.add_job(Job::with_id(id, "c".to_string(), at));
        queue.update_job_result(
            &id,
            JobStatus::Failed,
            by,
            Some(3),
            Some("out".to_string()),
            None,
            at,
        );
    }
    queue.add_job(Job::with_id(3, "c".to_string(), at));
    let ask = |id: u128| {
        service
            .get_job_status(
                &queue,
                &GetJobStatusRequest {
                    job_id: Uuid::from_u128(id).to_string(),
                },
            )
            .unwrap()
    };
    let (here, holder) = ask(1);
    assert_eq!(holder, None);
    assert_eq!(here.output, "out");
    assert_eq!(here.error, "");
    assert_eq!(here.status, 4);
    assert_eq!(here.exit_code, Some(3));
    assert_eq!(here.executed_by, 1);
    assert_eq!(here.assigned_worker, 0);
    assert_eq!(here.created_at_ms, 10_007);
    assert_eq!(here.completed_at_ms, Some(10_007));
    let (there, holder) = ask(2);
    assert_eq!(holder, Some(2));
    assert_eq!(there.output, "");
    let (waiting, holder) = ask(3);
    assert_eq!(holder, None);
    assert_eq!(waiting.status, 1);

    let found = |found: bool| {
        ClientService::fetched_output(GetJobOutputResponse {
            job_id: String::new(),
            output: "o".to_string(),
            error: "e".to_string(),
            found,
        })
    };
    let missing = found(false).unwrap_err();
    assert_eq!(missing.code, Code::NotFound);
    assert_eq!(missing.message, "Output not found on executing node");
    let complete = ClientService::with_output(there, found(true));
    assert_eq!(complete.output, "o");
    assert_eq!(complete.error, "e");
    assert_eq!(complete.executed_by, 2);
    let same = ClientService::with_output(complete, Err(missing));
    assert_eq!(same.output, "o");
}

#[test]
fn unknown_jobs_have_no_state() {
    let service = make_service();
    let queue = JobQueue::new();
    let ask = |job_id: &str| {
        service
            .get_job_status(
                &queue,
                &GetJobStatusRequest {
                    job_id: job_id.to_string(),
                },
            )
            .unwrap_err()
    };
    assert_eq!(ask("x").message, "Invalid job ID");
    assert_eq!(ask("00000000-0000-0000-0000-000000000001").message, "Job not found");
    assert_eq!(ask("00000000000000000000000000000001").code, Code::NotFound);
}

// ── ListJobs filter behaviour ────────────────────────────────────────────────

/// Status filter returns only matching jobs
#[test]
fn test_list_jobs_status_filter() {
    let mut q = JobQueue::new();

    let pending_job = Job::new("echo pending".to_string());
    let completed_job = Job::new("echo completed".to_string());
    let completed_id = completed_job.id;

    q.add_job(pending_job);
    q.add_job(completed_job);
    q.update_status(&completed_id, JobStatus::Completed, None, None);

    let svc = make_service();

    // Filter: pending only
    let resp = svc
        .list_jobs(
            &q,
            &ListJobsRequest {
                status_filter: ProtoJobStatus::Pending.to_number(),
                ..Default::default()
            },
        )
        .unwrap();
    assert_eq!(resp.total_count, 1, "should return only 1 pending job");
    assert_eq!(resp.jobs[0].command, "echo pending");

    // Filter: completed only
    let resp = svc
        .list_jobs(
            &q,
            &ListJobsRequest {
                status_filter: ProtoJobStatus::Completed.to_number(),
                ..Default::default()
            },
        )
        .unwrap();
    assert_eq!(resp.total_count, 1);
    assert_eq!(resp.jobs[0].command, "echo completed");
}

/// worker_id_filter matches assigned_worker and executed_by
#[test]
fn test_list_jobs_worker_filter() {
    let mut q = JobQueue::new();

    let job1 = Job::new("cmd for worker 1".to_string());
    let job2 = Job::new("cmd for worker 2".to_string());
    let job3 = Job::new("cmd executed by worker 1".to_string());
    let id1 = job1.id;
    let id2 = job2.id;
    let id3 = job3.id;

    q.add_job(job1);
    q.add_job(job2);
    q.add_job(job3);
    q.assign_job(&id1, 1); // assigned_worker = 1
    q.assign_job(&id2, 2); // assigned_worker = 2
    // Mark id3 as executed_by worker 1
    q.update_job_result(
        &id3,
        JobStatus::Completed,
        1,
        Some(0),
        None,
        None,
        Timestamp {
            seconds: 0,
            nanos: 0,
        },
    );

    let svc = make_service();

    let resp = svc
        .list_jobs(
            &q,
            &ListJobsRequest {
                worker_id_filter: 1,
                ..Default::default()
            },
        )
        .unwrap();
    assert_eq!(
        resp.total_count, 2,
        "worker 1 should match both assigned_worker and executed_by"
    );
    let ids: Vec<u128> = resp
        .jobs
        .iter()
        .map(|j| Uuid::parse_str(&j.job_id).unwrap().as_u128())
        .collect();
    assert!(ids.contains(&id1));
    assert!(ids.contains(&id3));
    assert!(!ids.contains(&id2));

    // Worker 2 matches only the assigned job
    let resp2 = svc
        .list_jobs(
            &q,
            &ListJobsRequest {
                worker_id_filter: 2,
                ..Default::default()
            },
        )
        .unwrap();
    assert_eq!(resp2.total_count, 1);
    assert_eq!(Uuid::parse_str(&resp2.jobs[0].job_id).unwrap().as_u128(), id2);
}

/// command_filter does case-insensitive substring matching
#[test]
fn test_list_jobs_command_filter() {
    let mut q = JobQueue::new();
    q.add_job(Job::new("echo hello world".to_string()));
    q.add_job(Job::new("sleep 10".to_string()));
    q.add_job(Job::new("ECHO uppercase".to_string()));

    let svc = make_service();

    // Lowercase filter matches both "echo" jobs (case-insensitive)
    let resp = svc
        .list_jobs(
            &q,
            &ListJobsRequest {
                command_filter: "echo".to_string(),
                ..Default::default()
            },
        )
        .unwrap();
    assert_eq!(resp.total_count, 2);
    for job in &resp.jobs {
        assert!(
            job.command.to_lowercase().contains("echo"),
            "unexpected job: {}",
            job.command
        );
    }

    // Filter that matches nothing
    let resp_empty = svc
        .list_jobs(
            &q,
            &ListJobsRequest {
                command_filter: "python".to_string(),
                ..Default::default()
            },
        )
        .unwrap();
    assert_eq!(resp_empty.total_count, 0);

    // The case of letters beyond ASCII does not matter either
    q.add_job(Job::new("say \u{c4}PFEL".to_string()));
    let resp = svc
        .list_jobs(
            &q,
            &ListJobsRequest {
                command_filter: "\u{e4}pf".to_string(),
                ..Default::default()
            },
        )
        .unwrap();
    assert_eq!(resp.total_count, 1);
}

/// created_after_ms and created_before_ms narrow the result set
#[test]
fn test_list_jobs_time_range_filter() {
    let mut q = JobQueue::new();

    let hour = 3600i64;
    let now = 1_700_000_000i64;
    let at = |seconds: i64| Timestamp { seconds, nanos: 0 };

    let j_old = Job::with_id(1, "old job".to_string(), at(now - 3 * hour));
    let j_mid = Job::with_id(2, "mid job".to_string(), at(now - hour));
    let j_new = Job::with_id(3, "new job".to_string(), at(now));
    let id_mid = j_mid.id;

    q.add_job(j_old);
    q.add_job(j_mid);
    q.add_job(j_new);

    let svc = make_service();

    // Window: between 2h ago and 30min ago → only mid job
    let after_ms = (now - 2 * hour) * 1000;
    let before_ms = (now - hour / 2) * 1000;

    let resp = svc
        .list_jobs(
            &q,
            &ListJobsRequest {
                created_after_ms: after_ms,
                created_before_ms: before_ms,
                ..Default::default()
            },
        )
        .unwrap();
    assert_eq!(resp.total_count, 1, "only the middle job fits the window");
    assert_eq!(
        Uuid::parse_str(&resp.jobs[0].job_id).unwrap().as_u128(),
        id_mid
    );

    // Both ends belong to the window
    let resp = svc
        .list_jobs(
            &q,
            &ListJobsRequest {
                created_after_ms: (now - 3 * hour) * 1000,
                created_before_ms: now * 1000,
                ..Default::default()
            },
        )
        .unwrap();
    assert_eq!(resp.total_count, 3);
}

/// Combined status + command filters apply together (AND semantics)
#[test]
fn test_list_jobs_combined_filters() {
    let mut q = JobQueue::new();

    let j1 = Job::new("echo pending".to_string()); // pending + echo
    let j2 = Job::new("echo completed".to_string()); // will be completed + echo
    let j3 = Job::new("sleep pending".to_string()); // pending + sleep
    let id2 = j2.id;

    q.add_job(j1);
    q.add_job(j2);
    q.add_job(j3);
    q.update_status(&id2, JobStatus::Completed, None, None);

    let svc = make_service();

    // pending + "echo" → only j1
    let resp = svc
        .list_jobs(
            &q,
            &ListJobsRequest {
                status_filter: ProtoJobStatus::Pending.to_number(),
                command_filter: "echo".to_string(),
                ..Default::default()
            },
        )
        .unwrap();
    assert_eq!(resp.total_count, 1);
    assert_eq!(resp.jobs[0].command, "echo pending");
}

/// Filters interact correctly with pagination (total_count reflects filtered set)
#[test]
fn test_list_jobs_filter_with_pagination() {
    let mut q = JobQueue::new();
    for i in 0..7 {
        q.add_job(Job::new(format!("echo job {}", i)));
    }
    // Add 3 non-echo jobs that should be excluded
    for i in 0..3 {
        q.add_job(Job::new(format!("sleep {}", i)));
    }

    let svc = make_service();

    // Page 1: page_size=3, command_filter="echo" → first 3 of 7
    let resp1 = svc
        .list_jobs(
            &q,
            &ListJobsRequest {
                page_size: 3,
                command_filter: "echo".to_string(),
                ..Default::default()
            },
        )
        .unwrap();
    assert_eq!(resp1.total_count, 7, "total_count reflects filtered set");
    assert_eq!(resp1.jobs.len(), 3, "first page has 3 jobs");
    assert!(!resp1.next_page_token.is_empty(), "should have more pages");

    // Page 2: follow the token
    let resp2 = svc
        .list_jobs(
            &q,
            &ListJobsRequest {
                page_size: 3,
                page_token: resp1.next_page_token.clone(),
                command_filter: "echo".to_string(),
                ..Default::default()
            },
        )
        .unwrap();
    assert_eq!(resp2.total_count, 7);
    assert_eq!(resp2.jobs.len(), 3, "second page has 3 jobs");

    // Page 3: last page has 1 remaining job
    let resp3 = svc
        .list_jobs(
            &q,
            &ListJobsRequest {
                page_size: 3,
                page_token: resp2.next_page_token.clone(),
                command_filter: "echo".to_string(),
                ..Default::default()
            },
        )
        .unwrap();
    assert_eq!(resp3.total_count, 7);
    assert_eq!(resp3.jobs.len(), 1, "last page has 1 remaining job");
    assert!(resp3.next_page_token.is_empty(), "no more pages");

    // The pages hold every job once
    let mut commands: Vec<String> = Vec::new();
    for page in [resp1, resp2, resp3] {
        for job in page.jobs {
            commands.push(job.command);
        }
    }
    commands.sort();
    let expected: Vec<String> = (0..7).map(|i| format!("echo job {}", i)).collect();
    assert_eq!(commands, expected);
}

/// Filter with no matching jobs returns empty response
#[test]
fn test_list_jobs_filter_no_matches() {
    let mut q = JobQueue::new();
    q.add_job(Job::new("echo hello".to_string()));
    q.add_job(Job::new("sleep 5".to_string()));

    let svc = make_service();

    // No jobs are completed
    let resp = svc
        .list_jobs(
            &q,
            &ListJobsRequest {
                status_filter: ProtoJobStatus::Completed.to_number(),
                ..Default::default()
            },
        )
        .unwrap();
    assert_eq!(resp.total_count, 0);
    assert!(resp.jobs.is_empty());
    assert!(resp.next_page_token.is_empty());
}

#[test]
fn page_tokens_are_numbers() {
    let svc = make_service();
    let mut q = JobQueue::new();
    for i in 0..3 {
        q.add_job(Job::with_id(
            i,
            "x".to_string(),
            Timestamp {
                seconds: i as i64,
                nanos: 0,
            },
        ));
    }
    let ask = |token: &str| {
        svc.list_jobs(
            &q,
            &ListJobsRequest {
                page_token: token.to_string(),
                ..Default::default()
            },
        )
    };
    for token in ["x", "-1", " 1", "1 ", "+", "99999999999999999999999"] {
        let refused = ask(token).unwrap_err();
        assert_eq!(refused.code, Code::InvalidArgument);
        assert_eq!(refused.message, "Invalid page token");
    }
    assert_eq!(ask("+2").unwrap().jobs.len(), 1);
    assert_eq!(ask("2").unwrap().jobs.len(), 1);
    assert!(ask("18446744073709551615").unwrap().jobs.is_empty());
    assert_eq!(ask("").unwrap().jobs.len(), 3);
}

#[test]
fn pages_hold_a_hundred_jobs_unless_told_otherwise() {
    let svc = make_service();
    let mut q = JobQueue::new();
    for i in 0..1100u128 {
        q.add_job(Job::with_id(
            i,
            "x".to_string(),
            Timestamp {
                seconds: i as i64,
                nanos: 0,
            },
        ));
    }
    let ask = |page_size: u32| {
        svc.list_jobs(
            &q,
            &ListJobsRequest {
                page_size,
                ..Default::default()
            },
        )
        .unwrap()
    };
    assert_eq!(ask(0).jobs.len(), 100);
    assert_eq!(ask(0).next_page_token, "100");
    assert_eq!(ask(5000).jobs.len(), 1000);
    assert_eq!(ask(1).jobs[0].job_id, Uuid::from_u128(0).to_string());
}

#[test]
fn streams_know_the_status_filter() {
    let svc = make_service();
    let mut q = JobQueue::new();
    q.add_job(Job::new("a".to_string()));
    let job = Job::new("b".to_string());
    let id = job.id;
    q.add_job(job);
    q.assign_job(&id, 4);
    let ask = |status_filter: i32| svc.stream_jobs(&q, StreamJobsRequest { status_filter });
    assert_eq!(ask(0).len(), 2);
    assert_eq!(ask(77).len(), 2);
    let running = ask(2);
    assert_eq!(running.len(), 1);
    assert_eq!(running[0].command, "b");
    assert_eq!(running[0].assigned_worker, 4);
}

// ── the cluster ──────────────────────────────────────────────────────────────

#[test]
fn nodes_are_listed_by_id() {
    let mut config = NodeConfig::new(5, "0.0.0.0:50051".to_string())
        .with_peer(9, "nine:1".to_string())
        .with_peer(2, "two:1".to_string());
    config.advertise_addr = "five:1".to_string();
    let service = ClientService::new(config.clone(), true);
    let mut node = RaftNode::new(config);
    node.state.current_term = 6;
    node.peer_last_seen.insert(2, 1_000_000_000);
    node.peer_last_seen.insert(9, 0);
    let status = service.get_cluster_status(&node, 3_500_000_000);
    assert_eq!(status.current_term, 6);
    assert_eq!(status.leader_id, 5);
    let shown: Vec<(u64, &str, bool)> = status
        .nodes
        .iter()
        .map(|n| (n.node_id, n.address.as_str(), n.is_alive))
        .collect();
    assert_eq!(
        shown,
        vec![(2, "two:1", true), (5, "five:1", true), (9, "nine:1", false)]
    );
    assert_eq!(service.peer_addr(9).unwrap(), "nine:1");
    let unknown = service.peer_addr(4).unwrap_err();
    assert_eq!(unknown.code, Code::NotFound);
    assert_eq!(unknown.message, "Unknown node 4");
    assert_eq!(service.peer_uri("nine:1"), "https://nine:1");
    assert_eq!(make_service().peer_uri("nine:1"), "http://nine:1");
}

#[test]
fn requests_for_the_leader_are_forwarded() {
    let service = make_service();
    assert_eq!(service.forward_to(&make_leader()).unwrap(), None);
    let mut node = RaftNode::new(NodeConfig::default());
    let refused = service.forward_to(&node).unwrap_err();
    assert_eq!(refused.code, Code::Unavailable);
    assert_eq!(refused.message, "Leader unknown, please retry later");
    node.state.leader_id = Some(2);
    assert_eq!(service.forward_to(&node).unwrap(), Some(2));
}

#[test]
fn the_log_is_shown_in_parts() {
    let service = make_service();
    let mut node = make_leader();
    node.state.current_term = 2;
    for worker_id in 1..=5 {
        node.state.append_entry(Command::RegisterWorker { worker_id });
    }
    node.state.commit_index = 3;
    let ask = |start_index: u64, limit: u32| {
        service.get_raft_log_entries(&node, GetRaftLogEntriesRequest { start_index, limit })
    };
    let all = ask(0, 0);
    assert_eq!(all.entries.len(), 5);
    assert_eq!(all.commit_index, 3);
    assert_eq!(all.last_log_index, 5);
    assert_eq!(all.first_available_index, 1);
    assert!(all.entries[2].is_committed);
    assert!(!all.entries[3].is_committed);
    let part = ask(2, 2);
    assert_eq!(part.entries.len(), 2);
    assert_eq!(part.entries[0].index, 2);
    assert_eq!(part.entries[0].term, 2);
    assert!(part.entries[0].command.is_some());
    assert!(ask(100, 1).entries.is_empty());
}

// ── handing over and draining ────────────────────────────────────────────────

#[test]
fn draining_goes_step_by_step() {
    let config = NodeConfig::new(1, "a:1".to_string()).with_peer(2, "b:1".to_string());
    let service = ClientService::new(config.clone(), false);
    let mut node = RaftNode::new(config);
    let mut queue = JobQueue::new();
    assert_eq!(service.drain_step(&node, &queue), DrainStep::Finish);
    node.state.role = RaftRole::Leader;
    assert_eq!(service.drain_step(&node, &queue), DrainStep::TransferLeadership);
    let job = Job::new("x".to_string());
    let id = job.id;
    queue.add_job(job);
    queue.assign_job(&id, 1);
    assert_eq!(service.drain_step(&node, &queue), DrainStep::WaitForJobs(1));
    assert_eq!(
        make_service().drain_step(&make_leader(), &JobQueue::new()),
        DrainStep::Finish
    );
    let done = service.finish_drain(Ok(()));
    assert!(done.success);
    assert_eq!(done.message, "Node drained successfully");
    let failed = service.finish_drain(Err("no peer".to_string()));
    assert!(!failed.success);
    assert_eq!(failed.message, "no peer");
}

#[test]
fn leadership_is_handed_over_on_request() {
    let service = make_service();
    let target = |id: u64| match service.transfer_leadership(TransferLeadershipRequest {
        target_node_id: id,
    }) {
        RaftMessage::TransferLeadership { target_id } => target_id,
        _ => panic!("expected a transfer"),
    };
    assert_eq!(target(0), None);
    assert_eq!(target(2), Some(2));
    let done = service.finish_transfer(Ok(2));
    assert!(done.success);
    assert_eq!(done.new_leader_id, 2);
    let failed = service.finish_transfer(Err("Not the leader".to_string()));
    assert!(!failed.success);
    assert_eq!(failed.message, "Not the leader");
    assert_eq!(failed.new_leader_id, 0);
}

// ── consensus requests ───────────────────────────────────────────────────────

#[test]
fn handlers_that_fail_are_told() {
    let failed = handler_answer::<u64>("RequestVote", Err("disk full".to_string())).unwrap_err();
    assert_eq!(failed.code, Code::Internal);
    assert_eq!(failed.message, "RequestVote handler error: disk full");
    assert_eq!(handler_answer("RequestVote", Ok(4)).unwrap(), 4);
    assert_eq!(
        handler_panicked("AppendEntries").message,
        "Internal error in AppendEntries handler"
    );
}

#[test]
fn consensus_requests_are_answered() {
    let service = ClusterService::new();
    let mut node = RaftNode::new(NodeConfig::default());
    let vote = service
        .request_vote(
            &mut node,
            VoteRequest {
                term: 1,
                candidate_id: 2,
                last_log_index: 0,
                last_log_term: 0,
            },
            5,
        )
        .unwrap();
    assert!(vote.vote_granted);
    assert_eq!(node.last_heartbeat, 5);
    let heartbeat = service
        .append_entries(
            &mut node,
            AppendEntriesRequest {
                term: 1,
                leader_id: 2,
                prev_log_index: 0,
                prev_log_term: 0,
                entries: vec![],
                leader_commit: 0,
            },
            6,
        )
        .unwrap();
    assert!(heartbeat.success);
    let snapshot = service
        .install_snapshot(
            &mut node,
            InstallSnapshotRequest {
                term: 1,
                leader_id: 2,
                last_included_index: 4,
                last_included_term: 1,
                jobs: vec![],
                workers: vec![3],
            },
            7,
        )
        .unwrap();
    assert_eq!(snapshot.term, 1);
    assert_eq!(node.state.log_offset, 4);
    assert_eq!(node.pending_snapshot.unwrap().workers, vec![3]);
    assert_eq!(node.commit_notified, 4);
}
