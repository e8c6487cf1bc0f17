use nomad_lite::config::NodeConfig;
use nomad_lite::dashboard::{
    cancel_job_handler, cluster_status_handler, finish_cancellation, finish_submission,
    list_jobs_handler, live_handler, ready_handler, submit_job_handler, CancelJobResponse,
    ClusterStatusResponse, HttpStatus, RaftReply, SubmitJobRequest, SubmitJobResponse,
};
use nomad_lite::raft::state::{Command, RaftRole};
use nomad_lite::raft::RaftNode;
use nomad_lite::scheduler::{Job, JobQueue, JobStatus, MAX_COMMAND_LEN};
use uuid::Uuid;

/// A node that has just started, and its queue
fn create_test_state() -> (RaftNode, JobQueue) {
    (RaftNode::new(NodeConfig::default()), JobQueue::new())
}

/// A node that is the leader
fn create_leader() -> RaftNode {
    let mut raft_node = RaftNode::new(NodeConfig::default());
    raft_node.state.role = RaftRole::Leader;
    raft_node.state.leader_id = Some(1);
    raft_node
}

fn cluster_status(raft_node: &RaftNode) -> ClusterStatusResponse {
    cluster_status_handler(raft_node, raft_node.clock.now())
}

/// Submits a command to a node whose Raft loop replies `reply`
fn submit(
    raft_node: &RaftNode,
    queue: &mut JobQueue,
    draining: bool,
    command: &str,
    reply: RaftReply,
) -> (HttpStatus, SubmitJobResponse) {
    let payload = SubmitJobRequest {
        command: command.to_string(),
    };
    match submit_job_handler(raft_node, queue, draining, payload) {
        Ok((job, _)) => finish_submission(queue, job, reply),
        Err(refusal) => refusal,
    }
}

/// Cancels a job on a node whose Raft loop replies `reply`
fn cancel(
    raft_node: &RaftNode,
    queue: &JobQueue,
    id: &str,
    reply: RaftReply,
) -> (HttpStatus, CancelJobResponse) {
    match cancel_job_handler(raft_node, queue, id) {
        Ok(_) => finish_cancellation(reply),
        Err(refusal) => refusal,
    }
}

#[test]
fn test_cluster_status_endpoint() {
    let (raft_node, _queue) = create_test_state();
    let status = cluster_status(&raft_node);

    assert_eq!(status.node_id, 1);
    assert_eq!(status.role, "follower");
    assert_eq!(status.current_term, 0);
    assert_eq!(status.commit_index, 0);
    assert_eq!(status.last_applied, 0);
    assert_eq!(status.log_length, 0);
}

#[test]
fn test_list_jobs_empty() {
    let (_raft_node, queue) = create_test_state();
    assert!(list_jobs_handler(&queue).is_empty());
}

#[test]
fn test_list_jobs_with_jobs() {
    let (_raft_node, mut queue) = create_test_state();

    // Add some jobs to the queue
    queue.add_job(Job::new("echo hello".to_string()));
    queue.add_job(Job::new("echo world".to_string()));

    let jobs = list_jobs_handler(&queue);
    assert_eq!(jobs.len(), 2);
}

#[test]
fn test_list_jobs_shows_job_details() {
    let (_raft_node, mut queue) = create_test_state();

    // Add a job and update its status
    let job = Job::new("echo test".to_string());
    let job_id = job.id;
    queue.add_job(job);
    queue.update_status(
        &job_id,
        JobStatus::Completed,
        Some("test output".to_string()),
        None,
    );

    let jobs = list_jobs_handler(&queue);
    assert_eq!(jobs.len(), 1);

    let job = &jobs[0];
    assert_eq!(job.command, "echo test");
    assert_eq!(job.status, "completed");
    assert_eq!(job.output.as_deref(), Some("test output"));
}

#[test]
fn test_submit_job_rejected_when_draining() {
    let (raft_node, mut queue) = create_test_state();
    let (status, body) = submit(
        &raft_node,
        &mut queue,
        true,
        "echo hi",
        RaftReply::Accepted(1),
    );

    assert_eq!(status, HttpStatus::ServiceUnavailable);
    assert_eq!(status.code(), 503);
    assert!(!body.success);
    assert!(body.error.unwrap().contains("draining"));
}

/// Verify queue-full path returns 503 with "capacity" in the error message.
#[test]
fn test_submit_job_queue_at_capacity() {
    // Small queue already at capacity
    let mut queue = JobQueue::with_capacity(1);
    queue.add_job(Job::new("existing".to_string()));

    // Force node to think it is the leader
    let raft_node = create_leader();

    let (status, body) = submit(
        &raft_node,
        &mut queue,
        false,
        "echo hi",
        RaftReply::Accepted(1),
    );

    assert_eq!(status.code(), 503);
    assert!(!body.success);
    assert!(body.error.unwrap().contains("capacity"));
}

/// Verify that the cluster status always says which role the node has.
#[test]
fn test_cluster_status_role_field() {
    let (raft_node, _queue) = create_test_state();
    let status = cluster_status(&raft_node);
    assert_eq!(
        status.role, "follower",
        "a fresh node starts as a follower"
    );
}

#[test]
fn test_submit_job_rejected_when_not_leader() {
    let (raft_node, mut queue) = create_test_state();
    // A freshly-created node starts as a follower, so is_leader() == false
    let (status, body) = submit(
        &raft_node,
        &mut queue,
        false,
        "echo hi",
        RaftReply::Accepted(1),
    );

    assert_eq!(status.code(), 400);
    assert!(!body.success);
    assert!(body.error.unwrap().contains("Not the leader"));
}

// ── cancel_job_handler tests ─────────────────────────────────────────────────

#[test]
fn test_cancel_job_invalid_uuid() {
    let (raft_node, queue) = create_test_state();
    let (status, body) = cancel(
        &raft_node,
        &queue,
        "not-a-valid-uuid",
        RaftReply::Accepted(1),
    );

    assert_eq!(status.code(), 400);
    assert!(!body.success);
    assert!(body.error.unwrap().contains("invalid job id"));
}

#[test]
fn test_cancel_job_rejected_when_not_leader() {
    let (raft_node, queue) = create_test_state();
    // Fresh node is a follower
    let job_id = Uuid::new_v4();
    let (status, body) = cancel(
        &raft_node,
        &queue,
        &job_id.to_string(),
        RaftReply::Accepted(1),
    );

    assert_eq!(status.code(), 400);
    assert!(!body.success);
    assert!(body.error.unwrap().contains("not the leader"));
}

#[test]
fn test_cancel_job_not_found() {
    // Force leader so we reach the job-lookup
    let raft_node = create_leader();
    let queue = JobQueue::new();
    let job_id = Uuid::new_v4();
    let (status, body) = cancel(
        &raft_node,
        &queue,
        &job_id.to_string(),
        RaftReply::Accepted(1),
    );

    assert_eq!(status.code(), 404);
    assert!(!body.success);
    assert!(body.error.unwrap().contains("job not found"));
}

#[test]
fn test_cancel_job_already_terminal() {
    let raft_node = create_leader();

    let job = Job::new("echo hello".to_string());
    let job_id = job.id;
    let mut queue = JobQueue::new();
    queue.add_job(job);
    queue.update_status(&job_id, JobStatus::Completed, None, None);

    let (status, body) = cancel(
        &raft_node,
        &queue,
        &Uuid::from_u128(job_id).to_string(),
        RaftReply::Accepted(1),
    );

    assert_eq!(status.code(), 400);
    assert!(!body.success);
    assert!(body.error.unwrap().contains("job is already completed"));
}

#[test]
fn test_cancel_pending_job_success() {
    let raft_node = create_leader();

    let job = Job::new("echo hello".to_string());
    let job_id = job.id;
    let mut queue = JobQueue::new();
    queue.add_job(job);

    let (status, body) = cancel(
        &raft_node,
        &queue,
        &Uuid::from_u128(job_id).to_string(),
        RaftReply::Accepted(1),
    );

    assert_eq!(status.code(), 200);
    assert!(body.success);
    assert!(body.error.is_none());
}

#[test]
fn test_cancel_job_raft_commit_error() {
    let raft_node = create_leader();

    let job = Job::new("echo hello".to_string());
    let job_id = job.id;
    let mut queue = JobQueue::new();
    queue.add_job(job);

    let (status, body) = cancel(
        &raft_node,
        &queue,
        &Uuid::from_u128(job_id).to_string(),
        RaftReply::Rejected("simulated Raft error".to_string()),
    );

    assert_eq!(status.code(), 400);
    assert!(!body.success);
    assert!(body.error.unwrap().contains("simulated Raft error"));
}

// ── cluster status nodes field tests ─────────────────────────────────────────

#[test]
fn test_cluster_status_includes_nodes_field() {
    let (raft_node, _queue) = create_test_state();
    let status = cluster_status(&raft_node);
    assert!(!status.nodes.is_empty(), "nodes must hold the node itself");
}

#[test]
fn test_cluster_status_self_node_is_alive() {
    let (raft_node, _queue) = create_test_state();
    let nodes = cluster_status(&raft_node).nodes;
    assert_eq!(
        nodes.len(),
        1,
        "single-node config should have exactly one node entry"
    );
    assert_eq!(nodes[0].node_id, 1);
    assert!(nodes[0].is_alive);
}

// ── input validation tests ────────────────────────────────────────────────────

#[test]
fn test_submit_job_empty_command() {
    let (raft_node, mut queue) = create_test_state();
    let (status, body) = submit(&raft_node, &mut queue, false, "   ", RaftReply::Accepted(1));

    assert_eq!(status.code(), 400);
    assert!(!body.success);
    assert!(body.error.unwrap().to_lowercase().contains("empty"));
}

#[test]
fn test_submit_job_command_too_long() {
    let (raft_node, mut queue) = create_test_state();

    let long_command = "a".repeat(MAX_COMMAND_LEN + 1);
    let (status, body) = submit(
        &raft_node,
        &mut queue,
        false,
        &long_command,
        RaftReply::Accepted(1),
    );

    assert_eq!(status.code(), 400);
    assert!(!body.success);
    let err = body.error.unwrap().to_lowercase();
    assert!(
        err.contains("length") || err.contains("exceeds"),
        "error should mention length/exceeds, got: {}",
        err
    );
}

// ── health check tests ────────────────────────────────────────────────────────

#[test]
fn test_live_returns_status_ok() {
    assert_eq!(live_handler().status, "ok");
}

#[test]
fn test_ready_returns_503_when_no_leader() {
    let (raft_node, _queue) = create_test_state();
    // A fresh node has no leader (leader_id = None)
    let (status, body) = ready_handler(&raft_node);

    assert_eq!(status.code(), 503);
    assert_eq!(body.status, "no_leader");
    assert!(body.leader_id.is_none());
}

#[test]
fn test_ready_returns_200_when_leader_known() {
    // Force node into leader state so get_leader_id() returns Some(1)
    let raft_node = create_leader();
    let (status, body) = ready_handler(&raft_node);

    assert_eq!(status.code(), 200);
    assert_eq!(body.status, "ok");
    assert_eq!(body.leader_id, Some(1));
}

// ── further tests ─────────────────────────────────────────────────────────────

#[test]
fn accepted_jobs_go_into_the_queue() {
    let raft_node = create_leader();
    let mut queue = JobQueue::new();
    let payload = SubmitJobRequest {
        command: "echo hi".to_string(),
    };
    let (job, command) = submit_job_handler(&raft_node, &queue, false, payload).unwrap();
    let id = job.id;
    match command {
        Command::SubmitJob {
            job_id, command, ..
        } => {
            assert_eq!(job_id, id);
            assert_eq!(command, "echo hi");
        }
        _ => panic!("expected a submission"),
    }
    let (status, body) = finish_submission(&mut queue, job, RaftReply::Accepted(7));
    assert_eq!(status, HttpStatus::Success);
    assert!(body.success);
    assert_eq!(body.job_id, Some(Uuid::from_u128(id).to_string()));
    assert!(body.error.is_none());
    assert_eq!(queue.get_job(&id).unwrap().status, JobStatus::Pending);
}

#[test]
fn a_submission_puts_a_pending_job_into_the_queue() {
    let raft_node = create_leader();
    let mut queue = JobQueue::with_capacity(2);
    let payload = SubmitJobRequest {
        command: "echo hi".to_string(),
    };
    let (job, _) = submit_job_handler(&raft_node, &queue, false, payload).unwrap();
    let id = job.id;
    queue.add_job(job.clone());
    queue.assign_job(&id, 4);
    let (status, _) = finish_submission(&mut queue, job.clone(), RaftReply::Accepted(7));
    assert_eq!(status, HttpStatus::Success);
    assert_eq!(queue.len(), 1);
    assert_eq!(queue.get_job(&id).unwrap().status, JobStatus::Pending);
    // A queue at capacity takes nothing
    queue.add_job(Job::new("other".to_string()));
    let (status, body) = finish_submission(&mut queue, job, RaftReply::Accepted(7));
    assert_eq!(status, HttpStatus::ServiceUnavailable);
    assert_eq!(body.error.unwrap(), "Job queue is at capacity");
}

#[test]
fn replies_of_the_loop_are_told() {
    let raft_node = create_leader();
    let mut queue = JobQueue::new();
    let mut ask = |reply: RaftReply| {
        let (status, body) = submit(&raft_node, &mut queue, false, "x", reply);
        (status.code(), body.error.unwrap())
    };
    assert_eq!(
        ask(RaftReply::Rejected("why".to_string())),
        (400, "why".to_string())
    );
    assert_eq!(
        ask(RaftReply::NotSent),
        (500, "Failed to send to Raft".to_string())
    );
    assert_eq!(
        ask(RaftReply::NoReply),
        (500, "Raft response failed".to_string())
    );
    assert!(queue.is_empty());
    let (status, body) = finish_cancellation(RaftReply::NotSent);
    assert_eq!(status.code(), 500);
    assert_eq!(body.error.as_deref(), Some("failed to send to Raft"));
    let (status, body) = finish_cancellation(RaftReply::NoReply);
    assert_eq!(status.code(), 500);
    assert_eq!(body.error.as_deref(), Some("Raft response failed"));
}

#[test]
fn moments_are_shown_in_rfc3339() {
    let mut queue = JobQueue::new();
    queue.add_job(Job::with_id(
        1,
        "x".to_string(),
        nomad_lite::clock::Timestamp {
            seconds: 1_700_000_000,
            nanos: 5_000_000,
        },
    ));
    let shown = &list_jobs_handler(&queue)[0];
    assert_eq!(shown.created_at, "2023-11-14T22:13:20.005+00:00");
    assert!(shown.completed_at.is_none());
    assert_eq!(shown.id, "00000000-0000-0000-0000-000000000001");
}

#[test]
fn the_longest_command_is_taken() {
    let raft_node = create_leader();
    let mut queue = JobQueue::new();
    let command = "a".repeat(MAX_COMMAND_LEN);
    let (status, _) = submit(
        &raft_node,
        &mut queue,
        false,
        &command,
        RaftReply::Accepted(1),
    );
    assert_eq!(status.code(), 200);
}
