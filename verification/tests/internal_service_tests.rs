use chrono::Utc;
use nomad_lite::clock::Timestamp;
use nomad_lite::grpc::internal_service::InternalServiceImpl;
use nomad_lite::grpc::status::Code;
use nomad_lite::proto::{
    ForwardJobStatusRequest, GetJobOutputRequest, UpdateJobStatusCommand, WorkerHeartbeatRequest,
};
use nomad_lite::raft::state::Command;
use nomad_lite::scheduler::assigner::JobAssigner;
use nomad_lite::scheduler::job::{Job, JobStatus};
use nomad_lite::scheduler::queue::JobQueue;
use uuid::Uuid;

fn now() -> Timestamp {
    let now = Utc::now();
    Timestamp {
        seconds: now.timestamp(),
        nanos: now.timestamp_subsec_nanos(),
    }
}

/// Helper to create a test service with a job queue
fn create_test_service(node_id: u64) -> (InternalServiceImpl, JobQueue) {
    let queue = JobQueue::new();
    let service = InternalServiceImpl::new(node_id, false);
    (service, queue)
}

/// Test get_job_output returns output when this node executed the job.
#[test]
fn test_get_job_output_executed_by_this_node() {
    let (service, mut q) = create_test_service(1);

    // Add a job that was executed by this node
    let job_id = Uuid::new_v4();
    {
        q.add_job(Job::with_id(job_id.as_u128(), "echo hello".to_string(), now()));
        q.update_job_result(
            &job_id.as_u128(),
            JobStatus::Completed,
            1, // executed_by this node
            Some(0),
            Some("hello\n".to_string()),
            None,
            now(),
        );
    }

    let request = GetJobOutputRequest {
        job_id: job_id.to_string(),
    };

    let resp = service.get_job_output(&q, request).unwrap();

    assert!(resp.found);
    assert_eq!(resp.job_id, job_id.to_string());
    assert_eq!(resp.output, "hello\n");
    assert_eq!(resp.error, "");
}

/// Test get_job_output returns found=false when job was executed by another node.
#[test]
fn test_get_job_output_executed_by_other_node() {
    let (service, mut q) = create_test_service(1);

    // Add a job that was executed by a different node
    let job_id = Uuid::new_v4();
    {
        q.add_job(Job::with_id(job_id.as_u128(), "echo hello".to_string(), now()));
        q.update_job_result(
            &job_id.as_u128(),
            JobStatus::Completed,
            2, // executed_by different node
            Some(0),
            Some("hello\n".to_string()),
            None,
            now(),
        );
    }

    let request = GetJobOutputRequest {
        job_id: job_id.to_string(),
    };

    let resp = service.get_job_output(&q, request).unwrap();

    // Should return found=false since this node didn't execute it
    assert!(!resp.found);
    assert_eq!(resp.output, "");
    assert_eq!(resp.error, "");
}

/// Test get_job_output returns error when job doesn't exist.
#[test]
fn test_get_job_output_job_not_found() {
    let (service, q) = create_test_service(1);

    let nonexistent_id = Uuid::new_v4();
    let request = GetJobOutputRequest {
        job_id: nonexistent_id.to_string(),
    };

    let result = service.get_job_output(&q, request);
    assert!(result.is_err());

    let status = result.unwrap_err();
    assert_eq!(status.code, Code::NotFound);
    assert_eq!(status.message, "Job not found");
}

/// Test get_job_output returns error for invalid job ID format.
#[test]
fn test_get_job_output_invalid_job_id() {
    let (service, q) = create_test_service(1);

    let request = GetJobOutputRequest {
        job_id: "not-a-valid-uuid".to_string(),
    };

    let result = service.get_job_output(&q, request);
    assert!(result.is_err());

    let status = result.unwrap_err();
    assert_eq!(status.code, Code::InvalidArgument);
    assert_eq!(status.message, "Invalid job ID");
}

/// Test get_job_output returns both output and error fields.
#[test]
fn test_get_job_output_with_output_and_error() {
    let (service, mut q) = create_test_service(1);

    let job_id = Uuid::new_v4();
    {
        q.add_job(Job::with_id(job_id.as_u128(), "cmd".to_string(), now()));
        q.update_job_result(
            &job_id.as_u128(),
            JobStatus::Completed,
            1,
            Some(0),
            Some("stdout content".to_string()),
            Some("stderr content".to_string()),
            now(),
        );
    }

    let request = GetJobOutputRequest {
        job_id: job_id.to_string(),
    };

    let resp = service.get_job_output(&q, request).unwrap();

    assert!(resp.found);
    assert_eq!(resp.output, "stdout content");
    assert_eq!(resp.error, "stderr content");
}

/// Test get_job_output handles empty output gracefully.
#[test]
fn test_get_job_output_empty_output() {
    let (service, mut q) = create_test_service(1);

    let job_id = Uuid::new_v4();
    {
        q.add_job(Job::with_id(job_id.as_u128(), "true".to_string(), now()));
        q.update_job_result(
            &job_id.as_u128(),
            JobStatus::Completed,
            1,
            Some(0),
            None, // No output
            None,
            now(),
        );
    }

    let request = GetJobOutputRequest {
        job_id: job_id.to_string(),
    };

    let resp = service.get_job_output(&q, request).unwrap();

    assert!(resp.found);
    assert_eq!(resp.output, ""); // Empty string, not None
    assert_eq!(resp.error, "");
}

/// Test get_job_output for a job that hasn't been executed yet (no executed_by).
#[test]
fn test_get_job_output_job_not_executed() {
    let (service, mut q) = create_test_service(1);

    // Add a pending job (not yet executed)
    let job_id = Uuid::new_v4();
    {
        q.add_job(Job::with_id(job_id.as_u128(), "echo test".to_string(), now()));
        // Job is pending, executed_by is None
    }

    let request = GetJobOutputRequest {
        job_id: job_id.to_string(),
    };

    let resp = service.get_job_output(&q, request).unwrap();

    // Should return found=false since executed_by is None (doesn't match node_id)
    assert!(!resp.found);
}

fn update(job_id: &str) -> UpdateJobStatusCommand {
    UpdateJobStatusCommand {
        job_id: job_id.to_string(),
        status: 3,
        executed_by: 2,
        exit_code: Some(0),
        completed_at_ms: Some(1_500),
    }
}

#[test]
fn reports_need_a_raft_loop() {
    let (service, _q) = create_test_service(1);
    let refused = service
        .forward_job_status(&ForwardJobStatusRequest { updates: vec![] })
        .unwrap_err();
    assert_eq!(refused.code, Code::Unavailable);
    assert_eq!(refused.message, "Raft not available");
    let failed = InternalServiceImpl::forward_failed();
    assert_eq!(failed.code, Code::Internal);
    assert_eq!(failed.message, "Failed to propose status update");
}

#[test]
fn reports_become_commands() {
    let service = InternalServiceImpl::new(1, true);
    let id = Uuid::from_u128(5).to_string();
    assert!(service
        .forward_job_status(&ForwardJobStatusRequest { updates: vec![] })
        .unwrap()
        .is_none());
    match service
        .forward_job_status(&ForwardJobStatusRequest {
            updates: vec![update("bad"), update(&id)],
        })
        .unwrap()
    {
        Some(Command::UpdateJobStatus {
            job_id,
            status,
            executed_by,
            completed_at,
            ..
        }) => {
            assert_eq!(job_id, 5);
            assert_eq!(status, JobStatus::Completed);
            assert_eq!(executed_by, 2);
            assert_eq!(
                completed_at,
                Some(Timestamp {
                    seconds: 1,
                    nanos: 500_000_000,
                })
            );
        }
        _ => panic!("one update travels alone"),
    }
    match service
        .forward_job_status(&ForwardJobStatusRequest {
            updates: vec![update(&id), update(&id)],
        })
        .unwrap()
    {
        Some(Command::BatchUpdateJobStatus { updates }) => assert_eq!(updates.len(), 2),
        _ => panic!("two updates travel together"),
    }
}

/// Test that a heartbeat makes a worker known.
#[test]
fn test_worker_heartbeat_rpc() {
    let service = InternalServiceImpl::new(1, false);
    let mut assigner = JobAssigner::new(5000);
    assert!(assigner.available_workers().is_empty());
    let now = assigner.now();
    service.worker_heartbeat(&mut assigner, WorkerHeartbeatRequest { node_id: 42 }, now);
    assert!(assigner.available_workers().contains(&42));
}
