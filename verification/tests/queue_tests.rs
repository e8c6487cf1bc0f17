use chrono::Utc;
use nomad_lite::clock::Timestamp;
use nomad_lite::scheduler::job::{Job, JobStatus};
use nomad_lite::scheduler::queue::JobQueue;
use uuid::Uuid;

fn now() -> Timestamp {
    let now = Utc::now();
    Timestamp {
        seconds: now.timestamp(),
        nanos: now.timestamp_subsec_nanos(),
    }
}

#[test]
fn test_update_status_preserves_none_output() {
    let mut queue = JobQueue::new();
    let job = Job::new("echo hello".to_string());
    let id = job.id;
    queue.add_job(job);
    // Set output via update_job_result
    queue.update_job_result(
        &id,
        JobStatus::Running,
        1,
        None,
        Some("hello".to_string()),
        None,
        now(),
    );
    // update_status with None should NOT overwrite existing output
    queue.update_status(&id, JobStatus::Completed, None, None);
    let job = queue.get_job(&id).unwrap();
    assert_eq!(job.output, Some("hello".to_string()));
}

#[test]
fn test_update_status_overwrites_some_output() {
    let mut queue = JobQueue::new();
    let job = Job::new("test".to_string());
    let id = job.id;
    queue.add_job(job);
    queue.update_status(
        &id,
        JobStatus::Completed,
        Some("new".to_string()),
        Some("err".to_string()),
    );
    let job = queue.get_job(&id).unwrap();
    assert_eq!(job.output, Some("new".to_string()));
    assert_eq!(job.error, Some("err".to_string()));
}

#[test]
fn test_update_status_nonexistent_returns_false() {
    let mut queue = JobQueue::new();
    let result = queue.update_status(
        &Uuid::new_v4().as_u128(),
        JobStatus::Completed,
        None,
        None,
    );
    assert!(!result);
}

#[test]
fn test_update_job_result_sets_all_fields() {
    let mut queue = JobQueue::new();
    let job = Job::new("test".to_string());
    let id = job.id;
    queue.add_job(job);
    let now = now();
    queue.update_job_result(
        &id,
        JobStatus::Completed,
        2,
        Some(0),
        Some("out".to_string()),
        None,
        now,
    );
    let job = queue.get_job(&id).unwrap();
    assert_eq!(job.status, JobStatus::Completed);
    assert_eq!(job.executed_by, Some(2));
    assert_eq!(job.exit_code, Some(0));
    assert_eq!(job.output, Some("out".to_string()));
    assert_eq!(job.error, None);
}

#[test]
fn test_update_status_metadata_does_not_touch_output() {
    let mut queue = JobQueue::new();
    let job = Job::new("test".to_string());
    let id = job.id;
    queue.add_job(job);
    // Set output locally
    queue.update_job_result(
        &id,
        JobStatus::Running,
        1,
        None,
        Some("local output".to_string()),
        None,
        now(),
    );
    // Metadata update must not overwrite output
    queue.update_status_metadata(&id, JobStatus::Completed, 1, Some(0), Some(now()));
    let job = queue.get_job(&id).unwrap();
    assert_eq!(job.output, Some("local output".to_string()));
}

#[test]
fn test_assign_job_sets_running_status() {
    let mut queue = JobQueue::new();
    let job = Job::new("test".to_string());
    let id = job.id;
    queue.add_job(job);
    let result = queue.assign_job(&id, 2);
    assert!(result);
    let job = queue.get_job(&id).unwrap();
    assert_eq!(job.status, JobStatus::Running);
    assert_eq!(job.assigned_worker, Some(2));
}

#[test]
fn test_assign_job_nonexistent_returns_false() {
    let mut queue = JobQueue::new();
    assert!(!queue.assign_job(&Uuid::new_v4().as_u128(), 1));
}

#[test]
fn test_jobs_assigned_to_filters_running_only() {
    let mut queue = JobQueue::new();
    let job1 = Job::new("cmd1".to_string());
    let id1 = job1.id;
    let job2 = Job::new("cmd2".to_string());
    let id2 = job2.id;
    queue.add_job(job1);
    queue.add_job(job2);
    queue.assign_job(&id1, 1);
    queue.assign_job(&id2, 1);
    // Complete job2 — only job1 should remain as Running
    queue.update_status(&id2, JobStatus::Completed, None, None);
    let assigned = queue.jobs_assigned_to(1);
    assert_eq!(assigned.len(), 1);
    assert_eq!(assigned[0].0, id1);
    assert_eq!(queue.running_jobs_on_worker(1), 1);
}

#[test]
fn jobs_are_listed_by_creation_and_then_by_id() {
    let mut queue = JobQueue::new();
    let at = |seconds: i64, nanos: u32| Timestamp { seconds, nanos };
    queue.add_job(Job::with_id(9, "same, greater id".to_string(), at(100, 5)));
    queue.add_job(Job::with_id(3, "same, smaller id".to_string(), at(100, 5)));
    queue.add_job(Job::with_id(1, "last".to_string(), at(200, 0)));
    queue.add_job(Job::with_id(7, "first".to_string(), at(100, 4)));
    let ids: Vec<u128> = queue.all_jobs().iter().map(|job| job.id).collect();
    assert_eq!(ids, vec![7, 3, 9, 1]);
}

#[test]
fn cancelling_stops_only_active_jobs() {
    let mut queue = JobQueue::new();
    let mut ids = Vec::new();
    for _ in 0..3 {
        let job = Job::new("x".to_string());
        ids.push(job.id);
        queue.add_job(job);
    }
    queue.assign_job(&ids[1], 1);
    queue.update_status(&ids[2], JobStatus::Completed, None, None);
    assert!(queue.cancel_job(&ids[0]));
    assert!(queue.cancel_job(&ids[1]));
    assert!(!queue.cancel_job(&ids[2]));
    assert!(!queue.cancel_job(&0));
    assert!(!queue.cancel_job(&ids[0]));
    assert_eq!(queue.get_job(&ids[0]).unwrap().status, JobStatus::Cancelled);
    assert_eq!(queue.get_job(&ids[1]).unwrap().status, JobStatus::Cancelled);
    assert_eq!(queue.get_job(&ids[2]).unwrap().status, JobStatus::Completed);
}

#[test]
fn jobs_are_changed_in_place() {
    let mut queue = JobQueue::new();
    let job = Job::new("x".to_string());
    let id = job.id;
    queue.add_job(job);
    if let Some(job) = queue.get_job_mut(&id) {
        job.exit_code = Some(9);
    }
    assert!(queue.get_job_mut(&0).is_none());
    assert_eq!(queue.get_job(&id).unwrap().exit_code, Some(9));
    queue.clear();
    assert!(queue.is_empty());
}

#[test]
fn new_jobs_have_random_ids_of_version_four() {
    let a = Job::new("x".to_string());
    let b = Job::new("x".to_string());
    assert_ne!(a.id, b.id);
    assert_eq!(Uuid::from_u128(a.id).get_version_num(), 4);
    assert!(a.created_at.seconds > 1_600_000_000);
}

#[test]
fn statuses_are_named() {
    assert_eq!(JobStatus::Pending.to_string(), "pending");
    assert_eq!(JobStatus::Running.to_string(), "running");
    assert_eq!(JobStatus::Completed.to_string(), "completed");
    assert_eq!(JobStatus::Failed.to_string(), "failed");
    assert_eq!(JobStatus::Cancelled.to_string(), "cancelled");
}
