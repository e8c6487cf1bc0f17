use nomad_lite::scheduler::assigner::JobAssigner;
use nomad_lite::scheduler::job::{Job, JobStatus};
use nomad_lite::scheduler::queue::JobQueue;
use std::time::{Duration, Instant};
use uuid::Uuid;

fn wait(time: Duration) {
    let start = Instant::now();
    while start.elapsed() < time {}
}

#[test]
fn test_assign_to_least_loaded_worker() {
    let mut queue = JobQueue::new();
    let mut assigner = JobAssigner::new(5000);
    assigner.register_worker(1);
    assigner.register_worker(2);
    // Give worker 1 two fake running jobs so it is more loaded
    let fake1 = Uuid::new_v4().as_u128();
    let fake2 = Uuid::new_v4().as_u128();
    assigner.job_assigned(1, &fake1);
    assigner.job_assigned(1, &fake2);
    queue.add_job(Job::new("test".to_string()));
    let result = assigner.assign_next_job(&mut queue);
    assert!(result.is_some());
    let (_, worker_id) = result.unwrap();
    assert_eq!(worker_id, 2);
}

#[test]
fn test_assign_with_equal_load_assigns_one_job() {
    let mut queue = JobQueue::new();
    let mut assigner = JobAssigner::new(5000);
    assigner.register_worker(1);
    assigner.register_worker(2);
    queue.add_job(Job::new("test".to_string()));
    let result = assigner.assign_next_job(&mut queue);
    assert!(result.is_some());
    let (job_id, _) = result.unwrap();
    let job = queue.get_job(&job_id).unwrap();
    assert_eq!(job.status, JobStatus::Running);
}

#[test]
fn test_job_completed_reduces_load() {
    let mut queue = JobQueue::new();
    let mut assigner = JobAssigner::new(5000);
    assigner.register_worker(1);
    queue.add_job(Job::new("job1".to_string()));
    queue.add_job(Job::new("job2".to_string()));
    let (id1, w) = assigner.assign_next_job(&mut queue).unwrap();
    let _ = assigner.assign_next_job(&mut queue).unwrap();
    assert_eq!(assigner.running_jobs_of(1).len(), 2);
    assigner.job_completed(w, &id1);
    assert_eq!(assigner.running_jobs_of(1).len(), 1);
}

#[test]
fn test_check_dead_workers_detects_expired() {
    let mut assigner = JobAssigner::new(0); // 0ms timeout → immediately dead
    assigner.register_worker(1);
    wait(Duration::from_millis(1));
    let dead = assigner.check_dead_workers();
    assert!(dead.contains(&1));
}

#[test]
fn test_available_workers_excludes_dead() {
    let mut queue = JobQueue::new();
    let mut assigner = JobAssigner::new(0); // 0ms timeout → immediately dead
    assigner.register_worker(1);
    wait(Duration::from_millis(1));
    queue.add_job(Job::new("test".to_string()));
    // No alive workers → assign_next_job returns None
    let result = assigner.assign_next_job(&mut queue);
    assert!(result.is_none());
}

#[test]
fn heartbeats_keep_a_worker_alive() {
    let ms = 1_000_000u128;
    let mut assigner = JobAssigner::new(100);
    assigner.register_worker_at(1, 0);
    assigner.worker_heartbeat_at(2, 50 * ms);
    assert_eq!(assigner.available_workers_at(99 * ms).len(), 2);
    assert_eq!(assigner.available_workers_at(149 * ms), vec![2]);
    assert_eq!(assigner.check_dead_workers_at(149 * ms), vec![1]);
    assigner.worker_heartbeat_at(1, 149 * ms);
    assert_eq!(assigner.available_workers_at(150 * ms), vec![1]);
}

#[test]
fn workers_are_listed_and_cleared() {
    let mut assigner = JobAssigner::new(100);
    assigner.register_worker(3);
    assigner.register_worker(4);
    let mut ids: Vec<u64> = assigner.all_workers().iter().map(|w| w.id).collect();
    ids.sort();
    assert_eq!(ids, vec![3, 4]);
    assigner.clear();
    assert!(assigner.all_workers().is_empty());
}
