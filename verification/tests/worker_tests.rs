use nomad_lite::config::SandboxConfig;
use nomad_lite::node::{finish_job, update_command};
use nomad_lite::raft::state::Command;
use nomad_lite::raft::timer::random_election_timeout;
use nomad_lite::scheduler::{Job, JobAssigner, JobQueue, JobStatus};
use nomad_lite::worker::executor::{ExecutionResult, JobExecutor, ProcessOutput};
use nomad_lite::worker::heartbeat::HeartbeatSender;

fn output(success: bool, code: Option<i32>, stdout: &[u8], stderr: &[u8]) -> ProcessOutput {
    ProcessOutput {
        success,
        code,
        stdout: stdout.to_vec(),
        stderr: stderr.to_vec(),
    }
}

#[test]
fn containers_are_locked_down() {
    let executor = JobExecutor::new(SandboxConfig::default());
    assert_eq!(executor.timeout_secs(), 30);
    assert_eq!(
        executor.docker_args(0xab, "echo hi", None),
        vec![
            "run",
            "--rm",
            "--name",
            "nomad-000000000000000000000000000000ab",
            "--network=none",
            "--memory=256m",
            "--cpus=0.5",
            "--cap-drop=ALL",
            "--security-opt=no-new-privileges",
            "--read-only",
            "alpine:latest",
            "sh",
            "-c",
            "echo hi",
        ]
    );
    let open = JobExecutor::new(SandboxConfig {
        image: "busybox".to_string(),
        network_disabled: false,
        memory_limit: None,
        cpu_limit: None,
        timeout_secs: 7,
    });
    let args = open.docker_args(1, "ls", Some("python:3.12"));
    assert!(!args.iter().any(|a| a.starts_with("--network") || a.starts_with("--memory")));
    assert_eq!(args[args.len() - 4], "python:3.12");
    assert_eq!(
        JobExecutor::removal_args(0xab),
        vec!["rm", "-f", "nomad-000000000000000000000000000000ab"]
    );
}

/// Starts a job in its container, which ends as told.
fn execute(job_id: u128, command: &str, ended: ProcessOutput) -> ExecutionResult {
    let executor = JobExecutor::new(SandboxConfig::default());
    let args = executor.docker_args(job_id, command, None);
    assert_eq!(args[args.len() - 3..], ["sh", "-c", command]);
    JobExecutor::process_output(job_id, Ok(ended))
}

#[test]
fn test_execute_simple_command() {
    let job_id = 11;
    let result = execute(job_id, "echo hello", output(true, Some(0), b"hello\n", b""));

    assert_eq!(result.job_id, job_id);
    assert_eq!(result.status, JobStatus::Completed);
    assert_eq!(result.output, Some("hello\n".to_string()));
    assert!(result.error.is_none());
}

#[test]
fn test_execute_empty_output() {
    let job_id = 12;
    // Command that produces no output
    let result = execute(job_id, "true", output(true, Some(0), b"", b""));

    assert_eq!(result.job_id, job_id);
    assert_eq!(result.status, JobStatus::Completed);
    assert!(result.output.is_none()); // Empty output should be None
    assert!(result.error.is_none());
}

#[test]
fn test_execute_large_output() {
    let job_id = 13;
    let mut lines = String::new();
    for i in 1..=1000 {
        lines.push_str(&format!("{}\n", i));
    }
    // Generate large output (1000 lines)
    let result = execute(
        job_id,
        "seq 1 1000",
        output(true, Some(0), lines.as_bytes(), b""),
    );

    assert_eq!(result.job_id, job_id);
    assert_eq!(result.status, JobStatus::Completed);
    assert!(result.output.is_some());

    let output = result.output.unwrap();
    let line_count = output.lines().count();
    assert_eq!(line_count, 1000);
}

#[test]
fn test_execute_command_failure() {
    let job_id = 14;
    // Command that exits with non-zero status
    let result = execute(job_id, "exit 1", output(false, Some(1), b"", b""));

    assert_eq!(result.job_id, job_id);
    assert_eq!(result.status, JobStatus::Failed);
    assert!(result.error.is_some());
    assert_eq!(result.error.as_deref(), Some("Exit code: Some(1)"));
    let killed = execute(job_id, "exit 1", output(false, None, b"", b""));
    assert_eq!(killed.error.as_deref(), Some("Exit code: None"));
}

#[test]
fn test_execute_command_with_stderr() {
    let job_id = 15;
    // Command that writes to stderr and fails
    let result = execute(
        job_id,
        "echo 'error message' >&2 && exit 1",
        output(false, Some(1), b"", b"error message\n"),
    );

    assert_eq!(result.job_id, job_id);
    assert_eq!(result.status, JobStatus::Failed);
    assert!(result.error.is_some());
    assert!(result.error.unwrap().contains("error message"));
}

#[test]
fn test_execute_invalid_command() {
    let job_id = 16;
    // Command that doesn't exist
    let result = execute(
        job_id,
        "nonexistent_command_12345",
        output(
            false,
            Some(127),
            b"",
            b"sh: nonexistent_command_12345: not found\n",
        ),
    );

    assert_eq!(result.job_id, job_id);
    assert_eq!(result.status, JobStatus::Failed);
    assert!(result.error.is_some());
}

#[test]
fn test_execute_multiline_output() {
    let job_id = 17;
    let result = execute(
        job_id,
        "echo -e 'line1\\nline2\\nline3'",
        output(true, Some(0), b"line1\nline2\nline3\n", b""),
    );

    assert_eq!(result.job_id, job_id);
    assert_eq!(result.status, JobStatus::Completed);
    assert!(result.output.is_some());

    let output = result.output.unwrap();
    assert_eq!(output.lines().count(), 3);
}

#[test]
fn test_execute_with_special_characters() {
    let job_id = 18;
    // Command with special characters
    let result = execute(
        job_id,
        "echo 'hello $USER'",
        output(true, Some(0), b"hello $USER\n", b""),
    );

    assert_eq!(result.job_id, job_id);
    assert_eq!(result.status, JobStatus::Completed);
    // Single quotes prevent variable expansion
    assert_eq!(result.output, Some("hello $USER\n".to_string()));
}

#[test]
fn test_execute_piped_commands() {
    let job_id = 19;
    let result = execute(
        job_id,
        "echo 'hello world' | wc -w",
        output(true, Some(0), b"2\n", b""),
    );

    assert_eq!(result.job_id, job_id);
    assert_eq!(result.status, JobStatus::Completed);
    assert!(result.output.is_some());
    // Output should be "2" (word count)
    assert!(result.output.unwrap().trim() == "2");
}

#[test]
fn successful_jobs_have_no_error() {
    let result = execute(20, "ls", output(true, Some(0), b"out", b"warning"));
    assert_eq!(result.output.as_deref(), Some("out"));
    assert_eq!(result.error, None);
    assert_eq!(result.exit_code, Some(0));
    let failed = execute(20, "ls", output(false, Some(2), b"out", b"err"));
    assert_eq!(failed.output.as_deref(), Some("out"));
    assert_eq!(failed.error.as_deref(), Some("err"));
}

#[test]
fn bytes_that_are_no_text_are_replaced() {
    let result = JobExecutor::process_output(1, Ok(output(true, Some(0), b"a\xffb", b"")));
    assert_eq!(result.output.as_deref(), Some("a\u{fffd}b"));
}

#[test]
fn jobs_that_did_not_run_have_failed() {
    let failed = JobExecutor::process_output(5, Err("gone".to_string()));
    assert_eq!(failed.job_id, 5);
    assert_eq!(failed.status, JobStatus::Failed);
    assert_eq!(failed.exit_code, None);
    assert_eq!(failed.error.as_deref(), Some("gone"));
    let late = JobExecutor::new(SandboxConfig::default()).timed_out(6);
    assert_eq!(late.error.as_deref(), Some("Timed out after 30s"));
}

#[test]
fn results_stay_here_and_metadata_travels() {
    let mut queue = JobQueue::new();
    let mut assigner = JobAssigner::new(5000);
    let at = nomad_lite::clock::Timestamp {
        seconds: 9,
        nanos: 0,
    };
    queue.add_job(Job::with_id(3, "echo".to_string(), at));
    assigner.register_worker(4);
    assigner.job_assigned(4, &3);
    let result = JobExecutor::process_output(3, Ok(output(true, Some(0), b"done", b"")));
    let update = finish_job(&mut queue, &mut assigner, 4, result, at);
    assert!(assigner.running_jobs_of(4).is_empty());
    let job = queue.get_job(&3).unwrap();
    assert_eq!(job.output.as_deref(), Some("done"));
    assert_eq!(job.completed_at, Some(at));
    match update_command(vec![update]) {
        Command::UpdateJobStatus {
            job_id,
            executed_by,
            exit_code,
            ..
        } => assert_eq!((job_id, executed_by, exit_code), (3, 4, Some(0))),
        _ => panic!("one update travels alone"),
    }
    assert!(matches!(
        update_command(vec![update, update]),
        Command::BatchUpdateJobStatus { .. }
    ));
}

#[test]
fn timeouts_are_random_within_their_range() {
    let mut seen = Vec::new();
    for _ in 0..200 {
        let timeout = random_election_timeout(150, 300);
        assert!((150..=300).contains(&timeout));
        seen.push(timeout);
    }
    assert!(seen.iter().any(|t| *t != seen[0]));
    assert_eq!(random_election_timeout(7, 7), 7);
}

#[test]
fn heartbeats_have_an_interval() {
    assert_eq!(HeartbeatSender::new(50).interval_ms(), 50);
}
