use chrono::Utc;
use nomad_lite::clock::Timestamp;
use nomad_lite::proto::command::CommandType;
use nomad_lite::proto::{
    BatchUpdateJobStatusCommand, Command as ProtoCommand, LogEntry as ProtoLogEntry,
    RegisterWorkerCommand, SubmitJobCommand, UpdateJobStatusCommand,
};
use nomad_lite::raft::rpc::{
    internal_status_to_proto, log_entry_to_proto, proto_status_to_internal, proto_to_log_entry,
};
use nomad_lite::raft::state::{Command, JobStatusUpdate, LogEntry};
use nomad_lite::scheduler::JobStatus;
use uuid::Uuid;

fn now() -> Timestamp {
    let now = Utc::now();
    Timestamp {
        seconds: now.timestamp(),
        nanos: now.timestamp_subsec_nanos(),
    }
}

/// Test log_entry_to_proto for SubmitJob command.
#[test]
fn test_log_entry_to_proto_submit_job() {
    let job_id = Uuid::new_v4();
    let entry = LogEntry {
        term: 1,
        index: 5,
        command: Command::SubmitJob {
            job_id: job_id.as_u128(),
            command: "echo hello".to_string(),
            image: None,
            created_at: now(),
        },
    };

    let proto = log_entry_to_proto(&entry);

    assert_eq!(proto.term, 1);
    assert_eq!(proto.index, 5);
    assert!(proto.command.is_some());

    if let Some(cmd) = proto.command {
        if let Some(CommandType::SubmitJob(submit)) = cmd.command_type {
            assert_eq!(submit.job_id, job_id.to_string());
            assert_eq!(submit.command, "echo hello");
        } else {
            panic!("Expected SubmitJob command type");
        }
    }
}

/// Test log_entry_to_proto for UpdateJobStatus command.
#[test]
fn test_log_entry_to_proto_update_job_status() {
    let job_id = Uuid::new_v4();
    let entry = LogEntry {
        term: 2,
        index: 10,
        command: Command::UpdateJobStatus {
            job_id: job_id.as_u128(),
            status: JobStatus::Completed,
            executed_by: 3,
            exit_code: Some(0),
            completed_at: Some(now()),
        },
    };

    let proto = log_entry_to_proto(&entry);

    assert_eq!(proto.term, 2);
    assert_eq!(proto.index, 10);

    if let Some(cmd) = proto.command {
        if let Some(CommandType::UpdateJobStatus(update)) = cmd.command_type {
            assert_eq!(update.job_id, job_id.to_string());
            assert_eq!(
                update.status,
                nomad_lite::proto::JobStatus::Completed.to_number()
            );
            assert_eq!(update.executed_by, 3);
            assert_eq!(update.exit_code, Some(0));
        } else {
            panic!("Expected UpdateJobStatus command type");
        }
    }
}

/// Test log_entry_to_proto for UpdateJobStatus with None exit_code.
#[test]
fn test_log_entry_to_proto_update_job_status_none_exit_code() {
    let job_id = Uuid::new_v4();
    let entry = LogEntry {
        term: 1,
        index: 1,
        command: Command::UpdateJobStatus {
            job_id: job_id.as_u128(),
            status: JobStatus::Failed,
            executed_by: 1,
            exit_code: None,
            completed_at: Some(now()),
        },
    };

    let proto = log_entry_to_proto(&entry);

    if let Some(cmd) = proto.command {
        if let Some(CommandType::UpdateJobStatus(update)) = cmd.command_type {
            assert_eq!(update.exit_code, None);
        } else {
            panic!("Expected UpdateJobStatus command type");
        }
    }
}

/// Test log_entry_to_proto for RegisterWorker command.
#[test]
fn test_log_entry_to_proto_register_worker() {
    let entry = LogEntry {
        term: 1,
        index: 3,
        command: Command::RegisterWorker { worker_id: 42 },
    };

    let proto = log_entry_to_proto(&entry);

    if let Some(cmd) = proto.command {
        if let Some(CommandType::RegisterWorker(register)) = cmd.command_type {
            assert_eq!(register.worker_id, 42);
        } else {
            panic!("Expected RegisterWorker command type");
        }
    }
}

/// Test log_entry_to_proto for Noop command.
#[test]
fn test_log_entry_to_proto_noop() {
    let entry = LogEntry {
        term: 1,
        index: 1,
        command: Command::Noop,
    };

    let proto = log_entry_to_proto(&entry);
    assert!(proto.command.is_none());
}

/// Test proto_to_log_entry for SubmitJob command.
#[test]
fn test_proto_to_log_entry_submit_job() {
    let job_id = Uuid::new_v4();
    let proto = ProtoLogEntry {
        term: 1,
        index: 5,
        command: Some(ProtoCommand {
            command_type: Some(CommandType::SubmitJob(SubmitJobCommand {
                job_id: job_id.to_string(),
                command: "echo test".to_string(),
                image: None,
                created_at_ms: 1000,
            })),
        }),
    };

    let entry = proto_to_log_entry(&proto).unwrap();

    assert_eq!(entry.term, 1);
    assert_eq!(entry.index, 5);
    if let Command::SubmitJob {
        job_id: parsed_id,
        command,
        ..
    } = entry.command
    {
        assert_eq!(parsed_id, job_id.as_u128());
        assert_eq!(command, "echo test");
    } else {
        panic!("Expected SubmitJob command");
    }
}

/// Test proto_to_log_entry for UpdateJobStatus command.
#[test]
fn test_proto_to_log_entry_update_job_status() {
    let job_id = Uuid::new_v4();
    let proto = ProtoLogEntry {
        term: 2,
        index: 10,
        command: Some(ProtoCommand {
            command_type: Some(CommandType::UpdateJobStatus(UpdateJobStatusCommand {
                job_id: job_id.to_string(),
                status: nomad_lite::proto::JobStatus::Completed.to_number(),
                executed_by: 3,
                exit_code: Some(0),
                completed_at_ms: Some(2000),
            })),
        }),
    };

    let entry = proto_to_log_entry(&proto).unwrap();

    if let Command::UpdateJobStatus {
        job_id: parsed_id,
        status,
        executed_by,
        exit_code,
        ..
    } = entry.command
    {
        assert_eq!(parsed_id, job_id.as_u128());
        assert_eq!(status, JobStatus::Completed);
        assert_eq!(executed_by, 3);
        assert_eq!(exit_code, Some(0));
    } else {
        panic!("Expected UpdateJobStatus command");
    }
}

/// Test proto_to_log_entry for RegisterWorker command.
#[test]
fn test_proto_to_log_entry_register_worker() {
    let proto = ProtoLogEntry {
        term: 1,
        index: 3,
        command: Some(ProtoCommand {
            command_type: Some(CommandType::RegisterWorker(RegisterWorkerCommand {
                worker_id: 42,
            })),
        }),
    };

    let entry = proto_to_log_entry(&proto).unwrap();

    if let Command::RegisterWorker { worker_id } = entry.command {
        assert_eq!(worker_id, 42);
    } else {
        panic!("Expected RegisterWorker command");
    }
}

/// Test proto_to_log_entry for Noop (no command).
#[test]
fn test_proto_to_log_entry_noop() {
    let proto = ProtoLogEntry {
        term: 1,
        index: 1,
        command: None,
    };

    let entry = proto_to_log_entry(&proto).unwrap();
    assert!(matches!(entry.command, Command::Noop));
}

/// Test roundtrip conversion for SubmitJob.
#[test]
fn test_roundtrip_submit_job() {
    let job_id = Uuid::new_v4().as_u128();
    let original = LogEntry {
        term: 3,
        index: 15,
        command: Command::SubmitJob {
            job_id,
            command: "echo roundtrip".to_string(),
            image: None,
            created_at: now(),
        },
    };

    let proto = log_entry_to_proto(&original);
    let recovered = proto_to_log_entry(&proto).unwrap();

    assert_eq!(recovered.term, original.term);
    assert_eq!(recovered.index, original.index);
    if let (
        Command::SubmitJob {
            job_id: orig_id,
            command: orig_cmd,
            ..
        },
        Command::SubmitJob {
            job_id: rec_id,
            command: rec_cmd,
            ..
        },
    ) = (&original.command, &recovered.command)
    {
        assert_eq!(orig_id, rec_id);
        assert_eq!(orig_cmd, rec_cmd);
    } else {
        panic!("Commands don't match");
    }
}

/// Test roundtrip conversion for UpdateJobStatus.
#[test]
fn test_roundtrip_update_job_status() {
    let job_id = Uuid::new_v4().as_u128();
    let original = LogEntry {
        term: 4,
        index: 20,
        command: Command::UpdateJobStatus {
            job_id,
            status: JobStatus::Failed,
            executed_by: 5,
            exit_code: Some(1),
            completed_at: Some(now()),
        },
    };

    let proto = log_entry_to_proto(&original);
    let recovered = proto_to_log_entry(&proto).unwrap();

    if let (
        Command::UpdateJobStatus {
            job_id: orig_id,
            status: orig_status,
            executed_by: orig_exec,
            exit_code: orig_exit,
            ..
        },
        Command::UpdateJobStatus {
            job_id: rec_id,
            status: rec_status,
            executed_by: rec_exec,
            exit_code: rec_exit,
            ..
        },
    ) = (&original.command, &recovered.command)
    {
        assert_eq!(orig_id, rec_id);
        assert_eq!(orig_status, rec_status);
        assert_eq!(orig_exec, rec_exec);
        assert_eq!(orig_exit, rec_exit);
    } else {
        panic!("Commands don't match");
    }
}

/// Test status conversion functions.
#[test]
fn test_status_conversion_roundtrip() {
    let statuses = [
        JobStatus::Pending,
        JobStatus::Running,
        JobStatus::Completed,
        JobStatus::Failed,
    ];

    for status in statuses {
        let proto = internal_status_to_proto(&status);
        let recovered = proto_status_to_internal(proto);
        assert_eq!(status, recovered);
    }
}

#[test]
fn cancelled_status_survives_the_wire() {
    let wire = internal_status_to_proto(&JobStatus::Cancelled);
    assert_eq!(wire.to_number(), 5);
    assert_eq!(proto_status_to_internal(wire), JobStatus::Cancelled);
    assert_eq!(
        proto_status_to_internal(nomad_lite::proto::JobStatus::Unspecified),
        JobStatus::Pending
    );
}

#[test]
fn moments_are_cut_to_the_millisecond_on_the_wire() {
    let entry = LogEntry {
        term: 1,
        index: 1,
        command: Command::SubmitJob {
            job_id: 7,
            command: "c".to_string(),
            image: Some("python:3.12".to_string()),
            created_at: Timestamp {
                seconds: 1_700_000_000,
                nanos: 123_456_789,
            },
        },
    };
    let back = proto_to_log_entry(&log_entry_to_proto(&entry)).unwrap();
    match back.command {
        Command::SubmitJob {
            created_at, image, ..
        } => {
            assert_eq!(
                created_at,
                Timestamp {
                    seconds: 1_700_000_000,
                    nanos: 123_000_000,
                }
            );
            assert_eq!(image.as_deref(), Some("python:3.12"));
        }
        _ => panic!("expected a submission"),
    }
}

#[test]
fn malformed_updates_are_left_out_of_a_batch() {
    let good = Uuid::from_u128(99).to_string();
    let update = |job_id: String| UpdateJobStatusCommand {
        job_id,
        status: 4,
        executed_by: 2,
        exit_code: Some(1),
        completed_at_ms: Some(-1),
    };
    let proto = ProtoLogEntry {
        term: 1,
        index: 1,
        command: Some(ProtoCommand {
            command_type: Some(CommandType::BatchUpdateJobStatus(
                BatchUpdateJobStatusCommand {
                    updates: vec![update("nonsense".to_string()), update(good)],
                },
            )),
        }),
    };
    match proto_to_log_entry(&proto).unwrap().command {
        Command::BatchUpdateJobStatus { updates } => {
            assert_eq!(
                updates,
                vec![JobStatusUpdate {
                    job_id: 99,
                    status: JobStatus::Failed,
                    executed_by: 2,
                    exit_code: Some(1),
                    completed_at: Some(Timestamp {
                        seconds: -1,
                        nanos: 999_000_000,
                    }),
                }]
            );
        }
        _ => panic!("expected a batch"),
    }
}

#[test]
fn submission_with_a_malformed_id_is_no_entry() {
    let proto = ProtoLogEntry {
        term: 1,
        index: 1,
        command: Some(ProtoCommand {
            command_type: Some(CommandType::SubmitJob(SubmitJobCommand {
                job_id: "not-a-valid-uuid".to_string(),
                command: "x".to_string(),
                image: None,
                created_at_ms: 0,
            })),
        }),
    };
    assert!(proto_to_log_entry(&proto).is_none());
}
