use nomad_lite::config::{NodeConfig, PeerConfig};
use nomad_lite::dashboard::{proposal_reply, RaftReply};
use nomad_lite::grpc::client_service::{proposal_outcome, ProposalOutcome};
use nomad_lite::proto::{
    command::CommandType, AppendEntriesRequest, AppendEntriesResponse, Command as ProtoCommand,
    InstallSnapshotRequest, InstallSnapshotResponse, LogEntry as ProtoLogEntry, SubmitJobCommand, VoteRequest, VoteResponse,
};
use nomad_lite::raft::node::{MessageOutcome, ProposalState, RaftMessage, RaftNode};
use nomad_lite::raft::rpc::{handle_append_entries, handle_request_vote};
use nomad_lite::raft::state::{Command, LogEntry, RaftRole, RaftState};

#[test]
fn test_request_vote_grant_vote() {
    let mut state = RaftState::new();
    state.current_term = 1;

    let req = VoteRequest {
        term: 2,
        candidate_id: 2,
        last_log_index: 0,
        last_log_term: 0,
    };

    let resp = handle_request_vote(&mut state, &req, 1).unwrap();

    assert!(resp.vote_granted);
    assert_eq!(resp.term, 2);
    assert_eq!(state.voted_for, Some(2));
}

#[test]
fn test_request_vote_reject_stale_term() {
    let mut state = RaftState::new();
    state.current_term = 5;

    let req = VoteRequest {
        term: 3, // Lower than current term
        candidate_id: 2,
        last_log_index: 0,
        last_log_term: 0,
    };

    let resp = handle_request_vote(&mut state, &req, 1).unwrap();

    assert!(!resp.vote_granted);
    assert_eq!(resp.term, 5);
}

#[test]
fn test_request_vote_reject_already_voted() {
    let mut state = RaftState::new();
    state.current_term = 2;
    state.voted_for = Some(3); // Already voted for node 3

    let req = VoteRequest {
        term: 2,
        candidate_id: 2, // Different candidate
        last_log_index: 0,
        last_log_term: 0,
    };

    let resp = handle_request_vote(&mut state, &req, 1).unwrap();

    assert!(!resp.vote_granted);
}

#[test]
fn test_request_vote_reject_outdated_log() {
    let mut state = RaftState::new();
    state.current_term = 2;
    state.log.push(LogEntry {
        term: 2,
        index: 1,
        command: Command::Noop,
    });

    let req = VoteRequest {
        term: 3,
        candidate_id: 2,
        last_log_index: 0, // Candidate has no logs
        last_log_term: 0,
    };

    let resp = handle_request_vote(&mut state, &req, 1).unwrap();

    assert!(!resp.vote_granted);
}

#[test]
fn test_append_entries_heartbeat() {
    let mut state = RaftState::new();
    state.current_term = 1;

    let req = AppendEntriesRequest {
        term: 1,
        leader_id: 2,
        prev_log_index: 0,
        prev_log_term: 0,
        entries: vec![],
        leader_commit: 0,
    };

    let resp = handle_append_entries(&mut state, &req, 1).unwrap();

    assert!(resp.success);
    assert_eq!(resp.term, 1);
    assert_eq!(state.leader_id, Some(2));
}

#[test]
fn test_append_entries_reject_stale_term() {
    let mut state = RaftState::new();
    state.current_term = 5;

    let req = AppendEntriesRequest {
        term: 3, // Lower than current term
        leader_id: 2,
        prev_log_index: 0,
        prev_log_term: 0,
        entries: vec![],
        leader_commit: 0,
    };

    let resp = handle_append_entries(&mut state, &req, 1).unwrap();

    assert!(!resp.success);
    assert_eq!(resp.term, 5);
}

#[test]
fn test_append_entries_update_commit_index() {
    let mut state = RaftState::new();
    state.current_term = 1;
    state.log.push(LogEntry {
        term: 1,
        index: 1,
        command: Command::Noop,
    });

    let req = AppendEntriesRequest {
        term: 1,
        leader_id: 2,
        prev_log_index: 1,
        prev_log_term: 1,
        entries: vec![],
        leader_commit: 1,
    };

    let resp = handle_append_entries(&mut state, &req, 1).unwrap();

    assert!(resp.success);
    assert_eq!(state.commit_index, 1);
}

#[test]
fn test_append_entries_missing_prev_log() {
    let mut state = RaftState::new();
    state.current_term = 1;
    // Empty log

    let req = AppendEntriesRequest {
        term: 1,
        leader_id: 2,
        prev_log_index: 5, // We don't have entry at index 5
        prev_log_term: 1,
        entries: vec![],
        leader_commit: 0,
    };

    let resp = handle_append_entries(&mut state, &req, 1).unwrap();

    assert!(!resp.success);
}

#[test]
fn test_append_entries_higher_term_becomes_follower() {
    let mut state = RaftState::new();
    state.current_term = 1;
    state.become_candidate(1); // Node is a candidate

    let req = AppendEntriesRequest {
        term: 5, // Higher term
        leader_id: 2,
        prev_log_index: 0,
        prev_log_term: 0,
        entries: vec![],
        leader_commit: 0,
    };

    let resp = handle_append_entries(&mut state, &req, 1).unwrap();

    assert!(resp.success);
    assert_eq!(state.current_term, 5);
    assert_eq!(state.role, nomad_lite::raft::RaftRole::Follower);
}

#[test]
fn test_handle_request_vote_returns_ok() {
    let mut state = RaftState::new();
    state.current_term = 1;

    let req = VoteRequest {
        term: 2,
        candidate_id: 2,
        last_log_index: 0,
        last_log_term: 0,
    };

    let result = handle_request_vote(&mut state, &req, 1);
    assert!(result.is_ok());
}

#[test]
fn test_handle_append_entries_returns_ok() {
    let mut state = RaftState::new();
    state.current_term = 1;

    let req = AppendEntriesRequest {
        term: 1,
        leader_id: 2,
        prev_log_index: 0,
        prev_log_term: 0,
        entries: vec![],
        leader_commit: 0,
    };

    let result = handle_append_entries(&mut state, &req, 1);
    assert!(result.is_ok());
}

#[test]
fn test_append_entries_skips_malformed_entries() {
    let mut state = RaftState::new();
    state.current_term = 1;

    // Entry with an invalid UUID should be skipped
    let malformed_entry = ProtoLogEntry {
        term: 1,
        index: 1,
        command: Some(ProtoCommand {
            command_type: Some(CommandType::SubmitJob(SubmitJobCommand {
                job_id: "not-a-valid-uuid".to_string(),
                command: "echo hello".to_string(),
                image: None,
                created_at_ms: 1000,
            })),
        }),
    };

    let valid_entry = ProtoLogEntry {
        term: 1,
        index: 2,
        command: None, // Noop - always valid
    };

    let req = AppendEntriesRequest {
        term: 1,
        leader_id: 2,
        prev_log_index: 0,
        prev_log_term: 0,
        entries: vec![malformed_entry, valid_entry],
        leader_commit: 0,
    };

    let resp = handle_append_entries(&mut state, &req, 1).unwrap();

    // RPC should still succeed
    assert!(resp.success);
    // Only the valid entry should have been appended (malformed one skipped)
    assert_eq!(state.log.len(), 1);
    assert!(matches!(state.log[0].command, Command::Noop));
}

#[test]
fn test_subscribe_commits_returns_receiver() {
    let config = NodeConfig::default();
    let raft_node = RaftNode::new(config);

    // What is announced can be read as often as wanted
    let commit1 = raft_node.commit_notified;
    let commit2 = raft_node.commit_notified;
    assert_eq!(commit1, 0);
    assert_eq!(commit2, 0);
}

#[test]
fn test_commit_notification_on_follower_append_entries() {
    let config = NodeConfig::default();
    let mut raft_node = RaftNode::new(config);

    // Add an entry to the log so we can commit it
    raft_node.state.current_term = 1;
    raft_node.state.log.push(LogEntry {
        term: 1,
        index: 1,
        command: Command::Noop,
    });

    // Send AppendEntries with leader_commit = 1
    let req = AppendEntriesRequest {
        term: 1,
        leader_id: 2,
        prev_log_index: 1,
        prev_log_term: 1,
        entries: vec![],
        leader_commit: 1,
    };

    let now = raft_node.clock.now();
    let resp = raft_node.handle_append_entries(req, now).unwrap();
    assert!(resp.success);

    // Should announce the commit
    assert_eq!(raft_node.commit_notified, 1);
}

#[test]
fn test_no_notification_when_commit_index_unchanged() {
    let config = NodeConfig::default();
    let mut raft_node = RaftNode::new(config);

    // Send AppendEntries with leader_commit = 0 (no change)
    let req = AppendEntriesRequest {
        term: 1,
        leader_id: 2,
        prev_log_index: 0,
        prev_log_term: 0,
        entries: vec![],
        leader_commit: 0,
    };

    let now = raft_node.clock.now();
    let resp = raft_node.handle_append_entries(req, now).unwrap();
    assert!(resp.success);

    // Nothing is announced
    assert_eq!(raft_node.commit_notified, 0);
}

#[test]
fn test_peer_status_initially_dead() {
    let mut config = NodeConfig::default();
    config.peers = vec![
        nomad_lite::config::PeerConfig {
            node_id: 2,
            addr: "127.0.0.1:50052".to_string(),
        },
        nomad_lite::config::PeerConfig {
            node_id: 3,
            addr: "127.0.0.1:50053".to_string(),
        },
    ];
    let raft_node = RaftNode::new(config);

    // Peers should initially be considered dead (no communication yet)
    let status = raft_node.get_peers_status(raft_node.clock.now());
    assert_eq!(status.get(&2), Some(&false));
    assert_eq!(status.get(&3), Some(&false));
}

#[test]
fn test_node_handle_vote_request_returns_result() {
    let config = NodeConfig::default();
    let mut raft_node = RaftNode::new(config);

    let req = VoteRequest {
        term: 1,
        candidate_id: 2,
        last_log_index: 0,
        last_log_term: 0,
    };

    let now = raft_node.clock.now();
    let result = raft_node.handle_vote_request(req, now);
    assert!(result.is_ok());
    let resp = result.unwrap();
    assert!(resp.vote_granted);
}

#[test]
fn test_node_handle_append_entries_returns_result() {
    let config = NodeConfig::default();
    let mut raft_node = RaftNode::new(config);

    let req = AppendEntriesRequest {
        term: 1,
        leader_id: 2,
        prev_log_index: 0,
        prev_log_term: 0,
        entries: vec![],
        leader_commit: 0,
    };

    let now = raft_node.clock.now();
    let result = raft_node.handle_append_entries(req, now);
    assert!(result.is_ok());
    let resp = result.unwrap();
    assert!(resp.success);
}

#[test]
fn conflicting_entries_give_way_to_those_of_the_leader() {
    let mut state = RaftState::new();
    state.current_term = 1;
    for _ in 0..3 {
        state.append_entry(Command::Noop);
    }
    let entry = |term: u64, index: u64| ProtoLogEntry {
        term,
        index,
        command: None,
    };
    let req = AppendEntriesRequest {
        term: 2,
        leader_id: 3,
        prev_log_index: 1,
        prev_log_term: 1,
        entries: vec![entry(2, 2)],
        leader_commit: 9,
    };
    let resp = handle_append_entries(&mut state, &req, 1).unwrap();
    assert!(resp.success);
    assert_eq!(resp.match_index, 2);
    assert_eq!(state.log.len(), 2);
    assert_eq!(state.log[1].term, 2);
    assert_eq!(state.commit_index, 2);
}

#[test]
fn a_late_request_keeps_committed_entries() {
    let mut state = RaftState::new();
    state.current_term = 1;
    let entry = |index: u64| ProtoLogEntry {
        term: 1,
        index,
        command: None,
    };
    let request = |entries: Vec<ProtoLogEntry>, leader_commit: u64| AppendEntriesRequest {
        term: 1,
        leader_id: 3,
        prev_log_index: 0,
        prev_log_term: 0,
        entries,
        leader_commit,
    };
    let all = request(vec![entry(1), entry(2), entry(3)], 3);
    assert!(handle_append_entries(&mut state, &all, 1).unwrap().success);
    assert_eq!(state.commit_index, 3);
    // Sent before, delivered after
    let late = request(vec![entry(1)], 0);
    let resp = handle_append_entries(&mut state, &late, 1).unwrap();
    assert!(resp.success);
    assert_eq!(state.log.len(), 3);
    assert_eq!(state.commit_index, 3);
    let indices: Vec<u64> = state.log.iter().map(|e| e.index).collect();
    assert_eq!(indices, vec![1, 2, 3]);
    // Entries that go on where the log ends are appended
    let more = AppendEntriesRequest {
        prev_log_index: 1,
        prev_log_term: 1,
        ..request(vec![entry(2), entry(3), entry(4)], 3)
    };
    assert!(handle_append_entries(&mut state, &more, 1).unwrap().success);
    assert_eq!(state.log.len(), 4);
}

#[test]
fn entries_of_the_snapshot_are_passed_over() {
    let mut state = RaftState::new();
    state.current_term = 1;
    for _ in 0..4 {
        state.append_entry(Command::Noop);
    }
    state.commit_index = 4;
    state.last_applied = 4;
    state.log.drain(..3);
    state.log_offset = 3;
    let entry = |index: u64| ProtoLogEntry {
        term: 1,
        index,
        command: None,
    };
    let req = AppendEntriesRequest {
        term: 1,
        leader_id: 3,
        prev_log_index: 1,
        prev_log_term: 1,
        entries: vec![entry(2), entry(3), entry(4), entry(5)],
        leader_commit: 4,
    };
    assert!(handle_append_entries(&mut state, &req, 1).unwrap().success);
    let indices: Vec<u64> = state.log.iter().map(|e| e.index).collect();
    assert_eq!(indices, vec![4, 5]);
    assert_eq!(state.commit_index, 4);
}

/// A leader of term 2 in a cluster of three, with two entries of its own behind one of term 1.
fn leader_of_three() -> RaftNode {
    let mut config = NodeConfig::new(1, "127.0.0.1:0".to_string());
    for id in 2..4u64 {
        config.peers.push(PeerConfig {
            node_id: id,
            addr: format!("127.0.0.1:{}", id),
        });
    }
    let mut node = RaftNode::new(config);
    node.state.current_term = 1;
    node.state.append_entry(Command::Noop);
    let (mut election, _) = node.start_election();
    let now = node.clock.now();
    let vote = VoteResponse {
        term: 2,
        vote_granted: true,
    };
    election = node.handle_vote_response(election, 2, vote, now);
    assert!(node.finish_election(election));
    node.handle_append_command(Command::Noop).unwrap();
    node.handle_append_command(Command::Noop).unwrap();
    node
}

#[test]
fn answers_count_for_what_was_sent() {
    let mut node = leader_of_three();
    let now = node.clock.now();
    let last = node.state.last_log_index();
    let heartbeat = AppendEntriesRequest {
        term: 2,
        leader_id: 1,
        prev_log_index: 1,
        prev_log_term: 1,
        entries: vec![],
        leader_commit: 0,
    };
    // The peer's own log is longer, and differs
    let answer = AppendEntriesResponse {
        term: 2,
        success: true,
        match_index: last,
    };
    assert!(!node.handle_append_response(2, &heartbeat, answer, now));
    assert_eq!(node.state.commit_index, 0);
    let entries = AppendEntriesRequest {
        entries: (2..=last)
            .map(|index| ProtoLogEntry {
                term: 2,
                index,
                command: None,
            })
            .collect(),
        ..heartbeat.clone()
    };
    // An answer to a request of another term counts for nothing
    let old = AppendEntriesRequest {
        term: 1,
        ..entries.clone()
    };
    assert!(!node.handle_append_response(2, &old, answer, now));
    assert!(node.handle_append_response(2, &entries, answer, now));
    assert_eq!(node.state.commit_index, last);
    // The last answer counts, also one that comes late; what is committed stays
    assert!(!node.handle_append_response(2, &heartbeat, answer, now));
    assert_eq!(node.state.match_index.get(&2), Some(&1));
    assert_eq!(node.state.next_index.get(&2), Some(&2));
    assert_eq!(node.state.commit_index, last);
    // A refusal counts whatever the term of the request was
    let refusal = AppendEntriesResponse {
        term: 1,
        success: false,
        match_index: 0,
    };
    assert!(!node.handle_append_response(2, &old, refusal, now));
    assert_eq!(node.state.next_index.get(&2), Some(&1));
    assert!(!node.handle_append_response(2, &old, refusal, now));
    assert_eq!(node.state.next_index.get(&2), Some(&1));
}

#[test]
fn answers_to_snapshots_count_in_any_role() {
    let mut node = RaftNode::new(NodeConfig::new(1, "127.0.0.1:0".to_string()));
    node.state.current_term = 3;
    let now = node.clock.now();
    let sent = InstallSnapshotRequest {
        term: 2,
        leader_id: 1,
        last_included_index: 7,
        last_included_term: 1,
        jobs: vec![],
        workers: vec![],
    };
    node.handle_snapshot_response(2, &sent, InstallSnapshotResponse { term: 2 }, now);
    assert_eq!(node.state.match_index.get(&2), Some(&7));
    assert_eq!(node.state.next_index.get(&2), Some(&8));
    assert_eq!(node.state.commit_index, 0);
    // A later term ends what this node knows of its peers
    node.handle_snapshot_response(2, &sent, InstallSnapshotResponse { term: 4 }, now);
    assert_eq!(node.state.current_term, 4);
    assert_eq!(node.state.role, RaftRole::Follower);
}

#[test]
fn a_node_alone_commits_at_once() {
    let mut node = RaftNode::new(NodeConfig::new(1, "127.0.0.1:0".to_string()));
    let (election, _) = node.start_election();
    assert!(node.finish_election(election));
    let index = node.handle_append_command(Command::Noop).unwrap();
    assert_eq!(node.state.commit_index, index);
    assert_eq!(node.proposal_state(index, 1), ProposalState::Committed);
    let now = node.clock.now();
    let command = Command::Noop;
    match node.handle_message(RaftMessage::AppendCommand { command }, now) {
        MessageOutcome::Appended(result) => assert_eq!(result, Ok(index + 1)),
        _ => panic!("expected an append"),
    }
    assert_eq!(node.state.commit_index, index + 1);
}

#[test]
fn proposals_wait_for_their_commit() {
    let mut node = leader_of_three();
    let now = node.clock.now();
    let last = node.state.last_log_index();
    assert_eq!(node.proposal_state(last, 2), ProposalState::Pending);
    assert_eq!(proposal_outcome(&node, last, 2, false), None);
    assert_eq!(
        proposal_outcome(&node, last, 2, true),
        Some(ProposalOutcome::TimedOut)
    );
    assert_eq!(proposal_reply(&node, last, 2, false), None);
    assert_eq!(
        proposal_reply(&node, last, 2, true),
        Some(RaftReply::NoReply)
    );
    let request = AppendEntriesRequest {
        term: 2,
        leader_id: 1,
        prev_log_index: 1,
        prev_log_term: 1,
        entries: (2..=last)
            .map(|index| ProtoLogEntry {
                term: 2,
                index,
                command: None,
            })
            .collect(),
        leader_commit: 0,
    };
    let answer = AppendEntriesResponse {
        term: 2,
        success: true,
        match_index: last,
    };
    node.handle_append_response(3, &request, answer, now);
    assert_eq!(node.proposal_state(last, 2), ProposalState::Committed);
    assert_eq!(
        proposal_outcome(&node, last, 2, true),
        Some(ProposalOutcome::Accepted(last))
    );
    assert_eq!(
        proposal_reply(&node, last, 2, false),
        Some(RaftReply::Accepted(last))
    );
}

#[test]
fn proposals_that_gave_way_are_lost() {
    let mut node = leader_of_three();
    let now = node.clock.now();
    let last = node.state.last_log_index();
    // The leader of a later term has another entry there
    let request = AppendEntriesRequest {
        term: 3,
        leader_id: 2,
        prev_log_index: last - 1,
        prev_log_term: 2,
        entries: vec![ProtoLogEntry {
            term: 3,
            index: last,
            command: None,
        }],
        leader_commit: last,
    };
    assert!(node.handle_append_entries(request, now).unwrap().success);
    assert_eq!(node.proposal_state(last, 2), ProposalState::Lost);
    let text = "Entry was replaced by another leader".to_string();
    assert_eq!(
        proposal_outcome(&node, last, 2, false),
        Some(ProposalOutcome::Rejected(text.clone()))
    );
    assert_eq!(
        proposal_reply(&node, last, 2, false),
        Some(RaftReply::Rejected(text))
    );
    // The entry before it is committed all the same
    assert_eq!(node.proposal_state(last - 1, 2), ProposalState::Committed);
}

#[test]
fn a_vote_is_given_once_in_a_term() {
    let mut state = RaftState::new();
    let ask = |candidate_id: u64| VoteRequest {
        term: 4,
        candidate_id,
        last_log_index: 0,
        last_log_term: 0,
    };
    assert!(handle_request_vote(&mut state, &ask(2), 1).unwrap().vote_granted);
    assert!(!handle_request_vote(&mut state, &ask(3), 1).unwrap().vote_granted);
    assert!(handle_request_vote(&mut state, &ask(2), 1).unwrap().vote_granted);
    // A leader of the same term does not make the node forget its vote
    let heartbeat = AppendEntriesRequest {
        term: 4,
        leader_id: 2,
        prev_log_index: 0,
        prev_log_term: 0,
        entries: vec![],
        leader_commit: 0,
    };
    assert!(handle_append_entries(&mut state, &heartbeat, 1).unwrap().success);
    assert!(!handle_request_vote(&mut state, &ask(3), 1).unwrap().vote_granted);
}
