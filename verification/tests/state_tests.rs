use nomad_lite::raft::state::{
    Command, LogEntry, RaftRole, RaftState, SnapshotJob, COMPACTION_THRESHOLD,
};

#[test]
fn test_new_state_is_follower() {
    let state = RaftState::new();
    assert_eq!(state.role, RaftRole::Follower);
    assert_eq!(state.current_term, 0);
    assert_eq!(state.voted_for, None);
    assert!(state.log.is_empty());
}

#[test]
fn test_become_candidate() {
    let mut state = RaftState::new();
    state.become_candidate(1);

    assert_eq!(state.role, RaftRole::Candidate);
    assert_eq!(state.current_term, 1);
    assert_eq!(state.voted_for, Some(1));
    assert_eq!(state.votes_received, 1); // Self-vote
    assert_eq!(state.leader_id, None);
}

#[test]
fn test_become_leader() {
    let mut state = RaftState::new();
    state.become_candidate(1);
    state.become_leader(1, &[2, 3]);

    assert_eq!(state.role, RaftRole::Leader);
    assert_eq!(state.leader_id, Some(1));
    assert_eq!(state.next_index.get(&2), Some(&1));
    assert_eq!(state.next_index.get(&3), Some(&1));
    assert_eq!(state.match_index.get(&2), Some(&0));
    assert_eq!(state.match_index.get(&3), Some(&0));
}

#[test]
fn test_become_follower() {
    let mut state = RaftState::new();
    state.become_candidate(1);
    state.become_follower(5);

    assert_eq!(state.role, RaftRole::Follower);
    assert_eq!(state.current_term, 5);
    assert_eq!(state.voted_for, None);
    assert_eq!(state.votes_received, 0);
}

#[test]
fn test_append_entry() {
    let mut state = RaftState::new();
    state.current_term = 1;

    let entry = state.append_entry(Command::Noop);
    assert_eq!(entry.term, 1);
    assert_eq!(entry.index, 1);

    state.current_term = 2;
    let entry2 = state.append_entry(Command::Noop);
    assert_eq!(entry2.term, 2);
    assert_eq!(entry2.index, 2);

    assert_eq!(state.last_log_index(), 2);
    assert_eq!(state.last_log_term(), 2);
}

#[test]
fn test_get_entry() {
    let mut state = RaftState::new();
    state.current_term = 1;
    state.append_entry(Command::Noop);
    state.current_term = 2;
    state.append_entry(Command::Noop);

    assert!(state.get_entry(0).is_none());
    assert_eq!(state.get_entry(1).unwrap().term, 1);
    assert_eq!(state.get_entry(2).unwrap().term, 2);
    assert!(state.get_entry(3).is_none());
}

#[test]
fn test_get_entries_from() {
    let mut state = RaftState::new();
    state.current_term = 1;
    state.append_entry(Command::Noop);
    state.current_term = 2;
    state.append_entry(Command::Noop);
    state.current_term = 3;
    state.append_entry(Command::Noop);

    let entries = state.get_entries_from(2);
    assert_eq!(entries.len(), 2);
    assert_eq!(entries[0].index, 2);
    assert_eq!(entries[1].index, 3);

    let all_entries = state.get_entries_from(0);
    assert_eq!(all_entries.len(), 3);

    let no_entries = state.get_entries_from(10);
    assert!(no_entries.is_empty());
}

#[test]
fn test_truncate_and_append() {
    let mut state = RaftState::new();
    state.current_term = 1;
    state.append_entry(Command::Noop);
    state.append_entry(Command::Noop);
    state.append_entry(Command::Noop);

    // Truncate from index 2 and append new entries
    let new_entries = vec![
        LogEntry {
            term: 2,
            index: 2,
            command: Command::Noop,
        },
        LogEntry {
            term: 2,
            index: 3,
            command: Command::Noop,
        },
    ];
    state.truncate_and_append(2, new_entries);

    assert_eq!(state.log.len(), 3);
    assert_eq!(state.log[0].term, 1);
    assert_eq!(state.log[1].term, 2);
    assert_eq!(state.log[2].term, 2);
}

#[test]
fn test_is_log_up_to_date() {
    let mut state = RaftState::new();

    // Empty log - any log is up-to-date
    assert!(state.is_log_up_to_date(0, 0));
    assert!(state.is_log_up_to_date(1, 1));

    // Add some entries
    state.current_term = 1;
    state.append_entry(Command::Noop);
    state.current_term = 2;
    state.append_entry(Command::Noop);

    // Our log: [(term=1, idx=1), (term=2, idx=2)]
    // last_term=2, last_index=2

    // Higher term is always up-to-date
    assert!(state.is_log_up_to_date(1, 3));

    // Same term, same or higher index is up-to-date
    assert!(state.is_log_up_to_date(2, 2));
    assert!(state.is_log_up_to_date(3, 2));

    // Lower term is never up-to-date
    assert!(!state.is_log_up_to_date(5, 1));

    // Same term, lower index is not up-to-date
    assert!(!state.is_log_up_to_date(1, 2));
}

#[test]
fn test_state_transitions() {
    let mut state = RaftState::new();

    // Start as follower
    assert_eq!(state.role, RaftRole::Follower);

    // Become candidate (simulating election timeout)
    state.become_candidate(1);
    assert_eq!(state.role, RaftRole::Candidate);
    assert_eq!(state.current_term, 1);

    // Win election
    state.votes_received = 2; // Self + one other
    state.become_leader(1, &[2, 3]);
    assert_eq!(state.role, RaftRole::Leader);

    // Discover higher term
    state.become_follower(5);
    assert_eq!(state.role, RaftRole::Follower);
    assert_eq!(state.current_term, 5);
}

#[test]
fn roles_are_named() {
    assert_eq!(RaftRole::Follower.to_string(), "follower");
    assert_eq!(RaftRole::Candidate.to_string(), "candidate");
    assert_eq!(RaftRole::Leader.to_string(), "leader");
}

#[test]
fn stepping_down_keeps_the_vote() {
    let mut state = RaftState::new();
    state.become_candidate(4);
    state.become_leader(4, &[2]);
    state.step_down();
    assert_eq!(state.role, RaftRole::Follower);
    assert_eq!(state.current_term, 1);
    assert_eq!(state.voted_for, Some(4));
}

#[test]
fn compaction_keeps_the_numbers_of_entries() {
    let mut state = RaftState::new();
    state.current_term = 3;
    for _ in 0..COMPACTION_THRESHOLD + 5 {
        state.append_entry(Command::Noop);
    }
    assert!(!state.needs_compaction());
    state.commit_index = COMPACTION_THRESHOLD as u64 + 2;
    state.last_applied = COMPACTION_THRESHOLD as u64 + 2;
    assert!(state.needs_compaction());
    let jobs: Vec<SnapshotJob> = Vec::new();
    assert!(state.compact(jobs, vec![1, 2]));
    assert_eq!(state.log_offset, COMPACTION_THRESHOLD as u64 + 2);
    assert_eq!(state.log.len(), 3);
    assert_eq!(state.last_log_index(), COMPACTION_THRESHOLD as u64 + 5);
    assert_eq!(state.last_log_term(), 3);
    assert!(state.get_entry(COMPACTION_THRESHOLD as u64 + 2).is_none());
    assert_eq!(
        state.get_entry(COMPACTION_THRESHOLD as u64 + 3).unwrap().index,
        COMPACTION_THRESHOLD as u64 + 3
    );
    let snapshot = state.snapshot.as_ref().unwrap();
    assert_eq!(snapshot.last_included_index, COMPACTION_THRESHOLD as u64 + 2);
    assert_eq!(snapshot.last_included_term, 3);
    assert_eq!(snapshot.workers, vec![1, 2]);
    assert_eq!(state.get_entries_from(1).len(), 3);
}

#[test]
fn truncating_the_log_drops_from_the_index_on() {
    let mut state = RaftState::new();
    state.current_term = 1;
    for _ in 0..4 {
        state.append_entry(Command::Noop);
    }
    state.truncate_log(3);
    assert_eq!(state.last_log_index(), 2);
}
