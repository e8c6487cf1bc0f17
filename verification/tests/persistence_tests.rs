use nomad_lite::config::NodeConfig;
use nomad_lite::raft::node::RaftNode;
use nomad_lite::raft::state::{Command, LogEntry, RaftState, Snapshot};
use nomad_lite::raft::storage;
use nomad_lite::raft::storage::{PersistedState, PlannedWrite, StorageError, StorageOp};
use std::collections::BTreeMap;

// ── helpers ──────────────────────────────────────────────────────────────────

fn noop_entry(term: u64, index: u64) -> LogEntry {
    LogEntry {
        term,
        index,
        command: Command::Noop,
    }
}

fn empty_snapshot(last_included_index: u64, last_included_term: u64) -> Snapshot {
    Snapshot {
        last_included_index,
        last_included_term,
        jobs: vec![],
        workers: vec![],
    }
}

fn pair(a: u64, b: u64) -> Vec<u8> {
    let mut bytes = a.to_be_bytes().to_vec();
    bytes.extend_from_slice(&b.to_be_bytes());
    bytes
}

fn unpair(bytes: &[u8]) -> (u64, u64) {
    (
        storage::from_be8(&bytes[..8].to_vec()).unwrap(),
        storage::from_be8(&bytes[8..].to_vec()).unwrap(),
    )
}

/// A store in memory, ordered by key as a database on disk is.
#[derive(Default)]
struct RaftStorage {
    pairs: BTreeMap<Vec<u8>, Vec<u8>>,
}

impl RaftStorage {
    fn apply(&mut self, ops: Vec<StorageOp>) {
        for op in ops {
            match op {
                StorageOp::Put { key, value } => {
                    self.pairs.insert(key, value);
                }
                StorageOp::Delete { key } => {
                    self.pairs.remove(&key);
                }
            }
        }
    }

    fn scan_keys(&self, from: Vec<u8>) -> Vec<Vec<u8>> {
        self.pairs.range(from..).map(|(k, _)| k.clone()).collect()
    }

    fn save_hard_state(&mut self, term: u64, voted_for: Option<u64>, log_offset: u64) {
        self.apply(storage::save_hard_state(term, voted_for, log_offset));
    }

    fn append_entry(&mut self, entry: &LogEntry) {
        self.apply(vec![storage::append_entry(
            entry.index,
            pair(entry.term, entry.index),
        )]);
    }

    fn truncate_from(&mut self, index: u64) {
        let scanned = self.scan_keys(storage::log_key(index));
        self.apply(storage::truncate_from(&scanned));
    }

    fn save_snapshot(&mut self, snapshot: &Snapshot, log_offset: u64) {
        let scanned = self.scan_keys(storage::log_key(1));
        let value = pair(snapshot.last_included_term, snapshot.last_included_index);
        self.apply(storage::save_snapshot(value, log_offset, &scanned));
    }

    fn get(&self, key: Vec<u8>) -> Option<Vec<u8>> {
        self.pairs.get(&key).cloned()
    }

    fn load(&self) -> Option<PersistedState> {
        let hard_state = storage::load_hard_state(
            self.get(storage::get_term_key()),
            self.get(storage::get_voted_for_key()),
            self.get(storage::get_log_offset_key()),
        )
        .unwrap()?;
        let snapshot = self.get(storage::get_snapshot_key()).map(|bytes| {
            let (term, index) = unpair(&bytes);
            empty_snapshot(index, term)
        });
        let scanned: Vec<(Vec<u8>, Vec<u8>)> = self
            .pairs
            .range(storage::log_scan_start(&hard_state)..)
            .map(|(k, v)| (k.clone(), v.clone()))
            .collect();
        let log = storage::load_log(&scanned)
            .iter()
            .map(|bytes| {
                let (term, index) = unpair(bytes);
                noop_entry(term, index)
            })
            .collect();
        Some(PersistedState {
            current_term: hard_state.current_term,
            voted_for: hard_state.voted_for,
            log_offset: hard_state.log_offset,
            snapshot,
            log,
        })
    }
}

// ── tests ─────────────────────────────────────────────────────────────────────

/// A brand-new store should return `None` from `load()`.
#[test]
fn test_fresh_storage_returns_none() {
    let storage = RaftStorage::default();
    assert!(storage.load().is_none(), "fresh storage must return None");
}

/// Hard state (term, voted_for, log_offset) is read back.
#[test]
fn test_persist_and_reload_hard_state() {
    let mut storage = RaftStorage::default();
    storage.save_hard_state(5, Some(3), 0);

    let p: PersistedState = storage.load().expect("should have persisted state");
    assert_eq!(p.current_term, 5);
    assert_eq!(p.voted_for, Some(3));
    assert_eq!(p.log_offset, 0);
    assert!(p.snapshot.is_none());
    assert!(p.log.is_empty());
}

/// Three log entries are read back in index order.
#[test]
fn test_persist_and_reload_log_entries() {
    let mut storage = RaftStorage::default();
    storage.save_hard_state(1, None, 0);
    storage.append_entry(&noop_entry(1, 1));
    storage.append_entry(&noop_entry(1, 2));
    storage.append_entry(&noop_entry(2, 3));

    let p = storage.load().expect("should have state");
    assert_eq!(p.log.len(), 3);
    assert_eq!(p.log[0].index, 1);
    assert_eq!(p.log[0].term, 1);
    assert_eq!(p.log[1].index, 2);
    assert_eq!(p.log[2].index, 3);
    assert_eq!(p.log[2].term, 2);
}

/// After writing 5 entries and truncating from index 3, only entries 1-2 remain.
#[test]
fn test_truncate_log() {
    let mut storage = RaftStorage::default();
    storage.save_hard_state(1, None, 0);
    for i in 1u64..=5 {
        storage.append_entry(&noop_entry(1, i));
    }
    storage.truncate_from(3);

    let p = storage.load().expect("should have state");
    assert_eq!(p.log.len(), 2, "only entries 1-2 should remain");
    assert_eq!(p.log[0].index, 1);
    assert_eq!(p.log[1].index, 2);
}

/// Saving a snapshot at offset 3 deletes log entries 1-3; entries 4-5 survive.
#[test]
fn test_save_snapshot_deletes_compacted_log() {
    let mut storage = RaftStorage::default();
    storage.save_hard_state(1, None, 0);
    for i in 1u64..=5 {
        storage.append_entry(&noop_entry(1, i));
    }
    let snapshot = empty_snapshot(3, 1);
    storage.save_snapshot(&snapshot, 3);

    let p = storage.load().expect("should have state");
    assert!(p.snapshot.is_some(), "snapshot should be persisted");
    assert_eq!(p.log_offset, 3);
    assert_eq!(p.log.len(), 2, "only entries 4-5 should remain");
    assert_eq!(p.log[0].index, 4);
    assert_eq!(p.log[1].index, 5);
}

/// After a compaction (snapshot saved + old entries deleted), loading reconstructs the correct
/// log_offset, snapshot, and post-compaction log entries.
#[test]
fn test_restart_after_compaction() {
    let mut storage = RaftStorage::default();

    // First run: write 5 entries, then compact at index 3
    storage.save_hard_state(1, None, 0);
    for i in 1u64..=5 {
        storage.append_entry(&noop_entry(1, i));
    }
    // Compact: snapshot covers 1-3, deletes those entries
    let snapshot = empty_snapshot(3, 1);
    storage.save_snapshot(&snapshot, 3);

    let p = storage
        .load()
        .expect("should have persisted state after compaction");

    assert_eq!(p.log_offset, 3, "log_offset must equal snapshot boundary");

    let snap = p
        .snapshot
        .expect("snapshot must be present after compaction");
    assert_eq!(snap.last_included_index, 3);
    assert_eq!(snap.last_included_term, 1);

    assert_eq!(p.log.len(), 2, "only entries 4 and 5 should survive");
    assert_eq!(p.log[0].index, 4);
    assert_eq!(p.log[1].index, 5);
}

/// A `RaftNode` created with persisted state restores the saved term.
#[test]
fn test_node_restores_term_after_restart() {
    let mut storage = RaftStorage::default();

    // First run: persist term 7, voted_for node 2.
    storage.save_hard_state(7, Some(2), 0);

    // Second run: load and feed into RaftNode.
    let persisted = storage.load().expect("should have persisted state");
    assert_eq!(persisted.current_term, 7);
    assert_eq!(persisted.voted_for, Some(2));

    let config = NodeConfig::default();
    let raft_node = RaftNode::new_with_storage(config, Some(persisted));

    let state = &raft_node.state;
    assert_eq!(state.current_term, 7, "term must be restored from storage");
    assert_eq!(state.voted_for, Some(2), "voted_for must be restored");
}

#[test]
fn keys_are_ordered_like_their_indices() {
    assert_eq!(
        storage::log_key(0x0102),
        vec![b'l', b'o', b'g', 0, 0, 0, 0, 0, 0, 0, 1, 2]
    );
    assert!(storage::key_before(&storage::log_key(9), &storage::log_key(256)));
    assert!(storage::log_key(9) < storage::log_key(256));
    assert!(!storage::key_before(&storage::log_key(9), &storage::log_key(9)));
    assert!(storage::has_log_prefix(&storage::log_key(1)));
    assert!(!storage::has_log_prefix(&storage::get_log_offset_key()));
    assert_eq!(storage::get_term_key(), b"term".to_vec());
    assert_eq!(storage::get_voted_for_key(), b"voted_for".to_vec());
    assert_eq!(storage::get_log_offset_key(), b"log_offset".to_vec());
    assert_eq!(storage::get_snapshot_key(), b"snapshot".to_vec());
}

#[test]
fn the_vote_is_stored_as_json() {
    let stored = |vote: Option<u64>| {
        let mut storage = RaftStorage::default();
        storage.save_hard_state(1, vote, 0);
        storage.get(storage::get_voted_for_key()).unwrap()
    };
    assert_eq!(stored(Some(42)), b"42".to_vec());
    assert_eq!(stored(None), b"null".to_vec());
}

#[test]
fn damaged_hard_state_is_told_apart() {
    let eight = storage::to_be8(1);
    assert_eq!(
        storage::load_hard_state(Some(vec![1]), None, None),
        Err(StorageError::InvalidTerm)
    );
    assert_eq!(
        storage::load_hard_state(Some(eight.clone()), Some(b"[]".to_vec()), None),
        Err(StorageError::InvalidVotedFor)
    );
    assert_eq!(
        storage::load_hard_state(Some(eight.clone()), None, Some(vec![])),
        Err(StorageError::InvalidLogOffset)
    );
    let fine = storage::load_hard_state(Some(eight), None, None).unwrap().unwrap();
    assert_eq!(fine.current_term, 1);
    assert_eq!(fine.voted_for, None);
    assert_eq!(fine.log_offset, 0);
}

#[test]
fn a_restarted_node_keeps_log_and_vote() {
    let mut storage = RaftStorage::default();
    storage.save_hard_state(4, Some(9), 0);
    for i in 1u64..=5 {
        storage.append_entry(&noop_entry(2, i));
    }
    storage.save_snapshot(&empty_snapshot(3, 2), 3);
    let node = RaftNode::new_with_storage(NodeConfig::default(), storage.load());
    assert_eq!(node.state.log_offset, 3);
    assert_eq!(node.state.last_log_index(), 5);
    assert_eq!(node.state.commit_index, 3);
    assert_eq!(node.state.last_applied, 3);
    assert_eq!(node.state.voted_for, Some(9));
    assert_eq!(node.pending_snapshot.unwrap().last_included_index, 3);
}

/// Whatever was written, and in whatever order: the last hard state, the last offset and the
/// entries that were not deleted since are read back.
#[test]
fn any_history_of_writes_is_read_back() {
    let mut storage = RaftStorage::default();
    storage.append_entry(&noop_entry(1, 2));
    storage.append_entry(&noop_entry(1, 9));
    storage.save_snapshot(&empty_snapshot(1, 1), 1);
    assert!(storage.load().is_none(), "no hard state was saved");
    storage.save_hard_state(3, Some(2), 0);
    storage.append_entry(&noop_entry(3, 300));
    storage.append_entry(&noop_entry(3, 4));
    storage.append_entry(&noop_entry(2, 4));
    let p = storage.load().unwrap();
    assert_eq!(p.log_offset, 0);
    let read: Vec<(u64, u64)> = p.log.iter().map(|e| (e.index, e.term)).collect();
    assert_eq!(read, vec![(2, 1), (4, 2), (9, 1), (300, 3)]);
    storage.save_snapshot(&empty_snapshot(4, 2), 4);
    storage.truncate_from(300);
    storage.append_entry(&noop_entry(5, 3));
    storage.save_hard_state(6, None, 4);
    let p = storage.load().unwrap();
    assert_eq!((p.current_term, p.voted_for, p.log_offset), (6, None, 4));
    assert_eq!(p.snapshot.unwrap().last_included_index, 4);
    let read: Vec<(u64, u64)> = p.log.iter().map(|e| (e.index, e.term)).collect();
    assert_eq!(read, vec![(9, 1)]);
}

fn state_with(term: u64, offset: u64, terms: &[u64]) -> RaftState {
    let mut state = RaftState::new();
    state.current_term = term;
    state.log_offset = offset;
    if offset > 0 {
        state.snapshot = Some(empty_snapshot(offset, 1));
        state.commit_index = offset;
        state.last_applied = offset;
    }
    for (i, term) in terms.iter().enumerate() {
        state.log.push(noop_entry(*term, offset + 1 + i as u64));
    }
    state
}

fn positions(state: &RaftState) -> Vec<(u64, u64)> {
    state.log.iter().map(|e| (e.index, e.term)).collect()
}

#[test]
fn only_what_is_new_is_written() {
    let state = state_with(2, 3, &[1, 2, 2]);
    let plan = |term: u64, vote: Option<u64>, offset: u64, stored: Vec<(u64, u64)>| {
        storage::writes_after(term, vote, offset, &stored, &state)
    };
    assert!(plan(2, None, 3, positions(&state)).is_empty());
    assert_eq!(
        plan(1, Some(4), 3, vec![(4, 1), (5, 2)]),
        vec![
            PlannedWrite::HardState {
                term: 2,
                voted_for: None,
                log_offset: 3
            },
            PlannedWrite::Entry { place: 2 },
        ]
    );
    // Entries that part from the log are deleted first
    assert_eq!(
        plan(2, None, 3, vec![(4, 1), (5, 1), (6, 2)]),
        vec![
            PlannedWrite::Truncate { from: 5 },
            PlannedWrite::Entry { place: 1 },
            PlannedWrite::Entry { place: 2 },
        ]
    );
    assert_eq!(
        plan(2, None, 3, vec![(4, 1), (5, 2), (6, 2), (7, 2)]),
        vec![PlannedWrite::Truncate { from: 7 }]
    );
    // A new offset comes with its snapshot, after the term and the vote
    assert_eq!(
        plan(1, None, 0, vec![(1, 1), (2, 1), (3, 1), (4, 1), (5, 2), (6, 2)]),
        vec![
            PlannedWrite::HardState {
                term: 2,
                voted_for: None,
                log_offset: 0
            },
            PlannedWrite::Snapshot { last: 3 },
        ]
    );
}

/// A node that writes what is due after each step finds its state again.
#[test]
fn a_node_that_saves_every_step_resumes() {
    let mut storage = RaftStorage::default();
    storage.save_hard_state(0, None, 0);
    let steps = vec![
        state_with(1, 0, &[1, 1]),
        state_with(1, 0, &[1, 1, 1, 1]),
        state_with(2, 0, &[1, 1, 2]),
        state_with(2, 2, &[2]),
        state_with(3, 2, &[2, 3, 3]),
        // A snapshot from a leader, with none of the own entries behind it
        state_with(4, 9, &[]),
        state_with(4, 9, &[4]),
    ];
    let mut before = RaftState::new();
    for state in steps {
        let writes = storage::writes_after(
            before.current_term,
            before.voted_for,
            before.log_offset,
            &positions(&before),
            &state,
        );
        for write in writes {
            match write {
                PlannedWrite::HardState {
                    term,
                    voted_for,
                    log_offset,
                } => storage.save_hard_state(term, voted_for, log_offset),
                PlannedWrite::Truncate { from } => storage.truncate_from(from),
                PlannedWrite::Snapshot { last } => {
                    storage.save_snapshot(state.snapshot.as_ref().unwrap(), last)
                }
                PlannedWrite::Entry { place } => storage.append_entry(&state.log[place as usize]),
            }
            // Whatever is written so far, an offset has its snapshot
            let part = storage.load().unwrap();
            let covered = part.snapshot.map_or(0, |s| s.last_included_index);
            assert_eq!(part.log_offset, covered);
        }
        let p = storage.load().unwrap();
        assert_eq!(p.current_term, state.current_term);
        assert_eq!(p.log_offset, state.log_offset);
        let read: Vec<(u64, u64)> = p.log.iter().map(|e| (e.index, e.term)).collect();
        assert_eq!(read, positions(&state));
        before = state;
    }
}
