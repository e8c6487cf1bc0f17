//! Clusters of nodes on a simulated clock, whose links can be cut and whose nodes can crash.

use nomad_lite::clock::{Moment, Timestamp};
use nomad_lite::config::NodeConfig;
use nomad_lite::grpc::client_service::{ClientService, DrainStep};
use nomad_lite::grpc::internal_service::InternalServiceImpl;
use nomad_lite::ids::JobId;
use nomad_lite::node::{jobs_to_run, Node};
use nomad_lite::proto::{VoteRequest, WorkerHeartbeatRequest};
use nomad_lite::raft::node::{
    Election, MessageOutcome, RaftMessage, Replication, TimeoutNowOutcome, TransferStep, Wait,
};
use nomad_lite::raft::rpc::log_entry_to_proto;
use nomad_lite::raft::state::{Command, RaftRole};
use nomad_lite::raft::storage::PersistedState;
use nomad_lite::raft::RaftNode;
use nomad_lite::scheduler::JobStatus;
use std::collections::{BTreeMap, BTreeSet};

const MS: u128 = 1_000_000;

/// Handle to a simulated node.
struct TestNode {
    node: Node,
    /// When the event loop wakes up next.
    wake_at: Moment,
}

impl TestNode {
    fn is_leader(&self) -> bool {
        self.node.raft_node.state.role == RaftRole::Leader
    }

    fn current_term(&self) -> u64 {
        self.node.raft_node.state.current_term
    }

    /// The number of entries in the log, those in a snapshot counted too.
    fn log_len(&self) -> usize {
        self.node.raft_node.state.last_log_index() as usize
    }

    fn leader_id(&self) -> Option<u64> {
        self.node.raft_node.state.leader_id
    }
}

struct TestCluster {
    nodes: BTreeMap<u64, TestNode>,
    now: Moment,
    next_job: JobId,
    seed: u64,
}

impl TestCluster {
    /// Create and start a cluster with n nodes
    fn new(num_nodes: u64, base_port: u64) -> Self {
        let mut cluster = TestCluster {
            nodes: BTreeMap::new(),
            now: 1000 * MS,
            next_job: 1,
            seed: base_port,
        };
        for id in 1..=num_nodes {
            let mut config = NodeConfig::new(id, format!("127.0.0.1:{}", base_port + id - 1));
            for peer in 1..=num_nodes {
                if peer != id {
                    config = config.with_peer(peer, format!("127.0.0.1:{}", base_port + peer - 1));
                }
            }
            // Shorter timeouts for faster tests
            config.election_timeout_min_ms = 50;
            config.election_timeout_max_ms = 100;
            config.heartbeat_interval_ms = 20;
            cluster.start_node(id, Node::new(config));
        }
        cluster
    }

    /// Starts a node: it connects to all its peers.
    fn start_node(&mut self, id: u64, mut node: Node) {
        for peer in node.raft_node.peers_to_connect() {
            node.raft_node.peer_connected(peer.node_id);
        }
        assert!(node.raft_node.all_peers_connected());
        node.raft_node.last_heartbeat = self.now;
        let timeout = self.election_timeout();
        let wake_at = self.now + timeout as u128 * MS;
        self.nodes.insert(id, TestNode { node, wake_at });
    }

    /// An election timeout of 50 to 100 ms.
    fn election_timeout(&mut self) -> u64 {
        self.seed = self
            .seed
            .wrapping_mul(6364136223846793005)
            .wrapping_add(1442695040888963407);
        50 + (self.seed >> 33) % 51
    }

    fn raft(&mut self, id: u64) -> &mut RaftNode {
        &mut self.nodes.get_mut(&id).unwrap().node.raft_node
    }

    /// The peers that answer what a node sends.
    fn reachable(&self, id: u64) -> Vec<u64> {
        self.nodes
            .keys()
            .copied()
            .filter(|peer| self.nodes[&id].node.raft_node.peers.contains(peer))
            .collect()
    }

    fn run_election(&mut self, id: u64, mut election: Election, request: VoteRequest) -> bool {
        let now = self.now;
        for peer in self.reachable(id) {
            let answer = self.raft(peer).handle_vote_request(request, now).unwrap();
            election = self.raft(id).handle_vote_response(election, peer, answer, now);
        }
        self.raft(id).finish_election(election)
    }

    /// Lets a node stand for election.
    fn stand(&mut self, id: u64) -> bool {
        let now = self.now;
        match self.raft(id).handle_message(RaftMessage::TriggerElection, now) {
            MessageOutcome::ElectionStarted(election, request) => {
                self.run_election(id, election, request)
            }
            _ => panic!("an election was asked for"),
        }
    }

    /// One round of heartbeats.
    fn send_heartbeats(&mut self, leader: u64) {
        let now = self.now;
        let reachable = self.reachable(leader);
        let sent = self.raft(leader).send_heartbeats();
        for (peer, replication) in sent {
            if !reachable.contains(&peer) {
                continue;
            }
            match replication {
                Replication::Append(request) => {
                    let sent = request.clone();
                    let answer = self.raft(peer).handle_append_entries(request, now).unwrap();
                    self.raft(leader)
                        .handle_append_response(peer, &sent, answer, now);
                }
                Replication::Snapshot(request) => {
                    let sent = request.clone();
                    let answer = self
                        .raft(peer)
                        .handle_install_snapshot(request, now)
                        .unwrap();
                    self.raft(leader)
                        .handle_snapshot_response(peer, &sent, answer, now);
                }
            }
        }
    }

    /// One turn of a node's event loop.
    fn wake(&mut self, id: u64) {
        let now = self.now;
        let elapsed = self.election_timeout();
        match self.raft(id).next_wait(elapsed) {
            Wait::Heartbeat(interval) => {
                self.send_heartbeats(id);
                self.nodes.get_mut(&id).unwrap().wake_at = now + interval as u128 * MS;
            }
            Wait::Election(timeout) => {
                if self.raft(id).election_due(timeout, now) && self.stand(id) {
                    self.send_heartbeats(id);
                }
                let interval = match self.raft(id).next_wait(timeout) {
                    Wait::Heartbeat(interval) => interval,
                    Wait::Election(timeout) => timeout,
                };
                self.nodes.get_mut(&id).unwrap().wake_at = now + interval as u128 * MS;
            }
        }
    }

    /// One turn of a node's scheduler.
    fn schedule(&mut self, id: u64) {
        let now = self.now;
        let node = &mut self.nodes.get_mut(&id).unwrap().node;
        node.apply_committed(now);
        node.compact_log();
        let assignments = node.assign_jobs(now);
        for (job_id, worker_id) in assignments {
            self.propose(id, Command::AssignJob { job_id, worker_id })
                .unwrap();
        }
    }

    fn run_for(&mut self, ms: u64) {
        for _ in 0..ms {
            self.now += MS;
            for id in self.active_node_ids() {
                if self.nodes[&id].wake_at <= self.now {
                    self.wake(id);
                }
                self.schedule(id);
            }
        }
    }

    /// Wait for a condition to become true with timeout
    fn wait_for(&mut self, timeout_ms: u64, condition: impl Fn(&TestCluster) -> bool) -> bool {
        let mut waited = 0;
        while waited < timeout_ms {
            if condition(self) {
                return true;
            }
            self.run_for(50);
            waited += 50;
        }
        false
    }

    fn assert_eventually(
        &mut self,
        timeout_ms: u64,
        message: &str,
        condition: impl Fn(&TestCluster) -> bool,
    ) {
        assert!(self.wait_for(timeout_ms, condition), "{}", message);
    }

    fn get_leader_id(&self) -> Option<u64> {
        self.nodes
            .iter()
            .find(|(_, node)| node.is_leader())
            .map(|(id, _)| *id)
    }

    fn count_leaders(&self) -> usize {
        self.nodes.values().filter(|node| node.is_leader()).count()
    }

    fn wait_for_leader(&mut self, timeout_ms: u64) -> Option<u64> {
        self.wait_for(timeout_ms, |c| c.get_leader_id().is_some());
        self.get_leader_id()
    }

    fn leader_in_group(&self, group: &[u64]) -> Option<u64> {
        group
            .iter()
            .copied()
            .find(|id| self.nodes.get(id).is_some_and(|node| node.is_leader()))
    }

    fn wait_for_leader_in_group(&mut self, group: &[u64], timeout_ms: u64) -> Option<u64> {
        self.wait_for(timeout_ms, |c| c.leader_in_group(group).is_some());
        self.leader_in_group(group)
    }

    fn wait_for_new_leader(&mut self, excluded: u64, timeout_ms: u64) -> Option<u64> {
        let group = self.others(excluded);
        self.wait_for_leader_in_group(&group, timeout_ms)
    }

    fn get_node(&self, id: u64) -> &TestNode {
        &self.nodes[&id]
    }

    fn active_node_ids(&self) -> Vec<u64> {
        self.nodes.keys().copied().collect()
    }

    fn others(&self, id: u64) -> Vec<u64> {
        self.nodes.keys().copied().filter(|other| *other != id).collect()
    }

    fn propose(&mut self, id: u64, command: Command) -> Result<u64, String> {
        let now = self.now;
        match self.raft(id).handle_message(RaftMessage::AppendCommand { command }, now) {
            MessageOutcome::Appended(result) => result,
            _ => panic!("a command was appended"),
        }
    }

    /// Submit a job directly to a specific node (must be leader)
    fn submit_job_to_node(&mut self, id: u64, command: &str) -> Result<JobId, String> {
        let job_id = self.next_job;
        self.next_job += 1;
        let command = Command::SubmitJob {
            job_id,
            command: command.to_string(),
            image: None,
            created_at: Timestamp {
                seconds: job_id as i64,
                nanos: 0,
            },
        };
        self.propose(id, command).map(|_| job_id)
    }

    /// Submit a job through the leader
    fn submit_job(&mut self, command: &str) -> Result<JobId, String> {
        let leader = self.get_leader_id().ok_or("No leader elected")?;
        self.submit_job_to_node(leader, command)
    }

    /// Cancel a job through the leader
    fn cancel_job(&mut self, job_id: JobId) -> Result<u64, String> {
        let leader = self.get_leader_id().ok_or("No leader elected")?;
        self.propose(leader, Command::CancelJob { job_id })
    }

    fn wait_for_commit_on_nodes(&mut self, ids: &[u64], min: usize, timeout_ms: u64) -> bool {
        self.wait_for(timeout_ms, |c| {
            ids.iter()
                .all(|id| c.nodes.get(id).is_some_and(|node| node.log_len() >= min))
        })
    }

    fn wait_for_commit_on_all(&mut self, min: usize, timeout_ms: u64) -> bool {
        let ids = self.active_node_ids();
        self.wait_for_commit_on_nodes(&ids, min, timeout_ms)
    }

    /// All nodes have logs of the same length, and the entries that two of them hold are of the
    /// same terms.
    fn verify_log_consistency(&self) -> bool {
        let first = match self.nodes.values().next() {
            Some(node) => &node.node.raft_node.state,
            None => return true,
        };
        self.nodes.values().all(|node| {
            let state = &node.node.raft_node.state;
            state.last_log_index() == first.last_log_index()
                && (1..=first.last_log_index()).all(|i| {
                    match (state.get_entry(i), first.get_entry(i)) {
                        (Some(a), Some(b)) => a.term == b.term && a.index == b.index,
                        _ => true,
                    }
                })
        })
    }

    /// Shutdown a specific node (simulates crash)
    fn shutdown_node(&mut self, id: u64) -> bool {
        self.nodes.remove(&id).is_some()
    }

    fn create_partition(&mut self, group_a: &[u64], group_b: &[u64]) {
        for a in group_a.iter().copied() {
            for b in group_b.iter().copied() {
                if self.nodes.contains_key(&a) {
                    self.raft(a).disconnect_peer(b);
                }
                if self.nodes.contains_key(&b) {
                    self.raft(b).disconnect_peer(a);
                }
            }
        }
    }

    fn heal_partition(&mut self, group_a: &[u64], group_b: &[u64]) {
        for a in group_a.iter().copied() {
            for b in group_b.iter().copied() {
                if self.nodes.contains_key(&a) {
                    self.raft(a).reconnect_peer(b);
                }
                if self.nodes.contains_key(&b) {
                    self.raft(b).reconnect_peer(a);
                }
            }
        }
    }

    /// Isolate a node from all other nodes
    fn isolate_node(&mut self, id: u64) {
        let others = self.others(id);
        self.create_partition(&[id], &others);
    }

    /// Heal an isolated node (reconnect to all others)
    fn heal_node(&mut self, id: u64) {
        let others = self.others(id);
        self.heal_partition(&[id], &others);
    }

    fn status_of(&self, id: u64, job_id: JobId) -> Option<JobStatus> {
        self.nodes[&id].node.job_queue.get_job(&job_id).map(|job| job.status)
    }

    fn status_everywhere(&self, job_id: JobId, status: JobStatus) -> bool {
        self.nodes
            .keys()
            .all(|id| self.status_of(*id, job_id) == Some(status))
    }

    fn known_everywhere(&self, job_id: JobId) -> bool {
        self.nodes
            .keys()
            .all(|id| self.status_of(*id, job_id).is_some())
    }

    /// Asks a node to hand over leadership, and carries the request through.
    fn transfer_from(&mut self, id: u64, message: RaftMessage) -> Result<u64, String> {
        let now = self.now;
        let transfer = match self.raft(id).handle_message(message, now) {
            MessageOutcome::Transfer(result) => result?,
            _ => panic!("a transfer was asked for"),
        };
        let mut waited: u64 = 0;
        loop {
            match self.raft(id).transfer_step(&transfer, waited >= 2000) {
                TransferStep::SendTimeoutNow => {
                    let request = self.raft(id).send_timeout_now(transfer.target, transfer.term)?;
                    let outcome = match self.raft(transfer.target).handle_timeout_now(request) {
                        Ok((election, votes)) => {
                            self.run_election(transfer.target, election, votes);
                            TimeoutNowOutcome::Answered(
                                self.raft(transfer.target).timeout_now_accepted(),
                            )
                        }
                        Err(refusal) => TimeoutNowOutcome::Answered(refusal),
                    };
                    return self.raft(id).finish_transfer(&transfer, outcome);
                }
                TransferStep::SendHeartbeatsAndWait => {
                    self.send_heartbeats(id);
                    self.run_for(50);
                    waited += 50;
                }
                TransferStep::GiveUp(e) => return Err(e),
            }
        }
    }

    /// Transfer leadership from the current leader to a target node (or auto-select if None)
    fn transfer_leadership(&mut self, target_id: Option<u64>) -> Result<u64, String> {
        let leader = self.get_leader_id().ok_or("No leader elected")?;
        self.transfer_from(leader, RaftMessage::TransferLeadership { target_id })
    }
}

// ── elections and replication ─────────────────────────────────────────────────

#[test]
fn test_three_node_cluster_elects_leader() {
    let mut cluster = TestCluster::new(3, 50100);

    let leader_id = cluster
        .wait_for_leader(5000)
        .expect("A leader should be elected within 5 seconds");

    // Verify exactly one leader exists
    assert_eq!(
        cluster.count_leaders(),
        1,
        "Exactly one leader should exist"
    );

    // Verify all nodes agree on the leader (eventually)
    cluster.assert_eventually(2000, "All nodes should agree on leader", |c| {
        c.nodes.values().all(|node| node.leader_id() == Some(leader_id))
    });
}

#[test]
fn test_job_submission_through_leader() {
    let mut cluster = TestCluster::new(3, 50110);

    let leader_id = cluster
        .wait_for_leader(5000)
        .expect("Leader should be elected");

    let job_id = cluster
        .submit_job("echo hello")
        .expect("Job submission should succeed");

    // Verify job exists in leader's queue (eventually committed)
    cluster.assert_eventually(2000, "Job should exist in leader's queue", |c| {
        c.status_of(leader_id, job_id).is_some()
    });
}

#[test]
fn test_log_replication_to_followers() {
    let mut cluster = TestCluster::new(3, 50120);

    cluster
        .wait_for_leader(5000)
        .expect("Leader should be elected");

    for i in 0..5 {
        cluster
            .submit_job(&format!("echo job_{}", i))
            .unwrap_or_else(|_| panic!("Job {} submission should succeed", i));
    }

    assert!(
        cluster.wait_for_commit_on_all(5, 3000),
        "All nodes should have 5 log entries"
    );

    assert!(
        cluster.verify_log_consistency(),
        "Logs should be consistent across all nodes"
    );
}

#[test]
fn test_read_from_any_node() {
    let mut cluster = TestCluster::new(3, 50130);

    cluster
        .wait_for_leader(5000)
        .expect("Leader should be elected");

    let job_id = cluster
        .submit_job("echo test_read")
        .expect("Job submission should succeed");

    assert!(
        cluster.wait_for_commit_on_all(1, 2000),
        "Job should be replicated to all nodes"
    );
    cluster.run_for(100);

    // Read from all nodes (including followers)
    for (node_id, node) in cluster.nodes.iter() {
        let job = node.node.job_queue.get_job(&job_id);
        assert!(
            job.is_some(),
            "Job should be readable from node {}",
            node_id
        );
        assert_eq!(
            job.unwrap().command,
            "echo test_read",
            "Job command should match on node {}",
            node_id
        );
    }
}

#[test]
fn test_cluster_status_reporting() {
    let mut cluster = TestCluster::new(3, 50140);

    let leader_id = cluster
        .wait_for_leader(5000)
        .expect("Leader should be elected");

    // Wait for heartbeats to establish peer status
    cluster.run_for(500);

    // Verify leader state
    let state = &cluster.get_node(leader_id).node.raft_node.state;
    assert_eq!(state.role, RaftRole::Leader);
    assert!(state.current_term >= 1, "Term should be at least 1");

    cluster.assert_eventually(3000, "All peers should be marked as alive", |c| {
        let status = c.get_node(leader_id).node.raft_node.get_peers_status(c.now);
        status.values().all(|is_alive| *is_alive)
    });
}

#[test]
fn test_concurrent_job_submissions() {
    let mut cluster = TestCluster::new(3, 50160);

    cluster
        .wait_for_leader(5000)
        .expect("Leader should be elected");

    // Submit 10 jobs before any of them is replicated
    let mut successful = 0;
    for i in 0..10 {
        if cluster.submit_job(&format!("echo concurrent_{}", i)).is_ok() {
            successful += 1;
        }
    }
    assert_eq!(
        successful, 10,
        "All 10 concurrent submissions should succeed"
    );

    assert!(
        cluster.wait_for_commit_on_all(10, 3000),
        "All 10 jobs should be replicated"
    );

    assert!(
        cluster.verify_log_consistency(),
        "Logs should be consistent after concurrent submissions"
    );
}

#[test]
fn test_large_batch_submission() {
    let mut cluster = TestCluster::new(3, 50170);

    cluster
        .wait_for_leader(5000)
        .expect("Leader should be elected");

    for i in 0..50 {
        cluster
            .submit_job(&format!("echo batch_{}", i))
            .unwrap_or_else(|_| panic!("Job {} should be submitted", i));
    }

    assert!(
        cluster.wait_for_commit_on_all(50, 10000),
        "All 50 jobs should be replicated to all nodes"
    );

    assert!(
        cluster.verify_log_consistency(),
        "Logs should be consistent after large batch"
    );

    // Verify log length on each node
    for (node_id, node) in cluster.nodes.iter() {
        assert_eq!(
            node.log_len(),
            50,
            "Node {} should have exactly 50 log entries",
            node_id
        );
    }
}

#[test]
fn test_view_raft_log_entries() {
    let mut cluster = TestCluster::new(3, 50180);

    cluster
        .wait_for_leader(5000)
        .expect("Leader should be elected");

    for i in 0..5 {
        cluster
            .submit_job(&format!("echo log_test_{}", i))
            .unwrap_or_else(|_| panic!("Job {} submission should succeed", i));
    }

    assert!(
        cluster.wait_for_commit_on_all(5, 3000),
        "All nodes should have 5 log entries"
    );
    cluster.run_for(100);

    let leader_id = cluster.get_leader_id().unwrap();
    let state = &cluster.get_node(leader_id).node.raft_node.state;

    // Verify log entries are in order
    assert_eq!(state.last_log_index(), 5, "Should have 5 log entries");

    let all_entries = state.get_entries_from(1);
    for (i, entry) in all_entries.iter().enumerate() {
        assert_eq!(
            entry.index,
            (i + 1) as u64,
            "Entry index should be sequential"
        );
        assert!(
            entry.index <= state.commit_index,
            "Entry should be committed"
        );
    }

    // Verify entries can be converted to proto format
    for entry in all_entries.iter() {
        let proto = log_entry_to_proto(entry);
        assert_eq!(proto.index, entry.index);
        assert_eq!(proto.term, entry.term);
    }
}

#[test]
fn test_raft_log_commit_status() {
    let mut cluster = TestCluster::new(3, 50190);

    let leader_id = cluster
        .wait_for_leader(5000)
        .expect("Leader should be elected");

    cluster
        .submit_job("echo commit_test")
        .expect("Job submission should succeed");

    assert!(
        cluster.wait_for_commit_on_all(1, 2000),
        "Job should be committed on all nodes"
    );
    cluster.run_for(100);

    // Verify commit_index on leader
    let state = &cluster.get_node(leader_id).node.raft_node.state;
    assert!(state.commit_index >= 1, "Commit index should be at least 1");
    assert_eq!(state.last_log_index(), 1, "Should have 1 log entry");

    let entry = state.get_entry(1).expect("Entry 1 should exist");
    assert!(
        entry.index <= state.commit_index,
        "Entry should be committed"
    );
}

#[test]
fn test_empty_raft_log() {
    let mut cluster = TestCluster::new(3, 50200);

    cluster
        .wait_for_leader(5000)
        .expect("Leader should be elected");

    // Don't submit any jobs - log should be empty
    let leader_id = cluster.get_leader_id().unwrap();
    let state = &cluster.get_node(leader_id).node.raft_node.state;
    assert_eq!(state.last_log_index(), 0, "Log should be empty");
    assert_eq!(state.commit_index, 0, "Commit index should be 0");
}

#[test]
fn test_raft_log_command_types() {
    let mut cluster = TestCluster::new(3, 50210);

    cluster
        .wait_for_leader(5000)
        .expect("Leader should be elected");

    let job_id = cluster
        .submit_job("echo command_type_test")
        .expect("Job submission should succeed");

    assert!(
        cluster.wait_for_commit_on_all(1, 2000),
        "Job should be committed"
    );

    let leader_id = cluster.get_leader_id().unwrap();
    let state = &cluster.get_node(leader_id).node.raft_node.state;
    assert_eq!(state.last_log_index(), 1, "Should have 1 log entry");

    // Verify the command is a SubmitJob
    let first_entry = state.get_entry(1).expect("Entry 1 should exist");
    match &first_entry.command {
        Command::SubmitJob {
            job_id: entry_job_id,
            command,
            ..
        } => {
            assert_eq!(*entry_job_id, job_id, "Job ID should match");
            assert_eq!(command, "echo command_type_test", "Command should match");
        }
        _ => panic!("Expected SubmitJob command"),
    }
}

#[test]
fn test_raft_log_pagination_beyond_length() {
    let mut cluster = TestCluster::new(3, 50220);

    cluster
        .wait_for_leader(5000)
        .expect("Leader should be elected");

    for i in 0..3 {
        cluster
            .submit_job(&format!("echo pagination_test_{}", i))
            .expect("Job submission should succeed");
    }

    assert!(
        cluster.wait_for_commit_on_all(3, 2000),
        "Jobs should be committed"
    );

    let leader_id = cluster.get_leader_id().unwrap();
    let state = &cluster.get_node(leader_id).node.raft_node.state;

    // Pagination beyond log length (start_index = 100 when log has 3 entries)
    let entries_from_beyond = state.get_entries_from(100);
    assert!(
        entries_from_beyond.is_empty(),
        "Should return empty when start_index is beyond log length"
    );
}

#[test]
fn test_raft_log_pagination_limit_exceeds_entries() {
    let mut cluster = TestCluster::new(3, 50230);

    cluster
        .wait_for_leader(5000)
        .expect("Leader should be elected");

    for i in 0..5 {
        cluster
            .submit_job(&format!("echo limit_test_{}", i))
            .expect("Job submission should succeed");
    }

    assert!(
        cluster.wait_for_commit_on_all(5, 2000),
        "Jobs should be committed"
    );

    let leader_id = cluster.get_leader_id().unwrap();
    let state = &cluster.get_node(leader_id).node.raft_node.state;

    // Request all entries (limit larger than available)
    let entries = state.get_entries_from(1);
    assert_eq!(entries.len(), 5, "Should return all 5 entries");
}

#[test]
fn test_raft_log_accessible_from_follower() {
    let mut cluster = TestCluster::new(3, 50240);

    let leader_id = cluster
        .wait_for_leader(5000)
        .expect("Leader should be elected");

    for i in 0..3 {
        cluster
            .submit_job(&format!("echo follower_access_test_{}", i))
            .expect("Job submission should succeed");
    }

    assert!(
        cluster.wait_for_commit_on_all(3, 2000),
        "Jobs should be replicated"
    );

    let follower_id = cluster.others(leader_id)[0];
    let follower_state = &cluster.get_node(follower_id).node.raft_node.state;
    assert_eq!(
        follower_state.last_log_index(),
        3,
        "Follower should have 3 log entries"
    );

    // Verify entries match leader's entries
    let leader_state = &cluster.get_node(leader_id).node.raft_node.state;
    for idx in 1..=3u64 {
        let follower_entry = follower_state.get_entry(idx).expect("Entry should exist");
        let leader_entry = leader_state.get_entry(idx).expect("Entry should exist");
        assert_eq!(
            follower_entry.index, leader_entry.index,
            "Entry {} index should match",
            idx
        );
        assert_eq!(
            follower_entry.term, leader_entry.term,
            "Entry {} term should match",
            idx
        );
    }
}

// ── failures of nodes ─────────────────────────────────────────────────────────

#[test]
fn test_new_leader_election_after_shutdown() {
    let mut cluster = TestCluster::new(3, 50200);

    let initial_leader = cluster
        .wait_for_leader(5000)
        .expect("Initial leader should be elected");
    let initial_term = cluster.get_node(initial_leader).current_term();

    assert!(
        cluster.shutdown_node(initial_leader),
        "Should successfully shutdown leader"
    );

    let new_leader = cluster
        .wait_for_new_leader(initial_leader, 5000)
        .expect("New leader should be elected");
    assert_ne!(
        new_leader, initial_leader,
        "New leader should be different from shutdown leader"
    );

    // New term should be higher (election increments term)
    let new_term = cluster.get_node(new_leader).current_term();
    assert!(
        new_term > initial_term,
        "Term should increase after new election"
    );
    assert_eq!(
        cluster.count_leaders(),
        1,
        "Exactly one leader should exist"
    );
}

#[test]
fn test_follower_detects_leader_failure() {
    let mut cluster = TestCluster::new(3, 50210);

    let leader_id = cluster
        .wait_for_leader(5000)
        .expect("Leader should be elected");

    cluster.shutdown_node(leader_id);

    let new_leader = cluster.wait_for_new_leader(leader_id, 3000);
    assert!(
        new_leader.is_some(),
        "Follower should detect leader failure and elect new leader"
    );
}

#[test]
fn test_log_persistence_across_leader_changes() {
    let mut cluster = TestCluster::new(3, 50220);

    let leader_id = cluster
        .wait_for_leader(5000)
        .expect("Leader should be elected");

    for i in 0..5 {
        cluster
            .submit_job(&format!("echo persist_{}", i))
            .unwrap_or_else(|_| panic!("Job {} should be submitted", i));
    }

    assert!(
        cluster.wait_for_commit_on_all(5, 3000),
        "All nodes should have 5 log entries"
    );
    cluster.run_for(100);

    let log_len_before = 5;
    cluster.shutdown_node(leader_id);

    let new_leader_id = cluster
        .wait_for_new_leader(leader_id, 5000)
        .expect("New leader should be elected");

    // Verify log persisted on new leader and jobs are in the queue
    let new_leader = cluster.get_node(new_leader_id);
    assert_eq!(
        new_leader.log_len(),
        log_len_before,
        "Log should persist across leader change"
    );
    assert_eq!(
        new_leader.node.job_queue.len(),
        5,
        "All 5 jobs should be in new leader's queue"
    );
}

#[test]
fn test_multiple_sequential_leader_failures() {
    let mut cluster = TestCluster::new(5, 50230);
    let mut previous_leaders = Vec::new();

    for i in 0..2 {
        let leader_id = cluster
            .wait_for_leader(5000)
            .unwrap_or_else(|| panic!("Leader {} should be elected", i + 1));
        previous_leaders.push(leader_id);
        cluster.shutdown_node(leader_id);

        // Brief wait for election
        cluster.run_for(200);
    }

    // Should still have a leader with remaining 3 nodes (quorum = 3)
    let final_leader = cluster
        .wait_for_leader(5000)
        .expect("Should elect leader with 3 remaining nodes");
    assert!(
        !previous_leaders.contains(&final_leader),
        "Final leader should be a different node"
    );
    assert_eq!(cluster.count_leaders(), 1);
}

#[test]
fn test_jobs_committed_after_failover() {
    let mut cluster = TestCluster::new(3, 50240);

    let leader_id = cluster
        .wait_for_leader(5000)
        .expect("Leader should be elected");

    for i in 0..3 {
        cluster
            .submit_job(&format!("echo before_{}", i))
            .expect("Job should be submitted");
    }

    assert!(
        cluster.wait_for_commit_on_all(3, 2000),
        "Initial jobs should be replicated"
    );

    cluster.shutdown_node(leader_id);
    cluster
        .wait_for_new_leader(leader_id, 5000)
        .expect("New leader should be elected");

    for i in 0..3 {
        cluster
            .submit_job(&format!("echo after_{}", i))
            .expect("Job after failover should be submitted");
    }

    assert!(
        cluster.wait_for_commit_on_all(6, 3000),
        "All 6 jobs should be committed on remaining nodes"
    );

    assert!(
        cluster.verify_log_consistency(),
        "Logs should be consistent after failover"
    );
}

#[test]
fn test_election_timeout_triggers_election() {
    let mut cluster = TestCluster::new(3, 50250);

    let leader_id = cluster
        .wait_for_leader(5000)
        .expect("Leader should be elected");

    let term_before = cluster
        .nodes
        .values()
        .map(|node| node.current_term())
        .max()
        .unwrap();
    cluster.shutdown_node(leader_id);

    // Wait longer than election timeout (test config uses 50-100ms)
    cluster.run_for(300);

    let found_higher_term = cluster
        .nodes
        .values()
        .any(|node| node.current_term() > term_before);
    assert!(
        found_higher_term,
        "Election should start after leader failure (term should increase)"
    );
}

#[test]
fn test_quorum_loss_prevents_commits() {
    let mut cluster = TestCluster::new(3, 50260);

    let leader_id = cluster
        .wait_for_leader(5000)
        .expect("Leader should be elected");

    cluster
        .submit_job("echo before_quorum_loss")
        .expect("Job should be submitted with quorum");

    assert!(
        cluster.wait_for_commit_on_all(1, 2000),
        "Job should be replicated with quorum"
    );
    cluster.run_for(100);

    // Shut down two nodes (leader + one follower), leaving one node
    let followers = cluster.others(leader_id);
    let (follower_id, other_follower) = (followers[0], followers[1]);
    cluster.shutdown_node(other_follower);
    cluster.shutdown_node(leader_id);

    // Wait for election attempts
    cluster.run_for(300);

    let remaining_node = cluster.get_node(follower_id);
    assert_eq!(
        remaining_node.log_len(),
        1,
        "Remaining node should have the original log entry"
    );
    assert_eq!(
        remaining_node.node.job_queue.len(),
        1,
        "Queue should have 1 job from before quorum loss"
    );
    // It stood for election and was not elected
    assert!(!remaining_node.is_leader());
}

#[test]
fn test_stale_leader_steps_down() {
    let mut cluster = TestCluster::new(3, 50270);

    let initial_leader = cluster
        .wait_for_leader(5000)
        .expect("Leader should be elected");

    // Shutdown a follower to trigger potential re-elections
    let follower_to_shutdown = cluster.others(initial_leader)[0];
    cluster.shutdown_node(follower_to_shutdown);

    // Wait for cluster to stabilize
    cluster.run_for(500);

    // Verify still have a leader (2 nodes can form quorum in original 3-node cluster)
    let current_leader = cluster.wait_for_leader(3000);
    assert!(
        current_leader.is_some(),
        "Should still have a leader with 2 remaining nodes"
    );
    assert_eq!(cluster.count_leaders(), 1);
}

#[test]
fn leaders_of_old_terms_step_down() {
    let mut cluster = TestCluster::new(3, 7001);

    let leader_id = cluster
        .wait_for_leader(5000)
        .expect("Leader should be elected");
    cluster.isolate_node(leader_id);
    let new_leader = cluster.wait_for_new_leader(leader_id, 5000).unwrap();
    assert_eq!(cluster.count_leaders(), 2);
    assert!(cluster.get_node(leader_id).current_term() < cluster.get_node(new_leader).current_term());
    cluster.heal_node(leader_id);
    cluster.run_for(50);
    assert!(!cluster.get_node(leader_id).is_leader());
}

#[test]
fn a_majority_commits_in_clusters_of_any_size() {
    for size in 2..=6u64 {
        let mut cluster = TestCluster::new(size, 7100);
        let leader = cluster.wait_for_leader(5000).unwrap();
        let followers = cluster.others(leader);
        // With the leader, one node less than a majority
        let short = (size / 2) as usize - 1;
        for id in followers.iter().skip(short) {
            cluster.isolate_node(*id);
        }
        cluster.submit_job_to_node(leader, "echo few").unwrap();
        cluster.send_heartbeats(leader);
        cluster.send_heartbeats(leader);
        assert_eq!(cluster.raft(leader).state.commit_index, 0);
        cluster.heal_node(followers[short]);
        cluster.send_heartbeats(leader);
        cluster.send_heartbeats(leader);
        assert_eq!(cluster.raft(leader).state.commit_index, 1);
    }
}

// ── partitions ────────────────────────────────────────────────────────────────

#[test]
fn test_majority_partition_elects_leader() {
    let mut cluster = TestCluster::new(5, 50300);

    cluster
        .wait_for_leader(5000)
        .expect("Initial leader should be elected");

    let majority = vec![1, 2, 3];
    let minority = vec![4, 5];
    cluster.create_partition(&majority, &minority);

    let leader = cluster.wait_for_leader_in_group(&majority, 5000);
    assert!(leader.is_some(), "Majority partition should elect a leader");
    assert!(
        majority.contains(&leader.unwrap()),
        "Leader should be in the majority partition"
    );
}

#[test]
fn test_minority_partition_cannot_elect_leader() {
    let mut cluster = TestCluster::new(5, 50310);

    let leader_id = cluster
        .wait_for_leader(5000)
        .expect("Initial leader should be elected");

    // The leader is always in the majority.
    let mut majority: Vec<u64> = vec![leader_id];
    let mut minority: Vec<u64> = Vec::new();
    for id in 1..=5u64 {
        if id == leader_id {
            continue;
        }
        if majority.len() < 3 {
            majority.push(id);
        } else {
            minority.push(id);
        }
    }
    cluster.create_partition(&majority, &minority);

    // Wait for elections to settle
    cluster.run_for(500);

    // Minority nodes may start elections but can't get majority (need 3 of 5)
    let minority_leader = cluster.wait_for_leader_in_group(&minority, 500);
    assert!(
        minority_leader.is_none(),
        "Minority partition should not be able to elect a leader"
    );
}

#[test]
fn test_leader_isolated_new_election() {
    let mut cluster = TestCluster::new(5, 50320);

    let leader_id = cluster
        .wait_for_leader(5000)
        .expect("Initial leader should be elected");

    cluster.isolate_node(leader_id);

    let remaining = cluster.others(leader_id);
    let new_leader = cluster.wait_for_leader_in_group(&remaining, 5000);
    assert!(
        new_leader.is_some(),
        "Remaining nodes should elect a new leader"
    );
    assert_ne!(
        new_leader.unwrap(),
        leader_id,
        "New leader should be different from isolated leader"
    );
}

#[test]
fn test_partition_healing_logs_converge() {
    let mut cluster = TestCluster::new(5, 50330);

    cluster
        .wait_for_leader(5000)
        .expect("Initial leader should be elected");

    let majority = vec![1, 2, 3];
    let minority = vec![4, 5];
    cluster.create_partition(&majority, &minority);

    let leader_id = cluster
        .wait_for_leader_in_group(&majority, 5000)
        .expect("Majority should elect a leader");

    for i in 0..3 {
        cluster
            .submit_job_to_node(leader_id, &format!("echo partition_{}", i))
            .unwrap_or_else(|_| panic!("Job {} should be submitted", i));
    }

    assert!(
        cluster.wait_for_commit_on_nodes(&majority, 3, 3000),
        "Jobs should be committed on majority nodes"
    );

    cluster.heal_partition(&majority, &minority);

    assert!(
        cluster.wait_for_commit_on_nodes(&[1, 2, 3, 4, 5], 3, 5000),
        "All nodes should have 3 log entries after healing"
    );
}

#[test]
fn test_jobs_replicate_after_partition_healing() {
    let mut cluster = TestCluster::new(5, 50340);

    cluster
        .wait_for_leader(5000)
        .expect("Initial leader should be elected");

    let majority = vec![1, 2, 3];
    let minority = vec![4, 5];
    cluster.create_partition(&majority, &minority);

    let leader_id = cluster
        .wait_for_leader_in_group(&majority, 5000)
        .expect("Majority should elect a leader");

    for i in 0..5 {
        cluster
            .submit_job_to_node(leader_id, &format!("echo replicate_{}", i))
            .unwrap_or_else(|_| panic!("Job {} should be submitted", i));
    }

    assert!(
        cluster.wait_for_commit_on_nodes(&majority, 5, 3000),
        "Majority nodes should have 5 entries"
    );

    // Verify minority has no entries yet
    for node_id in minority.iter().copied() {
        assert_eq!(
            cluster.get_node(node_id).log_len(),
            0,
            "Minority node {} should have 0 entries before healing",
            node_id
        );
    }

    cluster.heal_partition(&majority, &minority);

    assert!(
        cluster.wait_for_commit_on_nodes(&minority, 5, 5000),
        "Minority nodes should receive all 5 entries after healing"
    );
}

#[test]
fn test_split_brain_prevention() {
    let mut cluster = TestCluster::new(5, 50350);

    cluster
        .wait_for_leader(5000)
        .expect("Initial leader should be elected");

    let majority = vec![1, 2, 3];
    let minority = vec![4, 5];
    cluster.create_partition(&majority, &minority);

    cluster
        .wait_for_leader_in_group(&majority, 5000)
        .expect("Majority should elect a leader");

    // Let minority nodes attempt elections (they'll fail but increment terms)
    cluster.run_for(500);

    cluster.heal_partition(&majority, &minority);

    // Minority nodes may have higher terms, triggering re-election
    cluster.run_for(500);

    let leader = cluster
        .wait_for_leader(5000)
        .expect("Should have a leader after healing");
    let leader_count = cluster.count_leaders();
    assert_eq!(
        leader_count, 1,
        "Exactly one leader should exist after partition heals (found {}, leader={})",
        leader_count, leader
    );
}

#[test]
fn test_isolated_node_rejoins_cluster() {
    let mut cluster = TestCluster::new(3, 50360);

    let leader_id = cluster
        .wait_for_leader(5000)
        .expect("Leader should be elected");

    let isolated_node = cluster.others(leader_id)[0];

    cluster
        .submit_job("echo before_isolation")
        .expect("Initial job should be submitted");

    assert!(
        cluster.wait_for_commit_on_all(1, 2000),
        "Initial job should replicate to all"
    );

    cluster.isolate_node(isolated_node);

    for i in 0..3 {
        cluster
            .submit_job(&format!("echo during_isolation_{}", i))
            .unwrap_or_else(|_| panic!("Job {} should be submitted", i));
    }

    let remaining = cluster.others(isolated_node);
    assert!(
        cluster.wait_for_commit_on_nodes(&remaining, 4, 3000),
        "Remaining nodes should have 4 entries"
    );

    assert_eq!(
        cluster.get_node(isolated_node).log_len(),
        1,
        "Isolated node should still have only 1 entry"
    );

    cluster.heal_node(isolated_node);

    assert!(
        cluster.wait_for_commit_on_nodes(&[isolated_node], 4, 5000),
        "Isolated node should catch up to 4 entries after rejoining"
    );

    assert!(
        cluster.verify_log_consistency(),
        "All nodes should have consistent logs"
    );
}

// ── chaos ─────────────────────────────────────────────────────────────────────

#[test]
fn test_rapid_leader_churn() {
    let mut cluster = TestCluster::new(5, 50700);

    // Kill 2 leaders in rapid succession (5-node cluster tolerates 2 permanent failures)
    for i in 0..2 {
        let leader_id = cluster
            .wait_for_leader(5000)
            .unwrap_or_else(|| panic!("Leader {} should be elected", i + 1));

        // Kill immediately — no grace period
        cluster.shutdown_node(leader_id);
    }

    // 3 of 5 nodes remain — still a quorum
    cluster
        .wait_for_leader(5000)
        .expect("Should elect a stable leader after rapid churn");

    assert_eq!(
        cluster.count_leaders(),
        1,
        "Exactly one leader after rapid churn"
    );

    cluster
        .submit_job("echo after_churn")
        .expect("Should submit job after leader churn");

    let remaining = cluster.active_node_ids();
    assert!(
        cluster.wait_for_commit_on_nodes(&remaining, 1, 3000),
        "Job should replicate to remaining nodes"
    );
}

#[test]
fn test_submissions_across_failover() {
    let mut cluster = TestCluster::new(5, 50720);

    let leader_id = cluster
        .wait_for_leader(5000)
        .expect("Leader should be elected");

    for i in 0..3 {
        cluster
            .submit_job(&format!("echo pre_failover_{}", i))
            .unwrap_or_else(|_| panic!("Pre-failover job {} should succeed", i));
    }

    assert!(
        cluster.wait_for_commit_on_all(3, 3000),
        "Pre-failover jobs should replicate"
    );

    cluster.shutdown_node(leader_id);
    cluster
        .wait_for_new_leader(leader_id, 5000)
        .expect("New leader should be elected after crash");

    for i in 0..3 {
        cluster
            .submit_job(&format!("echo post_failover_{}", i))
            .unwrap_or_else(|_| panic!("Post-failover job {} should succeed", i));
    }

    let remaining = cluster.active_node_ids();
    assert!(
        cluster.wait_for_commit_on_nodes(&remaining, 6, 5000),
        "All 6 jobs should be committed on remaining nodes"
    );

    assert!(
        cluster.verify_log_consistency(),
        "Logs should be consistent after failover"
    );
}

#[test]
fn test_network_flapping() {
    let mut cluster = TestCluster::new(5, 50740);

    cluster
        .wait_for_leader(5000)
        .expect("Initial leader should be elected");

    // Flap the network 5 times in quick succession
    for _ in 0..5 {
        cluster.create_partition(&[1, 2, 3], &[4, 5]);
        cluster.run_for(100);

        cluster.heal_partition(&[1, 2, 3], &[4, 5]);
        cluster.run_for(100);
    }

    // Cluster should converge to exactly one leader
    cluster
        .wait_for_leader(5000)
        .expect("Should elect leader after network flapping");

    assert_eq!(
        cluster.count_leaders(),
        1,
        "Exactly one leader after network flapping"
    );

    for i in 0..3 {
        cluster
            .submit_job(&format!("echo after_flap_{}", i))
            .unwrap_or_else(|_| panic!("Post-flap job {} should succeed", i));
    }

    assert!(
        cluster.wait_for_commit_on_all(3, 5000),
        "Jobs should replicate to all nodes after healing"
    );
}

#[test]
fn test_partition_then_crash() {
    let mut cluster = TestCluster::new(5, 50760);

    cluster
        .wait_for_leader(5000)
        .expect("Leader should be elected");

    for i in 0..3 {
        cluster
            .submit_job(&format!("echo before_chaos_{}", i))
            .unwrap_or_else(|_| panic!("Initial job {} should succeed", i));
    }

    assert!(
        cluster.wait_for_commit_on_all(3, 3000),
        "Initial jobs should replicate"
    );

    // Partition: [1,2,3,4] (majority) vs [5] (minority)
    cluster.create_partition(&[1, 2, 3, 4], &[5]);

    let majority_leader = cluster
        .wait_for_leader_in_group(&[1, 2, 3, 4], 5000)
        .expect("Majority should elect leader");

    // Crash a non-leader in the majority
    let crash_target = (1..=4u64)
        .find(|id| *id != majority_leader)
        .expect("Should have a non-leader in majority");
    cluster.shutdown_node(crash_target);

    // 3 connected nodes remain out of 5 total — still a quorum
    let remaining_majority: Vec<u64> = (1..=4).filter(|id| *id != crash_target).collect();

    let leader = cluster
        .wait_for_leader_in_group(&remaining_majority, 5000)
        .expect("Should still have leader with 3-node quorum");

    cluster
        .submit_job_to_node(leader, "echo after_partition_crash")
        .expect("Should submit job after partition + crash");

    assert!(
        cluster.wait_for_commit_on_nodes(&remaining_majority, 4, 5000),
        "Job should commit on remaining majority nodes"
    );
}

#[test]
fn test_isolated_leader_cannot_commit() {
    let mut cluster = TestCluster::new(5, 50780);

    let leader_id = cluster
        .wait_for_leader(5000)
        .expect("Leader should be elected");

    cluster
        .submit_job("echo before_isolation")
        .expect("Pre-isolation job should succeed");

    assert!(
        cluster.wait_for_commit_on_all(1, 3000),
        "Pre-isolation job should replicate"
    );
    cluster.run_for(100);

    cluster.isolate_node(leader_id);

    // The isolated leader can still append entries (it thinks it's leader)
    // but they won't be committed because it can't reach a majority.
    let pre_commit = cluster.raft(leader_id).state.commit_index;
    let appended = cluster.submit_job_to_node(leader_id, "echo during_isolation");
    assert!(appended.is_ok());

    // Wait a bit — the entry should NOT be committed
    cluster.run_for(500);
    assert_eq!(
        cluster.raft(leader_id).state.commit_index,
        pre_commit,
        "Isolated leader should not advance commit index"
    );

    // Meanwhile the majority should elect a new leader
    let followers = cluster.others(leader_id);
    let new_leader = cluster
        .wait_for_leader_in_group(&followers, 5000)
        .expect("Majority should elect new leader");
    assert_ne!(new_leader, leader_id);

    cluster.heal_node(leader_id);

    // Wait for the old leader to step down (it will see a higher term)
    cluster.run_for(500);

    let final_leader = cluster
        .wait_for_leader(5000)
        .expect("Should have leader after healing");
    assert_eq!(
        cluster.count_leaders(),
        1,
        "Exactly one leader after healing"
    );

    cluster
        .submit_job_to_node(final_leader, "echo after_healing")
        .expect("Should submit job after healing");

    assert!(
        cluster.wait_for_commit_on_all(2, 5000),
        "All nodes should converge after healing"
    );
}

#[test]
fn test_cascading_failures_with_interleaved_jobs() {
    let mut cluster = TestCluster::new(5, 50800);

    cluster
        .wait_for_leader(5000)
        .expect("Leader should be elected");

    cluster
        .submit_job("echo round_1")
        .expect("Round 1 job should succeed");
    assert!(
        cluster.wait_for_commit_on_all(1, 3000),
        "Round 1 should replicate to all 5 nodes"
    );

    // Kill a follower (5 → 4 nodes, quorum = 3, still OK)
    let leader1 = cluster.get_leader_id().unwrap();
    let victim1 = cluster.others(leader1)[0];
    cluster.shutdown_node(victim1);

    // Round 2: 4 nodes alive
    let leader2 = cluster
        .wait_for_leader(5000)
        .expect("Should still have leader with 4 nodes");
    cluster
        .submit_job("echo round_2")
        .expect("Round 2 job should succeed");
    let active2 = cluster.active_node_ids();
    assert!(
        cluster.wait_for_commit_on_nodes(&active2, 2, 3000),
        "Round 2 should commit on remaining 4 nodes"
    );

    // Kill another node (4 → 3 nodes, still a quorum)
    let victim2 = cluster.others(leader2)[0];
    cluster.shutdown_node(victim2);

    // Round 3: 3 nodes alive — bare quorum
    cluster
        .wait_for_leader(5000)
        .expect("Should still have leader with 3 nodes (bare quorum)");
    cluster
        .submit_job("echo round_3")
        .expect("Round 3 job should succeed");
    let active3 = cluster.active_node_ids();
    assert!(
        cluster.wait_for_commit_on_nodes(&active3, 3, 3000),
        "Round 3 should commit on remaining 3 nodes"
    );

    // Kill one more (3 → 2 nodes, quorum lost)
    let leader3 = cluster.get_leader_id().unwrap();
    let victim3 = cluster.others(leader3)[0];
    cluster.shutdown_node(victim3);

    cluster.run_for(500);

    // The surviving 2 nodes cannot form quorum
    let active4 = cluster.active_node_ids();
    assert_eq!(active4.len(), 2, "Should have exactly 2 surviving nodes");
}

#[test]
fn test_all_nodes_isolated_then_healed() {
    let mut cluster = TestCluster::new(5, 50820);

    cluster
        .wait_for_leader(5000)
        .expect("Initial leader should be elected");

    cluster
        .submit_job("echo before_total_isolation")
        .expect("Job should succeed before isolation");
    assert!(
        cluster.wait_for_commit_on_all(1, 3000),
        "Job should replicate before isolation"
    );

    // Isolate every node from every other node
    for id in 1..=5u64 {
        cluster.isolate_node(id);
    }

    // No node can reach any other — wait for election timeouts to fire
    cluster.run_for(500);

    // A stale leader may still think it's leader, but it can't commit anything
    cluster.wait_for_leader(300);

    // Heal all nodes
    for id in 1..=5u64 {
        cluster.heal_node(id);
    }

    // After full isolation, nodes have wildly different terms from failed elections.
    cluster.run_for(1000);

    cluster
        .wait_for_leader(10000)
        .expect("Should elect leader after total isolation heals");

    assert_eq!(
        cluster.count_leaders(),
        1,
        "Exactly one leader after recovery"
    );

    cluster
        .submit_job("echo after_total_isolation")
        .expect("Should submit job after recovery");

    assert!(
        cluster.wait_for_commit_on_all(2, 10000),
        "All nodes should have both jobs after recovery"
    );

    assert!(
        cluster.verify_log_consistency(),
        "Logs should be consistent after full isolation recovery"
    );
}

#[test]
fn test_leader_partition_during_replication() {
    let mut cluster = TestCluster::new(5, 50840);

    let leader_id = cluster
        .wait_for_leader(5000)
        .expect("Leader should be elected");

    // Submit several jobs rapidly (some may not have replicated yet)
    for i in 0..5 {
        cluster
            .submit_job(&format!("echo replicate_{}", i))
            .unwrap_or_else(|_| panic!("Job {} should be accepted by leader", i));
    }

    // Immediately partition the leader away before full replication
    cluster.isolate_node(leader_id);

    let followers = cluster.others(leader_id);
    let new_leader = cluster
        .wait_for_leader_in_group(&followers, 5000)
        .expect("Majority should elect new leader");

    cluster
        .submit_job_to_node(new_leader, "echo post_partition")
        .expect("Should submit job to new leader");

    cluster.heal_node(leader_id);

    // Wait for convergence — all nodes should eventually agree
    cluster.run_for(1000);

    cluster
        .wait_for_leader(5000)
        .expect("Should have leader after healing");

    assert_eq!(
        cluster.count_leaders(),
        1,
        "Exactly one leader after healing"
    );

    assert!(
        cluster.verify_log_consistency(),
        "Logs should be consistent after partition heals"
    );
}

#[test]
fn full_isolation_is_undone() {
    let mut cluster = TestCluster::new(3, 7700);
    let leader_id = cluster
        .wait_for_leader(5000)
        .expect("Leader should be elected");
    cluster.raft(leader_id).disconnect_all_peers();
    assert!(cluster.reachable(leader_id).is_empty());
    assert!(!cluster.raft(leader_id).all_peers_connected());
    assert!(cluster.raft(leader_id).send_heartbeats().is_empty());
    cluster.raft(leader_id).reconnect_all_peers();
    assert!(cluster.raft(leader_id).all_peers_connected());
    assert_eq!(cluster.raft(leader_id).send_heartbeats().len(), 2);
}

// ── what holds throughout a run ───────────────────────────────────────────────

/// What was seen of a cluster so far: who led in each term, and what was committed at each index,
/// with the term of the node that had committed it first.
struct Watch {
    leaders: BTreeMap<u64, u64>,
    committed: BTreeMap<u64, (String, u64)>,
}

impl Watch {
    fn new() -> Self {
        Watch {
            leaders: BTreeMap::new(),
            committed: BTreeMap::new(),
        }
    }

    fn look_at(&mut self, cluster: &TestCluster) {
        for (id, node) in &cluster.nodes {
            let state = &node.node.raft_node.state;
            if node.is_leader() {
                let leader = self.leaders.entry(state.current_term).or_insert(*id);
                assert_eq!(leader, id, "two leaders in term {}", state.current_term);
            }
            for index in 1..=state.commit_index {
                if let Some(entry) = state.get_entry(index) {
                    let seen = format!("{:?}", entry);
                    let first = self
                        .committed
                        .entry(index)
                        .or_insert((seen.clone(), state.current_term));
                    assert_eq!(first.0, seen, "two entries committed at {}", index);
                }
            }
        }
        for node in cluster.nodes.values().filter(|node| node.is_leader()) {
            let state = &node.node.raft_node.state;
            for (index, (seen, term)) in &self.committed {
                if *term <= state.current_term {
                    let entry = state.get_entry(*index).expect("a leader has what is committed");
                    assert_eq!(*seen, format!("{:?}", entry));
                }
            }
        }
        for a in cluster.nodes.values().map(|node| &node.node.raft_node.state) {
            for b in cluster.nodes.values().map(|node| &node.node.raft_node.state) {
                let last = a.last_log_index().min(b.last_log_index());
                let common = (1..=last).rev().find(|i| {
                    a.get_entry(*i).map(|e| e.term) == b.get_entry(*i).map(|e| e.term)
                });
                for index in 1..=common.unwrap_or(0) {
                    assert_eq!(
                        format!("{:?}", a.get_entry(index)),
                        format!("{:?}", b.get_entry(index))
                    );
                }
            }
        }
    }
}

/// Runs a cluster and looks at it every millisecond.
fn run_watched(cluster: &mut TestCluster, watch: &mut Watch, ms: u64) {
    for _ in 0..ms {
        cluster.run_for(1);
        watch.look_at(cluster);
    }
}

#[test]
fn one_leader_per_term_and_nothing_committed_is_lost() {
    let mut cluster = TestCluster::new(5, 7800);
    let mut watch = Watch::new();
    run_watched(&mut cluster, &mut watch, 500);
    for round in 0..4 {
        let leader = cluster.get_leader_id().expect("Leader should be elected");
        for job in 0..3 {
            cluster.submit_job(&format!("echo {} {}", round, job)).unwrap();
        }
        run_watched(&mut cluster, &mut watch, 200);
        // The leader keeps what it is given while nobody hears it.
        cluster.isolate_node(leader);
        cluster.submit_job_to_node(leader, "lost").unwrap();
        run_watched(&mut cluster, &mut watch, 500);
        let next = cluster
            .leader_in_group(&cluster.others(leader))
            .expect("the others elect a leader");
        cluster.submit_job_to_node(next, "kept").unwrap();
        cluster.submit_job_to_node(next, "kept too").unwrap();
        run_watched(&mut cluster, &mut watch, 200);
        cluster.heal_node(leader);
        run_watched(&mut cluster, &mut watch, 500);
    }
    assert!(watch.leaders.len() >= 5, "each round has a new leader");
    assert!(watch.committed.len() >= 20, "5 jobs a round are committed");
    assert!(watch.committed.values().all(|(entry, _)| !entry.contains("lost")));
    assert_eq!(cluster.count_leaders(), 1);
    assert!(cluster.verify_log_consistency());
}

// ── compaction ────────────────────────────────────────────────────────────────

#[test]
fn test_log_compaction_triggered() {
    let mut cluster = TestCluster::new(3, 51100);

    cluster
        .wait_for_leader(5000)
        .expect("Leader should be elected");

    // Submit enough jobs to trigger compaction (threshold is 1000)
    let total_jobs = 1050;
    for i in 0..total_jobs {
        cluster
            .submit_job(&format!("echo compaction_test_{}", i))
            .unwrap_or_else(|e| panic!("Job {} submission failed: {}", i, e));
    }

    assert!(
        cluster.wait_for_commit_on_all(total_jobs, 60000),
        "All jobs should be replicated to all nodes"
    );

    // Compaction runs after applying committed entries
    cluster.run_for(500);

    // Verify compaction occurred on the leader
    let leader_id = cluster.get_leader_id().unwrap();
    let state = &cluster.get_node(leader_id).node.raft_node.state;
    assert!(
        state.log_offset > 0,
        "Log offset should be > 0 after compaction (got {})",
        state.log_offset
    );
    assert!(
        state.log.len() < total_jobs,
        "In-memory log should be shorter than total entries ({} < {})",
        state.log.len(),
        total_jobs
    );
    assert_eq!(
        state.last_log_index(),
        total_jobs as u64,
        "last_log_index should still reflect total entries"
    );
    assert!(
        state.snapshot.is_some(),
        "Snapshot should exist after compaction"
    );
}

#[test]
fn test_snapshot_sent_to_slow_follower() {
    let mut cluster = TestCluster::new(3, 51200);

    let leader_id = cluster
        .wait_for_leader(5000)
        .expect("Leader should be elected");

    // Submit a few initial jobs so all nodes have some state
    for i in 0..10 {
        cluster
            .submit_job(&format!("echo pre_isolation_{}", i))
            .unwrap();
    }
    assert!(
        cluster.wait_for_commit_on_all(10, 5000),
        "Initial jobs should be replicated"
    );

    // Find a follower and isolate it
    let follower_id = cluster.others(leader_id)[0];
    cluster.isolate_node(follower_id);

    let majority_nodes = cluster.others(follower_id);
    let total_new_jobs = 1050;
    for i in 0..total_new_jobs {
        cluster
            .submit_job_to_node(leader_id, &format!("echo isolated_{}", i))
            .unwrap_or_else(|e| panic!("Job {} failed: {}", i, e));
    }

    let expected_total = 10 + total_new_jobs;
    assert!(
        cluster.wait_for_commit_on_nodes(&majority_nodes, expected_total, 60000),
        "Majority nodes should have all entries"
    );

    // Wait for compaction to trigger
    cluster.run_for(500);
    assert!(
        cluster.raft(leader_id).state.log_offset > 0,
        "Leader should have compacted its log"
    );

    // Heal the partition — follower should catch up via snapshot
    cluster.heal_node(follower_id);
    cluster.assert_eventually(
        15000,
        "Isolated follower should catch up via snapshot",
        |c| c.get_node(follower_id).log_len() >= expected_total,
    );

    // Verify the follower has a snapshot installed
    let state = &cluster.get_node(follower_id).node.raft_node.state;
    assert!(
        state.log_offset > 0,
        "Follower should have received snapshot (log_offset = {})",
        state.log_offset
    );
    // Its jobs are those of the snapshot
    assert_eq!(cluster.get_node(follower_id).node.job_queue.len(), expected_total);
}

#[test]
fn test_multiple_compaction_rounds() {
    let mut cluster = TestCluster::new(3, 51400);

    cluster
        .wait_for_leader(5000)
        .expect("Leader should be elected");

    // Round 1: exceed the 1 000-entry compaction threshold
    for i in 0..1100 {
        cluster
            .submit_job(&format!("echo round1_{}", i))
            .unwrap_or_else(|e| panic!("Round-1 job {} failed: {}", i, e));
    }
    assert!(
        cluster.wait_for_commit_on_all(1100, 120000),
        "Round-1 jobs should replicate to all nodes"
    );
    cluster.run_for(500);

    let leader_id = cluster.get_leader_id().unwrap();
    let first_offset = cluster.raft(leader_id).state.log_offset;
    assert!(first_offset > 0, "First compaction should have occurred");

    // Round 2: another 1 100 entries — triggers a second compaction
    for i in 0..1100 {
        cluster
            .submit_job(&format!("echo round2_{}", i))
            .unwrap_or_else(|e| panic!("Round-2 job {} failed: {}", i, e));
    }
    assert!(
        cluster.wait_for_commit_on_all(2200, 120000),
        "Round-2 jobs should replicate to all nodes"
    );
    cluster.run_for(500);

    let second_offset = cluster.raft(leader_id).state.log_offset;
    assert!(
        second_offset > first_offset,
        "Second compaction should have advanced log_offset (was {}, now {})",
        first_offset,
        second_offset
    );

    // Cluster must still accept new work after two compaction rounds
    cluster
        .submit_job("echo post_compaction")
        .expect("Post-compaction job submission should succeed");
    assert!(
        cluster.wait_for_commit_on_all(2201, 30000),
        "Post-compaction job should replicate"
    );
}

#[test]
fn test_snapshot_replication_falls_back_to_entries() {
    let mut cluster = TestCluster::new(3, 51500);

    let leader_id = cluster
        .wait_for_leader(5000)
        .expect("Leader should be elected");

    // Find a follower and immediately isolate it before any compaction occurs
    let follower_id = cluster.others(leader_id)[0];
    cluster.isolate_node(follower_id);
    let majority_nodes = cluster.others(follower_id);

    // Accumulate 50 entries — well below the 1 000-entry compaction threshold
    for i in 0..50 {
        cluster
            .submit_job_to_node(leader_id, &format!("echo entry_{}", i))
            .unwrap_or_else(|e| panic!("Job {} failed: {}", i, e));
    }

    assert!(
        cluster.wait_for_commit_on_nodes(&majority_nodes, 50, 30000),
        "Majority should commit 50 entries"
    );

    // Verify no compaction has happened (only 50 entries < 1 000 threshold)
    assert_eq!(
        cluster.raft(leader_id).state.log_offset,
        0,
        "No compaction should have occurred with only 50 entries"
    );

    // Heal the partition — follower must catch up via AppendEntries (no snapshot available)
    cluster.heal_node(follower_id);
    cluster.assert_eventually(
        15000,
        "Follower should catch up via AppendEntries",
        |c| c.get_node(follower_id).log_len() >= 50,
    );

    // The follower must NOT have received a snapshot (log_offset stays 0)
    let state = &cluster.get_node(follower_id).node.raft_node.state;
    assert_eq!(
        state.log_offset, 0,
        "Follower should have caught up via AppendEntries, not a snapshot"
    );
    assert_eq!(state.last_log_index(), 50);
}

#[test]
fn test_state_consistency_after_compaction() {
    let mut cluster = TestCluster::new(3, 51300);

    cluster
        .wait_for_leader(5000)
        .expect("Leader should be elected");

    // Submit enough to trigger compaction
    let total_jobs = 1050;
    for i in 0..total_jobs {
        cluster
            .submit_job(&format!("echo consistency_test_{}", i))
            .unwrap_or_else(|e| panic!("Job {} failed: {}", i, e));
    }

    assert!(
        cluster.wait_for_commit_on_all(total_jobs, 60000),
        "All jobs should be replicated"
    );

    // Wait for compaction
    cluster.run_for(500);

    // Verify all nodes have the same job queue state
    let first_count = cluster.nodes.values().next().unwrap().node.job_queue.len();
    assert_eq!(first_count, total_jobs);
    for (node_id, node) in cluster.nodes.iter() {
        let count = node.node.job_queue.len();
        assert_eq!(
            count, first_count,
            "Node {} has {} jobs, expected {} (same as first node)",
            node_id, count, first_count
        );
    }

    // Verify all nodes agree on last_log_index
    let first_index = cluster.nodes.values().next().unwrap().log_len();
    for (node_id, node) in cluster.nodes.iter() {
        let index = node.log_len();
        assert_eq!(
            index, first_index,
            "Node {} has last_log_index={}, expected {}",
            node_id, index, first_index
        );
    }
}

#[test]
fn a_restarted_node_catches_up() {
    let mut cluster = TestCluster::new(3, 7200);

    let leader_id = cluster
        .wait_for_leader(5000)
        .expect("Leader should be elected");
    for i in 0..1020 {
        cluster.submit_job(&format!("echo {}", i)).unwrap();
    }
    assert!(cluster.wait_for_commit_on_all(1020, 5000));
    cluster.run_for(100);

    // A follower crashes, and what it stored outlives it
    let follower_id = cluster.others(leader_id)[0];
    let stored = {
        let state = &cluster.raft(follower_id).state;
        PersistedState {
            current_term: state.current_term,
            voted_for: state.voted_for,
            log_offset: state.log_offset,
            snapshot: state.snapshot.clone(),
            log: state.log.clone(),
        }
    };
    assert!(stored.log_offset > 0);
    let config = cluster.get_node(follower_id).node.config.clone();
    cluster.shutdown_node(follower_id);

    let mut restarted = Node::new(config.clone());
    restarted.raft_node = RaftNode::new_with_storage(config, Some(stored));
    cluster.start_node(follower_id, restarted);
    cluster.submit_job("echo restarted").unwrap();
    assert!(cluster.wait_for_commit_on_all(1021, 5000));
    cluster.run_for(100);
    assert_eq!(cluster.get_node(follower_id).node.job_queue.len(), 1021);
}

// ── cancellation ──────────────────────────────────────────────────────────────

#[test]
fn test_cancel_pending_job_replicated_to_all_nodes() {
    let mut cluster = TestCluster::new(3, 50900);

    cluster
        .wait_for_leader(5000)
        .expect("Leader should be elected");

    let job_id = cluster
        .submit_job("echo cancellation-test")
        .expect("Job submission should succeed");
    cluster.assert_eventually(3000, "Job should be replicated to all nodes", |c| {
        c.known_everywhere(job_id)
    });

    cluster
        .cancel_job(job_id)
        .expect("CancelJob should be committed");
    cluster.assert_eventually(3000, "All nodes should show the job as Cancelled", |c| {
        c.status_everywhere(job_id, JobStatus::Cancelled)
    });
}

#[test]
fn test_cancel_already_cancelled_job_is_idempotent() {
    let mut cluster = TestCluster::new(3, 50910);

    cluster
        .wait_for_leader(5000)
        .expect("Leader should be elected");

    let job_id = cluster
        .submit_job("echo idempotent")
        .expect("Job submission should succeed");
    cluster.assert_eventually(3000, "Job should appear on all nodes", |c| {
        c.known_everywhere(job_id)
    });

    // First cancel
    cluster
        .cancel_job(job_id)
        .expect("First CancelJob should commit");
    cluster.assert_eventually(3000, "Job should be Cancelled after first cancel", |c| {
        c.status_of(c.get_leader_id().unwrap(), job_id) == Some(JobStatus::Cancelled)
    });

    // Second cancel — should still commit to Raft (no error), status stays Cancelled
    cluster
        .cancel_job(job_id)
        .expect("Second CancelJob should still commit to Raft");
    cluster.run_for(100);
    cluster.assert_eventually(3000, "Job should remain Cancelled after second cancel", |c| {
        c.status_everywhere(job_id, JobStatus::Cancelled)
    });
}

#[test]
fn test_cancel_nonexistent_job_is_a_noop() {
    let mut cluster = TestCluster::new(3, 50920);

    cluster
        .wait_for_leader(5000)
        .expect("Leader should be elected");

    let phantom_id = 0xfeed;
    // Should commit without error — the scheduler just finds nothing to do
    cluster
        .cancel_job(phantom_id)
        .expect("CancelJob for unknown ID should still commit");
    cluster.run_for(100);

    // Queue remains empty on all nodes
    for node in cluster.nodes.values() {
        assert!(
            node.node.job_queue.get_job(&phantom_id).is_none(),
            "Non-existent job must not be created by a cancel command"
        );
    }
}

#[test]
fn test_cancel_completed_job_leaves_status_unchanged() {
    let mut cluster = TestCluster::new(3, 50930);

    cluster
        .wait_for_leader(5000)
        .expect("Leader should be elected");

    let job_id = cluster
        .submit_job("echo done")
        .expect("Job submission should succeed");
    cluster.assert_eventually(3000, "Job should appear on all nodes before we mark it Completed", |c| {
        c.known_everywhere(job_id)
    });

    // Directly mark the job as Completed on all nodes
    for node in cluster.nodes.values_mut() {
        node.node.job_queue.update_status(
            &job_id,
            JobStatus::Completed,
            Some("done\n".to_string()),
            None,
        );
    }

    cluster
        .cancel_job(job_id)
        .expect("CancelJob command should still commit to Raft");

    // The CancelJob entry is applied, and the Completed status is not overwritten
    cluster.run_for(100);
    cluster.assert_eventually(3000, "Completed job should stay Completed after a cancel command", |c| {
        c.status_everywhere(job_id, JobStatus::Completed)
    });
}

// ── assignment ────────────────────────────────────────────────────────────────

#[test]
fn test_jobs_distributed_across_nodes() {
    let mut cluster = TestCluster::new(3, 19300);

    let leader_id = cluster
        .wait_for_leader(5000)
        .expect("No leader elected within timeout");

    // Register all nodes as workers via Raft so the leader's assigner knows about them.
    for worker_id in cluster.active_node_ids() {
        cluster
            .propose(leader_id, Command::RegisterWorker { worker_id })
            .unwrap();
    }

    // Give registrations time to commit
    cluster.run_for(300);

    // Submit 9 jobs (ideally 3 per node)
    let num_jobs = 9;
    for i in 0..num_jobs {
        cluster
            .submit_job(&format!("echo job-{}", i))
            .expect("Failed to submit job");
    }

    cluster.assert_eventually(
        10000,
        "All jobs should be assigned to workers within timeout",
        |c| {
            let all_jobs = c.get_node(leader_id).node.job_queue.all_jobs();
            all_jobs.len() == num_jobs && all_jobs.iter().all(|j| j.assigned_worker.is_some())
        },
    );

    // Check assigned workers in the leader's job queue
    let assigned_workers: BTreeSet<u64> = cluster
        .get_node(leader_id)
        .node
        .job_queue
        .all_jobs()
        .iter()
        .filter_map(|j| j.assigned_worker)
        .collect();
    assert!(
        assigned_workers.len() > 1,
        "Expected jobs distributed across multiple workers, but all went to: {:?}",
        assigned_workers
    );

    // Each node is to run the jobs that were assigned to it
    cluster.run_for(100);
    for id in cluster.active_node_ids() {
        let node = &cluster.get_node(id).node;
        assert_eq!(jobs_to_run(&node.job_queue, &node.job_assigner, id).len(), 3);
    }
}

#[test]
fn test_dead_worker_not_assigned() {
    let mut cluster = TestCluster::new(3, 19320);

    let leader_id = cluster
        .wait_for_leader(5000)
        .expect("No leader elected");

    // Manually register workers 100, 200, 300 in the leader's assigner
    let now = cluster.now;
    let assigner = &mut cluster.nodes.get_mut(&leader_id).unwrap().node.job_assigner;
    assigner.register_worker_at(100, now);
    assigner.register_worker_at(200, now);
    assigner.register_worker_at(300, now);

    // Wait for the 5 s liveness window to expire (no heartbeats sent)
    cluster.run_for(6000);

    // Revive only worker 100 via a heartbeat to the leader's InternalService
    let now = cluster.now;
    let assigner = &mut cluster.nodes.get_mut(&leader_id).unwrap().node.job_assigner;
    InternalServiceImpl::new(leader_id, true).worker_heartbeat(
        assigner,
        WorkerHeartbeatRequest { node_id: 100 },
        now,
    );

    // Submit a job — it should only go to worker 100 (the only live one)
    let job_id = cluster
        .submit_job("echo assigned-to-live")
        .expect("Failed to submit job");

    cluster.assert_eventually(
        5000,
        "Job should have been assigned to live worker 100",
        |c| {
            c.get_node(leader_id)
                .node
                .job_queue
                .get_job(&job_id)
                .map(|j| j.assigned_worker == Some(100))
                .unwrap_or(false)
        },
    );
}

// ── leadership transfer ───────────────────────────────────────────────────────

#[test]
fn test_leadership_transfer_to_specific_node() {
    let mut cluster = TestCluster::new(3, 18100);

    let leader_id = cluster
        .wait_for_leader(5000)
        .expect("Leader should be elected");

    // Pick a follower as target
    let target_id = if leader_id == 1 { 2 } else { 1 };

    let new_leader = cluster
        .transfer_leadership(Some(target_id))
        .expect("Transfer should succeed");
    assert_eq!(new_leader, target_id);

    // Wait for the target to actually become leader
    cluster.run_for(300);

    let current_leader = cluster.get_leader_id();
    assert_eq!(
        current_leader,
        Some(target_id),
        "Target node should be the new leader"
    );
}

#[test]
fn test_leadership_transfer_auto_select() {
    let mut cluster = TestCluster::new(3, 18200);

    let leader_id = cluster
        .wait_for_leader(5000)
        .expect("Leader should be elected");

    // Auto-select target
    let new_leader = cluster
        .transfer_leadership(None)
        .expect("Auto-select transfer should succeed");
    assert_ne!(new_leader, leader_id, "New leader should be different");

    // Wait for election to settle
    cluster.run_for(300);

    let current_leader = cluster.get_leader_id();
    assert!(current_leader.is_some(), "A new leader should exist");
    assert_ne!(
        current_leader.unwrap(),
        leader_id,
        "New leader should differ from old"
    );
}

#[test]
fn test_transfer_rejects_on_non_leader() {
    let mut cluster = TestCluster::new(3, 18300);

    let leader_id = cluster
        .wait_for_leader(5000)
        .expect("Leader should be elected");

    // Pick a follower
    let follower_id = if leader_id == 1 { 2 } else { 1 };

    // Try to transfer from follower — should fail
    let result =
        cluster.transfer_from(follower_id, RaftMessage::TransferLeadership { target_id: None });
    assert!(result.is_err(), "Transfer from follower should fail");
    assert!(
        result.unwrap_err().contains("Not the leader"),
        "Error should mention not being leader"
    );
}

#[test]
fn test_drain_transfers_leadership() {
    let mut cluster = TestCluster::new(3, 18500);

    let leader_id = cluster
        .wait_for_leader(5000)
        .expect("Leader should be elected");

    // Drain the leader
    let node = &mut cluster.nodes.get_mut(&leader_id).unwrap().node;
    node.draining = true;
    let service = ClientService::new(node.config.clone(), false);
    assert_eq!(
        service.drain_step(&node.raft_node, &node.job_queue),
        DrainStep::TransferLeadership
    );
    let handed_over = cluster.transfer_leadership(None).map(|_| ());
    let response = service.finish_drain(handed_over);
    assert!(response.success, "Drain should report success");

    // Wait for a new leader election
    cluster.run_for(500);

    // Check that a new leader was elected (might be any of the remaining nodes)
    let new_leader = cluster.get_leader_id();
    assert!(new_leader.is_some(), "A new leader should be elected");
    assert_ne!(
        new_leader.unwrap(),
        leader_id,
        "New leader should be different from drained node"
    );
    // Nothing is left to do
    let node = &cluster.get_node(leader_id).node;
    assert_eq!(
        service.drain_step(&node.raft_node, &node.job_queue),
        DrainStep::Finish
    );
}

#[test]
fn the_node_with_most_of_the_log_is_picked() {
    let mut cluster = TestCluster::new(3, 7300);

    let leader_id = cluster
        .wait_for_leader(5000)
        .expect("Leader should be elected");
    let followers = cluster.others(leader_id);
    cluster.create_partition(&[leader_id], &[followers[0]]);
    cluster.submit_job_to_node(leader_id, "echo one").unwrap();
    cluster.send_heartbeats(leader_id);
    cluster.heal_partition(&[leader_id], &[followers[0]]);
    assert_eq!(cluster.transfer_leadership(None), Ok(followers[1]));
}

#[test]
fn transfers_that_cannot_succeed_are_told() {
    let mut cluster = TestCluster::new(3, 7400);

    let leader_id = cluster
        .wait_for_leader(5000)
        .expect("Leader should be elected");
    assert_eq!(
        cluster.transfer_leadership(Some(9)).unwrap_err(),
        "Unknown target node 9"
    );
    let target = cluster.others(leader_id)[1];
    cluster.create_partition(&[leader_id], &[target]);
    assert_eq!(
        cluster.transfer_leadership(Some(target)).unwrap_err(),
        format!("Not connected to target node {}", target)
    );
    // With an entry that the target lacks it is waited for, until the deadline
    let mut cluster = TestCluster::new(3, 7500);
    let leader_id = cluster.wait_for_leader(5000).unwrap();
    let target = cluster.others(leader_id)[1];
    cluster.isolate_node(target);
    cluster.submit_job("echo one").unwrap();
    let transfer = cluster.raft(leader_id).handle_transfer_leadership(Some(target)).unwrap();
    match cluster.raft(leader_id).transfer_step(&transfer, true) {
        TransferStep::GiveUp(e) => {
            assert_eq!(e, format!("Target node {} did not catch up within 2s", target))
        }
        _ => panic!("the deadline passed"),
    }
    let mut alone = TestCluster::new(1, 7600);
    assert!(alone.stand(1));
    assert_eq!(
        alone.transfer_leadership(None).unwrap_err(),
        "No peers available for transfer"
    );
}
